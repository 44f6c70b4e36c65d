use build_locks::layout::{LayoutTree, LayoutTreeNode};
use build_locks::layout_line::{LayoutError, Platform, TargetEnv, TargetOs};

fn linux() -> Platform {
    Platform { os: TargetOs::Linux, env: TargetEnv::Gnu }
}

#[test]
fn test_to_string_round_trip() {
    // An input string where children are NOT alphabetically sorted.
    let input = r#"
[ROOT]/foo/build-dir
├── .rustc_info.json
├── CACHEDIR.TAG
├── debug
│   ├── .cargo-lock
│   └── .fingerprint
└── tmp
    └── foo.txt
"#;

    let parsed_tree = LayoutTree::parse(input, linux());
    let result_string = parsed_tree.to_string();

    // The generated string should match the canonical, sorted version.
    assert_eq!(result_string.trim(), input.trim());
}

#[test]
fn to_string_sorts_entries_by_name() {
    let input = "root\n├── zeta\n├── alpha\n│   ├── two\n│   └── one\n└── mid";
    let tree = LayoutTree::parse(input, linux());
    let expected = "root\n├── alpha\n│   ├── one\n│   └── two\n├── mid\n└── zeta\n";
    assert_eq!(tree.to_string(), expected);
}

#[test]
fn to_string_keeps_the_order_of_equal_names() {
    let mut root = LayoutTreeNode::new("r");
    let mut first = LayoutTreeNode::new("r/a/x");
    first.push(LayoutTreeNode::new("r/a/x/first"));
    let mut second = LayoutTreeNode::new("r/b/x");
    second.push(LayoutTreeNode::new("r/b/x/second"));
    root.push(first);
    root.push(second);
    root.push(LayoutTreeNode::new("r/a"));
    let text = LayoutTree::new(root).to_string();
    assert_eq!(text, "r\n├── a\n├── x\n│   └── first\n└── x\n    └── second\n");
}

#[test]
fn to_string_strips_the_verbatim_prefix_of_the_root() {
    let mut root = LayoutTreeNode::new("\\\\?\\C:\\work");
    root.push(LayoutTreeNode::new("\\\\?\\C:\\work/file"));
    assert_eq!(LayoutTree::new(root).to_string(), "C:\\work\n└── file\n");
    let plain = LayoutTree::new(LayoutTreeNode::new("\\\\?work"));
    assert_eq!(plain.to_string(), "\\\\?work\n");
}

#[test]
fn parse_builds_paths_below_the_root() {
    let input = "\n  [ROOT]/foo\n├── a\n│   └── b\n│       └── c\n└── d\n\n";
    let tree = LayoutTree::parse(input, linux());
    let root = tree.root();
    assert_eq!(root.path(), "[ROOT]/foo");
    assert_eq!(root.len(), 2);
    let a = root.child(0);
    assert_eq!(a.path(), "[ROOT]/foo/a");
    assert_eq!(a.len(), 1);
    assert_eq!(a.child(0).path(), "[ROOT]/foo/a/b");
    assert_eq!(a.child(0).child(0).path(), "[ROOT]/foo/a/b/c");
    assert_eq!(a.child(0).child(0).len(), 0);
    assert_eq!(root.child(1).path(), "[ROOT]/foo/d");
    assert_eq!(root.child(1).len(), 0);
}

#[test]
fn parse_reads_lines_that_end_with_carriage_returns() {
    let tree = LayoutTree::parse("root\r\n├── a\r\n└── b", linux());
    assert_eq!(tree.root().path(), "root");
    assert_eq!(tree.root().len(), 2);
    assert_eq!(tree.root().child(0).path(), "root/a");
    assert_eq!(tree.root().child(1).path(), "root/b");
}

#[test]
fn parse_cuts_the_name_at_the_first_space() {
    let tree = LayoutTree::parse("root\n└── name and more", linux());
    assert_eq!(tree.root().child(0).path(), "root/name");
}

#[test]
fn parse_takes_a_line_without_branch_as_an_entry_of_the_root() {
    let tree = LayoutTree::parse("root\nplain\nother\n└── x", linux());
    assert_eq!(tree.root().len(), 2);
    assert_eq!(tree.root().child(0).path(), "root/plain");
    assert_eq!(tree.root().child(0).len(), 0);
    assert_eq!(tree.root().child(1).path(), "root/other");
    assert_eq!(tree.root().child(1).child(0).path(), "root/other/x");
}

#[test]
fn parse_takes_a_branch_at_the_end_of_the_text_as_a_name() {
    // The space behind the last branch is white space at the end of the
    // text, so no branch end is left on the line.
    let tree = LayoutTree::parse("root\n└── ", linux());
    assert_eq!(tree.root().len(), 1);
    assert_eq!(tree.root().child(0).path(), "root/└──");
}

#[test]
fn parse_leaves_out_entries_of_other_platforms() {
    let input = r#"
[ROOT]/foo
└── inner
    ├── foo [target_platform=linux]
    ├── bar [target_platform=macos]
    ├── baz [target_platform=windows]
    ├── qux [target_platform=windows-msvc]
    └── quux [target_platform=windows-gnu]
"#;
    let on_linux = LayoutTree::parse(input, linux());
    let inner = on_linux.root().child(0);
    assert_eq!(inner.path(), "[ROOT]/foo/inner");
    assert_eq!(inner.len(), 1);
    assert_eq!(inner.child(0).path(), "[ROOT]/foo/inner/foo");

    let msvc = Platform { os: TargetOs::Windows, env: TargetEnv::Msvc };
    let on_msvc = LayoutTree::parse(input, msvc);
    let inner = on_msvc.root().child(0);
    assert_eq!(inner.len(), 2);
    assert_eq!(inner.child(0).path(), "[ROOT]/foo/inner/baz");
    assert_eq!(inner.child(1).path(), "[ROOT]/foo/inner/qux");

    let mac = Platform { os: TargetOs::Macos, env: TargetEnv::Other };
    let on_mac = LayoutTree::parse(input, mac);
    assert_eq!(on_mac.root().child(0).len(), 1);
    assert_eq!(on_mac.root().child(0).child(0).path(), "[ROOT]/foo/inner/bar");

    let other = Platform { os: TargetOs::Other, env: TargetEnv::Other };
    assert_eq!(LayoutTree::parse(input, other).root().child(0).len(), 0);
}

#[test]
fn parse_takes_the_first_platform_of_a_list_that_holds() {
    let input = "root\n├── a [target_platform=macos,linux]\n└── b [target_platform=linux,solaris]";
    let tree = LayoutTree::parse(input, linux());
    assert_eq!(tree.root().len(), 2);
    let mac = Platform { os: TargetOs::Macos, env: TargetEnv::Other };
    assert_eq!(LayoutTree::try_parse(input, mac).err(), Some(LayoutError::UnsupportedTarget));
}

#[test]
fn parse_reads_what_follows_a_left_out_directory_as_if_it_were_not_there() {
    let input = "root\n├── gone [target_platform=windows]\n│   └── inside\n└── kept";
    let tree = LayoutTree::parse(input, linux());
    assert_eq!(tree.root().len(), 2);
    assert_eq!(tree.root().child(0).path(), "root/inside");
    assert_eq!(tree.root().child(1).path(), "root/kept");
}

#[test]
fn parse_ignores_a_tag_that_is_not_closed_or_is_empty() {
    let input = "root\n├── a [target_platform=windows\n├── b [target_platform=]\n└── c [target_platform=Windows]";
    let tree = LayoutTree::parse(input, linux());
    assert_eq!(tree.root().len(), 3);
}

#[test]
fn try_parse_reads_what_parse_reads() {
    let input = "root\n├── b\n└── a [target_platform=linux]";
    let tree = LayoutTree::try_parse(input, linux()).unwrap();
    assert_eq!(tree.to_string(), LayoutTree::parse(input, linux()).to_string());
    assert_eq!(tree.to_string(), "root\n├── a\n└── b\n");
}

#[test]
fn parse_rejects_an_empty_text() {
    assert_eq!(LayoutTree::try_parse("", linux()).err(), Some(LayoutError::Empty));
    assert_eq!(LayoutTree::try_parse(" \n\t\r\n ", linux()).err(), Some(LayoutError::Empty));
}

#[test]
fn parse_rejects_a_branch_without_a_name() {
    assert_eq!(LayoutTree::try_parse("root\n├──  \n└── a", linux()).err(), Some(LayoutError::MalformedLine));
    assert_eq!(LayoutTree::try_parse("root\n└── épée", linux()).err(), Some(LayoutError::MalformedLine));
}

#[test]
fn parse_rejects_an_unknown_platform() {
    let input = "root\n└── a [target_platform=solaris]";
    assert_eq!(LayoutTree::try_parse(input, linux()).err(), Some(LayoutError::UnsupportedTarget));
    let empty_name = "root\n└── a [target_platform=windows,,linux]";
    assert_eq!(LayoutTree::try_parse(empty_name, linux()).err(), Some(LayoutError::UnsupportedTarget));
}

#[test]
fn parse_reports_the_first_line_that_cannot_be_read() {
    let input = "root\n├── a [target_platform=solaris]\n└── ";
    assert_eq!(LayoutTree::try_parse(input, linux()).err(), Some(LayoutError::UnsupportedTarget));
}

fn leaf(path: String) -> LayoutTreeNode {
    LayoutTreeNode::new(&path)
}

fn dir(path: String, children: Vec<LayoutTreeNode>) -> LayoutTreeNode {
    LayoutTreeNode::with_children(&path, children)
}

#[test]
fn test_parse_tree() {
    let input = r#"
[ROOT]/foo/build-dir
├── .rustc_info.json
├── CACHEDIR.TAG
├── debug
│   ├── .cargo-lock
│   └── .fingerprint
│       └── foo-[HASH]
│           ├── dep-test-integration-test-foo
│           └── invoked.timestamp
└── tmp
    └── foo.txt
"#;

    let parsed_tree = LayoutTree::parse(input, linux());

    // Build the expected structure manually for comparison.
    let root = "[ROOT]/foo/build-dir";
    let join = |name: &str| format!("{}/{}", root, name);
    let expected_tree = LayoutTree::new(dir(
        root.to_string(),
        vec![
            leaf(join(".rustc_info.json")),
            leaf(join("CACHEDIR.TAG")),
            dir(
                join("debug"),
                vec![
                    leaf(join("debug/.cargo-lock")),
                    dir(
                        join("debug/.fingerprint"),
                        vec![dir(
                            join("debug/.fingerprint/foo-[HASH]"),
                            vec![
                                leaf(join(
                                    "debug/.fingerprint/foo-[HASH]/dep-test-integration-test-foo",
                                )),
                                leaf(join("debug/.fingerprint/foo-[HASH]/invoked.timestamp")),
                            ],
                        )],
                    ),
                ],
            ),
            dir(join("tmp"), vec![leaf(join("tmp/foo.txt"))]),
        ],
    ));

    println!("{:#?}", parsed_tree);
    assert!(parsed_tree.matches_snapshot(&expected_tree, linux()))
}

#[test]
fn target_platform() {
    let input = r#"
[ROOT]/foo
└── inner
    ├── foo [target_platform=linux]
    ├── bar [target_platform=macos]
    ├── baz [target_platform=windows]
    ├── qux [target_platform=windows-msvc]
    └── quux [target_platform=windows-gnu]
"#;

    let parsed_tree = LayoutTree::parse(input, linux());

    // Build the expected structure manually for comparison.
    let root = "[ROOT]/foo";
    let join = |name: &str| format!("{}/{}", root, name);
    let expected_tree = LayoutTree::new(dir(
        root.to_string(),
        vec![dir(join("inner"), vec![leaf(join("inner/foo"))])],
    ));

    println!("{:#?}", parsed_tree);
    println!("{:#?}", expected_tree);
    assert!(parsed_tree.matches_snapshot(&expected_tree, linux()));

    // The same text on the other platforms.
    let gnu = Platform { os: TargetOs::Windows, env: TargetEnv::Gnu };
    let on_gnu = LayoutTree::new(dir(
        root.to_string(),
        vec![dir(join("inner"), vec![leaf(join("inner/baz")), leaf(join("inner/quux"))])],
    ));
    assert!(LayoutTree::parse(input, gnu).matches_snapshot(&on_gnu, gnu));
    assert!(!LayoutTree::parse(input, gnu).matches_snapshot(&expected_tree, gnu));
}

#[test]
fn matches_snapshot_compares_entries_in_any_order() {
    let tree = LayoutTree::new(dir(
        "r".to_string(),
        vec![
            dir("r/b".to_string(), vec![leaf("r/b/1".to_string())]),
            leaf("r/a".to_string()),
        ],
    ));
    let snapshot = LayoutTree::new(dir(
        "other-root".to_string(),
        vec![
            leaf("r/a".to_string()),
            dir("r/b".to_string(), vec![leaf("r/b/1".to_string())]),
        ],
    ));
    assert!(tree.matches_snapshot(&snapshot, linux()));
    assert!(snapshot.matches_snapshot(&tree, linux()));
}

#[test]
fn matches_snapshot_counts_and_descends() {
    let tree = LayoutTree::new(dir(
        "r".to_string(),
        vec![dir("r/b".to_string(), vec![leaf("r/b/1".to_string())]), leaf("r/a".to_string())],
    ));
    let fewer = LayoutTree::new(dir("r".to_string(), vec![leaf("r/a".to_string())]));
    assert!(!tree.matches_snapshot(&fewer, linux()));
    let other_inside = LayoutTree::new(dir(
        "r".to_string(),
        vec![dir("r/b".to_string(), vec![leaf("r/b/2".to_string())]), leaf("r/a".to_string())],
    ));
    assert!(!tree.matches_snapshot(&other_inside, linux()));
    let empty_dir = LayoutTree::new(dir(
        "r".to_string(),
        vec![leaf("r/b".to_string()), leaf("r/a".to_string())],
    ));
    assert!(!tree.matches_snapshot(&empty_dir, linux()));
}

#[test]
fn matches_snapshot_takes_the_candidate_that_fits_below() {
    // Two entries of the snapshot agree with the path; only the second is
    // like the entry in what it holds.
    let tree = LayoutTree::new(dir(
        "r".to_string(),
        vec![
            dir("r/x-1".to_string(), vec![leaf("r/x-1/one".to_string())]),
            dir("r/x-2".to_string(), vec![]),
        ],
    ));
    let snapshot = LayoutTree::new(dir(
        "r".to_string(),
        vec![
            dir("r/x-[..]".to_string(), vec![]),
            dir("r/x-[..]".to_string(), vec![leaf("r/x-[..]/one".to_string())]),
        ],
    ));
    assert!(tree.matches_snapshot(&snapshot, linux()));
}

#[test]
fn matches_snapshot_drops_the_mark_of_executables() {
    let tree = LayoutTree::new(dir("r".to_string(), vec![leaf("r/foo".to_string())]));
    let snapshot = LayoutTree::new(dir("r".to_string(), vec![leaf("r/foo[EXE]".to_string())]));
    assert!(tree.matches_snapshot(&snapshot, linux()));
    let msvc = Platform { os: TargetOs::Windows, env: TargetEnv::Msvc };
    assert!(!tree.matches_snapshot(&snapshot, msvc));
    let verbatim =
        LayoutTree::new(dir("r".to_string(), vec![leaf("\\\\?\\C:\\r\\foo".to_string())]));
    let plain = LayoutTree::new(dir("r".to_string(), vec![leaf("C:/r/foo".to_string())]));
    assert!(verbatim.matches_snapshot(&plain, msvc));
}

#[test]
fn without_ignored_drops_entries_at_any_depth() {
    let tree = LayoutTree::new(dir(
        "r".to_string(),
        vec![
            leaf("r/keep".to_string()),
            dir("r/tmp".to_string(), vec![leaf("r/tmp/keep".to_string())]),
            dir(
                "r/d".to_string(),
                vec![leaf("r/d/x.log".to_string()), leaf("r/d/keep".to_string())],
            ),
        ],
    ));
    let ignored = vec!["r/tmp".to_string(), "[..].log".to_string()];
    let left = tree.without_ignored(&ignored);
    assert_eq!(left.to_string(), "r\n├── d\n│   └── keep\n└── keep\n");
    let root = LayoutTree::new(leaf("r/tmp".to_string())).without_ignored(&ignored);
    assert_eq!(root.root().path(), "r/tmp");
}

#[test]
fn entries_are_joined_with_slashes() {
    use_join("r", "a", "r/a");
    use_join("r/", "a", "r/a");
    use_join("", "a", "a");
    use_join("r", "/abs", "/abs");
    use_join("r", "", "r/");
    use_join("/", "a", "/a");
    let tree = LayoutTree::parse("root/\n└── x", linux());
    assert_eq!(tree.root().child(0).path(), "root/x");
    let tree = LayoutTree::parse("root\n└── /elsewhere", linux());
    assert_eq!(tree.root().child(0).path(), "/elsewhere");
}

fn use_join(parent: &str, name: &str, expected: &str) {
    assert_eq!(build_locks::layout::join_path(parent, name), expected);
    assert_eq!(
        std::path::Path::new(parent).join(name),
        std::path::PathBuf::from(expected),
        "{:?} {:?}",
        parent,
        name
    );
}

#[test]
fn names_are_the_last_part_of_a_path() {
    let name_of = |path: &str| {
        let tree = LayoutTree::new(dir("r".to_string(), vec![leaf(path.to_string())]));
        assert!(tree.can_print(), "{:?}", path);
        let text = tree.to_string();
        text.lines().nth(1).unwrap().trim_start_matches("└── ").to_string()
    };
    for path in ["a", "r/a", "r/a/", "r/a//", "r/a/.", "r/a/./", "/a", "r/.a", "r/a.", "r/..a", "r/..."] {
        let expected = std::path::Path::new(path).file_name().unwrap().to_string_lossy().to_string();
        assert_eq!(name_of(path), expected, "{:?}", path);
    }
}

#[test]
fn entries_without_a_name_cannot_be_printed() {
    for path in ["", "/", "//", ".", "..", "r/..", "r/../", "./.", "/."] {
        assert!(std::path::Path::new(path).file_name().is_none(), "{:?}", path);
        let tree = LayoutTree::new(dir("r".to_string(), vec![leaf(path.to_string())]));
        assert!(!tree.can_print(), "{:?}", path);
        let deep = LayoutTree::new(dir(
            "r".to_string(),
            vec![dir("r/d".to_string(), vec![leaf("r/d/ok".to_string()), leaf(path.to_string())])],
        ));
        assert!(!deep.can_print(), "{:?}", path);
    }
    // The root needs no name.
    assert!(LayoutTree::new(leaf("..".to_string())).can_print());
    assert_eq!(LayoutTree::new(leaf("..".to_string())).to_string(), "..\n");
}
