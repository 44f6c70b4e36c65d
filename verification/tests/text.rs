use build_locks::deps::normalize_deps;
use build_locks::key::{push_requests, rollback, Dep, LockKey, LockRequest};
use build_locks::layout::adjust_canonicalization;
use build_locks::layout_line::{
    find_in, get_line_info, holds_platform, line_spans, read_line, space_char, trim_span,
    LayoutError,
    LineInfo, Platform, Span, TargetEnv, TargetOs,
};
use build_locks::manager::reader_target;
use build_locks::state::{FileOp, LockFile, LockOp, SharedKind, UnitState};
use build_locks::text::{chars_eq, chars_lt, chars_of, str_eq, str_lt};
use build_locks::unit::UnitLock;

fn chars(s: &str) -> Vec<char> {
    s.chars().collect()
}

fn text_of(text: &[char], span: Span) -> String {
    text[span.from..span.to].iter().collect()
}

#[test]
fn characters_of_a_string() {
    assert_eq!(chars_of("a─é"), vec!['a', '─', 'é']);
    assert_eq!(chars_of(""), Vec::<char>::new());
}

#[test]
fn strings_are_ordered_by_code_point() {
    assert!(str_lt("", "a"));
    assert!(!str_lt("", ""));
    assert!(str_lt("abc", "abd"));
    assert!(str_lt("ab", "abc"));
    assert!(!str_lt("abc", "ab"));
    assert!(str_lt("Z", "a"));
    assert!(str_lt("z", "─"));
    assert!(chars_lt(&chars("a"), &chars("b")));
    assert!(!chars_lt(&chars("b"), &chars("a")));
    assert!(str_eq("a─", "a─"));
    assert!(!str_eq("a", "A"));
    assert!(chars_eq(&chars(""), &chars("")));
    assert!(!chars_eq(&chars("a"), &chars("ab")));
}

#[test]
fn white_space_is_what_unicode_says() {
    for c in [' ', '\t', '\n', '\r', '\u{b}', '\u{c}', '\u{85}', '\u{a0}', '\u{2003}', '\u{3000}'] {
        assert!(space_char(c), "{:?}", c);
    }
    for c in ['a', '─', '\u{200b}', '\u{8}', '\u{e}', '\u{1f}'] {
        assert!(!space_char(c), "{:?}", c);
    }
    for code in 0..0x3100u32 {
        if let Some(c) = char::from_u32(code) {
            assert_eq!(space_char(c), c.is_whitespace(), "{:?}", c);
        }
    }
}

#[test]
fn trimming_takes_the_white_space_at_both_ends() {
    let text = chars(" \n a b \t");
    let span = trim_span(&text);
    assert_eq!(text_of(&text, span), "a b");
    assert_eq!(trim_span(&chars(" \n ")), Span { from: 3, to: 3 });
    assert_eq!(trim_span(&chars("")), Span { from: 0, to: 0 });
    assert_eq!(trim_span(&chars("x")), Span { from: 0, to: 1 });
}

#[test]
fn lines_end_with_line_feeds() {
    let lines = |s: &str| -> Vec<String> {
        let text = chars(s);
        let whole = Span { from: 0, to: text.len() };
        line_spans(&text, whole).into_iter().map(|l| text_of(&text, l)).collect()
    };
    assert_eq!(lines("a\nb\r\nc"), vec!["a", "b", "c"]);
    assert_eq!(lines("a\n"), vec!["a"]);
    assert_eq!(lines("a\n\n"), vec!["a", ""]);
    assert_eq!(lines("\n"), vec![""]);
    assert_eq!(lines(""), Vec::<String>::new());
    assert_eq!(lines("a\r"), vec!["a\r"]);
    assert_eq!(lines("a\r\r\nb"), vec!["a\r", "b"]);
    for s in ["a\nb\r\nc", "\r\n\r\nx\r", "one", "\n\n", "a\rb\n"] {
        let expected: Vec<String> = s.lines().map(|l| l.to_string()).collect();
        assert_eq!(lines(s), expected);
    }
}

#[test]
fn finding_a_character_in_a_stretch() {
    let text = chars("ab,cd,ef");
    let whole = Span { from: 0, to: 8 };
    assert_eq!(find_in(&text, ',', whole, 0), 2);
    assert_eq!(find_in(&text, ',', whole, 2), 2);
    assert_eq!(find_in(&text, ',', whole, 3), 5);
    assert_eq!(find_in(&text, ',', whole, 6), 8);
    assert_eq!(find_in(&text, ',', Span { from: 3, to: 5 }, 3), 5);
}

#[test]
fn what_a_line_says() {
    let linux = Platform { os: TargetOs::Linux, env: TargetEnv::Gnu };
    let read = |line: &str| {
        let text = chars(line);
        read_line(&text, line, Span { from: 0, to: text.len() }, linux)
            .map(|info| (info.level, text_of(&text, info.name), info.active))
    };
    assert_eq!(read("├── a"), Ok((1, "a".to_string(), true)));
    assert_eq!(read("│   └── b c"), Ok((2, "b".to_string(), true)));
    assert_eq!(read("│   │       └── deep"), Ok((4, "deep".to_string(), true)));
    assert_eq!(read("plain"), Ok((0, "plain".to_string(), true)));
    assert_eq!(read(""), Ok((0, "".to_string(), true)));
    assert_eq!(read("└──   x"), Ok((1, "x".to_string(), true)));
    assert_eq!(read("└── x [target_platform=macos]"), Ok((1, "x".to_string(), false)));
    assert_eq!(read("└── x [target_platform=macos,linux]"), Ok((1, "x".to_string(), true)));
    assert_eq!(read("└── x [target_platform=bsd]"), Err(LayoutError::UnsupportedTarget));
    assert_eq!(read("└── "), Err(LayoutError::MalformedLine));
    assert_eq!(read("└── ─ "), Err(LayoutError::MalformedLine));
    assert_eq!(read("└── ü"), Err(LayoutError::MalformedLine));
    // Only a stroke with a space behind it ends a branch.
    assert_eq!(read("└──x"), Ok((0, "└──x".to_string(), true)));

    let text = chars("ab\n├── c");
    let second = get_line_info(&text, "ab\n├── c", Span { from: 3, to: 8 }, linux);
    assert_eq!(second, LineInfo { level: 1, name: Span { from: 7, to: 8 }, active: true });
    let same = read_line(&text, "ab\n├── c", Span { from: 3, to: 8 }, linux);
    assert_eq!(same, Ok(second));
}

#[test]
fn lists_of_platforms() {
    let msvc = Platform { os: TargetOs::Windows, env: TargetEnv::Msvc };
    let gnu = Platform { os: TargetOs::Windows, env: TargetEnv::Gnu };
    let linux = Platform { os: TargetOs::Linux, env: TargetEnv::Gnu };
    let mac = Platform { os: TargetOs::Macos, env: TargetEnv::Other };
    assert_eq!(holds_platform(&chars("windows"), msvc), Some(true));
    assert_eq!(holds_platform(&chars("windows"), gnu), Some(true));
    assert_eq!(holds_platform(&chars("windows-msvc"), msvc), Some(true));
    assert_eq!(holds_platform(&chars("windows-msvc"), gnu), Some(false));
    assert_eq!(holds_platform(&chars("windows-gnu"), gnu), Some(true));
    assert_eq!(holds_platform(&chars("windows-gnu"), linux), Some(false));
    assert_eq!(holds_platform(&chars("linux"), linux), Some(true));
    assert_eq!(holds_platform(&chars("macos"), mac), Some(true));
    assert_eq!(holds_platform(&chars("macos,linux"), linux), Some(true));
    assert_eq!(holds_platform(&chars("macos,windows"), linux), Some(false));
    assert_eq!(holds_platform(&chars("linux,what"), linux), Some(true));
    assert_eq!(holds_platform(&chars("what,linux"), linux), None);
    assert_eq!(holds_platform(&chars("macos,"), linux), None);
    assert_eq!(holds_platform(&chars(""), linux), None);
    assert_eq!(holds_platform(&chars("Linux"), linux), None);
}

#[test]
fn verbatim_prefixes_are_stripped() {
    assert_eq!(adjust_canonicalization("\\\\?\\C:\\x"), "C:\\x");
    assert_eq!(adjust_canonicalization("\\\\?\\"), "");
    assert_eq!(adjust_canonicalization("\\\\?"), "\\\\?");
    assert_eq!(adjust_canonicalization("/usr/\\\\?\\"), "/usr/\\\\?\\");
    assert_eq!(adjust_canonicalization(""), "");
}

fn listed(deps: &[(&str, SharedKind)]) -> Vec<Dep> {
    deps.iter().map(|(k, kind)| Dep { key: LockKey::from_unit(k), kind: *kind }).collect()
}

fn shown(deps: &[Dep]) -> Vec<(String, SharedKind)> {
    deps.iter().map(|d| (d.key.to_string(), d.kind)).collect()
}

#[test]
fn dependencies_are_sorted_and_merged() {
    let p = SharedKind::Partial;
    let f = SharedKind::Full;
    let sorted = normalize_deps(&listed(&[("c", p), ("a", f), ("b", p), ("a", p), ("c", f), ("c", p)]));
    assert_eq!(
        shown(&sorted),
        vec![("a".to_string(), f), ("b".to_string(), p), ("c".to_string(), f)]
    );
    assert_eq!(shown(&normalize_deps(&listed(&[]))), vec![]);
    assert_eq!(shown(&normalize_deps(&listed(&[("x", p), ("x", p)]))), vec![("x".to_string(), p)]);
    let again = normalize_deps(&sorted);
    assert_eq!(shown(&again), shown(&sorted));
}

#[test]
fn keys_compare_and_copy() {
    let a = LockKey::from_unit("/b/a");
    assert_eq!(a.clone(), a);
    assert_ne!(a, LockKey::from_unit("/b/A"));
    assert_eq!(a.to_string(), "/b/a");
    assert_eq!(format!("{:?}", a.clone().as_str()), "\"/b/a\"");
}

fn request(key: &str, file: LockFile, op: LockOp) -> LockRequest {
    LockRequest { key: LockKey::from_unit(key), file, op }
}

fn plain(requests: &[LockRequest]) -> Vec<(String, LockFile, LockOp)> {
    requests.iter().map(|r| (r.key.to_string(), r.file, r.op)).collect()
}

#[test]
fn requests_are_addressed_to_their_unit() {
    let mut out = vec![request("x", LockFile::Share, LockOp::Unlock)];
    let ops = vec![
        FileOp { file: LockFile::ActiveBuild, op: LockOp::LockShared },
        FileOp { file: LockFile::Share, op: LockOp::LockShared },
    ];
    push_requests(&mut out, &LockKey::from_unit("u"), &ops);
    assert_eq!(
        plain(&out),
        vec![
            ("x".to_string(), LockFile::Share, LockOp::Unlock),
            ("u".to_string(), LockFile::ActiveBuild, LockOp::LockShared),
            ("u".to_string(), LockFile::Share, LockOp::LockShared),
        ]
    );
}

#[test]
fn rollback_gives_back_what_was_taken() {
    let requests = vec![
        request("u", LockFile::Share, LockOp::LockExclusive),
        request("a", LockFile::ActiveBuild, LockOp::LockShared),
        request("a", LockFile::Share, LockOp::LockShared),
        request("b", LockFile::ActiveBuild, LockOp::Downgrade),
        request("c", LockFile::ActiveBuild, LockOp::Unlock),
        request("d", LockFile::ActiveBuild, LockOp::LockShared),
    ];
    assert_eq!(plain(&rollback(&requests, 0)), vec![]);
    assert_eq!(
        plain(&rollback(&requests, 1)),
        vec![("u".to_string(), LockFile::Share, LockOp::Unlock)]
    );
    assert_eq!(
        plain(&rollback(&requests, 5)),
        vec![
            ("a".to_string(), LockFile::Share, LockOp::Unlock),
            ("a".to_string(), LockFile::ActiveBuild, LockOp::Unlock),
            ("u".to_string(), LockFile::Share, LockOp::Unlock),
        ]
    );
    assert_eq!(rollback(&requests, 6).len(), 4);
}

#[test]
fn the_state_that_serves_a_reader() {
    let p = SharedKind::Partial;
    let f = SharedKind::Full;
    assert_eq!(reader_target(UnitState::Unlocked, p), Some(UnitState::SharedPartial));
    assert_eq!(reader_target(UnitState::Unlocked, f), Some(UnitState::SharedFull));
    assert_eq!(reader_target(UnitState::SharedPartial, p), Some(UnitState::SharedPartial));
    assert_eq!(reader_target(UnitState::SharedPartial, f), Some(UnitState::SharedFull));
    assert_eq!(reader_target(UnitState::SharedFull, p), Some(UnitState::SharedFull));
    assert_eq!(reader_target(UnitState::SharedFull, f), Some(UnitState::SharedFull));
    assert_eq!(reader_target(UnitState::CompilingRlib, p), Some(UnitState::CompilingRlib));
    assert_eq!(reader_target(UnitState::CompilingRlib, f), None);
    assert_eq!(reader_target(UnitState::CompilingRmeta, p), None);
    assert_eq!(reader_target(UnitState::ReadFingerprint, p), None);
    assert_eq!(reader_target(UnitState::ReadFingerprint, f), None);
}

#[test]
fn one_unit_moves_along_the_table() {
    let mut unit = UnitLock::new(LockKey::from_unit("/b/u"));
    assert_eq!(unit.state(), UnitState::Unlocked);
    assert_eq!(unit.holders(), 0);
    assert_eq!(unit.key().as_str(), "/b/u");
    assert_eq!(unit.location().share, "/b/u/share.lock");
    let mut out = Vec::new();
    assert!(!unit.advance(UnitState::CompilingRmeta, &mut out));
    assert_eq!(unit.state(), UnitState::Unlocked);
    assert!(out.is_empty());
    assert!(unit.advance(UnitState::ReadFingerprint, &mut out));
    assert!(unit.advance(UnitState::ReadFingerprint, &mut out));
    assert!(unit.advance(UnitState::CompilingRmeta, &mut out));
    assert!(unit.advance(UnitState::CompilingRlib, &mut out));
    assert!(!unit.advance(UnitState::SharedFull, &mut out));
    assert!(unit.advance(UnitState::Unlocked, &mut out));
    assert_eq!(
        plain(&out),
        vec![
            ("/b/u".to_string(), LockFile::ActiveBuild, LockOp::LockExclusive),
            ("/b/u".to_string(), LockFile::Share, LockOp::LockExclusive),
            ("/b/u".to_string(), LockFile::ActiveBuild, LockOp::Downgrade),
            ("/b/u".to_string(), LockFile::Share, LockOp::Unlock),
            ("/b/u".to_string(), LockFile::ActiveBuild, LockOp::Unlock),
        ]
    );
}
