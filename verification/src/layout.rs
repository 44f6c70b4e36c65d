//! Trees of paths, read from and written as the text that the `tree`
//! command prints, to compare what a build left on disk with what was
//! expected.

use vstd::pervasive::unreached;
use vstd::prelude::*;
use vstd::string::StringExecFns;
use vstd::string::StrSliceExecFns;
use crate::compare::{contains_lines, match_contains, placeholders, redact, redacted_text};
use crate::layout_line::{
    line_spans, line_view, lines_of, read_line, trim_span, trimmed, LayoutError, LineInfo,
    LineView, Platform, TargetOs,
};
use crate::text::{chars_lt, chars_of, lex_lt};

verus! {

/// A file or a directory, by its path, with what the directory holds.
#[derive(Debug)]
pub struct LayoutTreeNode {
    path: String,
    children: Vec<LayoutTreeNode>,
}

/// A tree of paths under one root.
#[derive(Debug)]
pub struct LayoutTree {
    root: LayoutTreeNode,
}

/// What a node stands for.
pub struct NodeView {
    pub path: Seq<char>,
    pub children: Seq<NodeView>,
}

/// What a list of nodes stands for.
pub open spec fn nodes_view(nodes: Seq<LayoutTreeNode>) -> Seq<NodeView>
    decreases nodes,
{
    if nodes.len() == 0 {
        Seq::empty()
    } else {
        nodes_view(nodes.drop_last()).push(nodes.last().view())
    }
}

impl LayoutTreeNode {
    /// The path of the node and the views of its children.
    pub closed spec fn view(&self) -> NodeView
        decreases self,
    {
        NodeView { path: self.path@, children: nodes_view(self.children@) }
    }

    /// A node without children.
    pub fn new(path: &str) -> (node: LayoutTreeNode)
        ensures
            node@ == (NodeView { path: path@, children: Seq::empty() }),
    {
        LayoutTreeNode { path: String::from_str(path), children: Vec::new() }
    }

    /// A node with the given children.
    pub fn with_children(path: &str, children: Vec<LayoutTreeNode>) -> (node: LayoutTreeNode)
        ensures
            node@ == (NodeView { path: path@, children: nodes_view(children@) }),
    {
        LayoutTreeNode { path: String::from_str(path), children }
    }

    /// Adds a child behind the children that the node has.
    pub fn push(&mut self, child: LayoutTreeNode)
        ensures
            final(self)@ == (NodeView {
                path: old(self)@.path,
                children: old(self)@.children.push(child@),
            }),
    {
        let ghost before = self.children@;
        self.children.push(child);
        assert(self.children@.drop_last() =~= before);
    }

    /// The path of the node.
    pub fn path(&self) -> (p: &str)
        ensures
            p@ == self@.path,
    {
        self.path.as_str()
    }

    /// The number of children of the node.
    pub fn len(&self) -> (n: usize)
        ensures
            n == self@.children.len(),
    {
        proof {
            lemma_nodes_view(self.children@);
        }
        self.children.len()
    }

    /// The child at place `i`.
    pub fn child(&self, i: usize) -> (c: &LayoutTreeNode)
        requires
            i < self@.children.len(),
        ensures
            c@ == self@.children[i as int],
    {
        proof {
            lemma_nodes_view(self.children@);
        }
        &self.children[i]
    }
}

/// The view of a list of nodes holds the view of each node, in order.
pub proof fn lemma_nodes_view(nodes: Seq<LayoutTreeNode>)
    ensures
        nodes_view(nodes).len() == nodes.len(),
        forall|i: int|
            0 <= i < nodes.len() ==> nodes_view(nodes)[i] == (#[trigger] nodes[i]).view(),
    decreases nodes.len(),
{
    if nodes.len() > 0 {
        lemma_nodes_view(nodes.drop_last());
        assert forall|i: int| 0 <= i < nodes.len() implies nodes_view(nodes)[i] == (
        #[trigger] nodes[i]).view() by {
            if i < nodes.len() - 1 {
                assert(nodes.drop_last()[i] == nodes[i]);
            }
        }
    }
}

/// The path of an entry named `name` in the directory `parent`, with
/// slashes between the parts of a path: a name that starts with a slash is
/// a path of its own and takes the place of the directory; behind an empty
/// directory and behind one that ends with a slash the name follows at
/// once; else a slash stands between the two.
pub open spec fn join(parent: Seq<char>, name: Seq<char>) -> Seq<char> {
    if name.len() > 0 && name[0] == '/' {
        name
    } else if parent.len() == 0 || parent.last() == '/' {
        parent + name
    } else {
        parent + seq!['/'] + name
    }
}

/// The path of an entry named `name` in the directory `parent`.
pub fn join_path(parent: &str, name: &str) -> (path: String)
    ensures
        path@ == join(parent@, name@),
{
    let n = chars_of(name);
    let p = chars_of(parent);
    if n.len() > 0 && n[0] == '/' {
        String::from_str(name)
    } else if p.len() == 0 || p[p.len() - 1] == '/' {
        String::from_str(parent).concat(name)
    } else {
        proof {
            reveal_strlit("/");
            assert("/"@ =~= seq!['/']);
        }
        String::from_str(parent).concat("/").concat(name)
    }
}

/// The entries that the lines from `pos` on describe below a directory
/// `parent`, and the index of the first line that is none of them.
///
/// A line belongs to the directory while it lies at the level `floor` or
/// deeper. An entry that does not exist on the platform is left out, and
/// what follows it is read as if the line were not there. An entry is a
/// directory, and holds the lines that follow it, when the next line lies
/// deeper than its own.
pub open spec fn entries(lines: Seq<LineView>, pos: int, floor: nat, parent: Seq<char>) -> (
    Seq<NodeView>,
    int,
)
    decreases lines.len() - pos,
{
    if pos < 0 || pos >= lines.len() || lines[pos].level < floor {
        (Seq::empty(), pos)
    } else if !lines[pos].active {
        entries(lines, pos + 1, floor, parent)
    } else {
        let path = join(parent, lines[pos].name);
        let inner = if pos + 1 < lines.len() && lines[pos + 1].level > lines[pos].level {
            entries(lines, pos + 1, lines[pos].level + 1, path)
        } else {
            (Seq::empty(), pos + 1)
        };
        if inner.1 <= pos || inner.1 > lines.len() {
            (Seq::empty(), pos)
        } else {
            let rest = entries(lines, inner.1, floor, parent);
            (seq![NodeView { path, children: inner.0 }] + rest.0, rest.1)
        }
    }
}

/// The first reason for which one of the lines from `from` on cannot be
/// read, if there is one.
pub open spec fn first_error(lines: Seq<Seq<char>>, from: int, p: Platform) -> Option<LayoutError>
    decreases lines.len() - from,
{
    if from < 0 || from >= lines.len() {
        None
    } else {
        match line_view(lines[from], p) {
            Err(e) => Some(e),
            Ok(_) => first_error(lines, from + 1, p),
        }
    }
}

/// What the lines say, each on its own.
pub open spec fn line_views(lines: Seq<Seq<char>>, p: Platform) -> Seq<LineView> {
    Seq::new(lines.len(), |i: int| line_view(lines[i], p).unwrap())
}

/// The tree that a text describes for the platform `p`, or why it
/// describes none.
///
/// The white space around the text does not count. The first line is the
/// path of the root; each line below it is one entry.
pub open spec fn parsed(input: Seq<char>, p: Platform) -> Result<NodeView, LayoutError> {
    let lines = lines_of(trimmed(input));
    if lines.len() == 0 {
        Err(LayoutError::Empty)
    } else {
        match first_error(lines, 1, p) {
            Some(e) => Err(e),
            None => Ok(
                NodeView {
                    path: lines[0],
                    children: entries(line_views(lines.skip(1), p), 0, 0, lines[0]).0,
                },
            ),
        }
    }
}

/// What a read line stands for, with its name taken from the text.
pub open spec fn info_view(text: Seq<char>, info: LineInfo) -> LineView {
    LineView {
        level: info.level as nat,
        name: text.subrange(info.name.from as int, info.name.to as int),
        active: info.active,
    }
}

/// Whether `info` is what the line says.
pub open spec fn reads(text: Seq<char>, line: Seq<char>, info: LineInfo, p: Platform) -> bool {
    &&& line_view(line, p) is Ok
    &&& info_view(text, info) == line_view(line, p).unwrap()
    &&& info.name.from <= info.name.to <= text.len()
    &&& info.level < usize::MAX
}

/// What the read lines stand for.
pub open spec fn info_views(text: Seq<char>, infos: Seq<LineInfo>) -> Seq<LineView> {
    Seq::new(infos.len(), |i: int| info_view(text, infos[i]))
}

impl LayoutTree {
    /// The tree under `root`.
    pub fn new(root: LayoutTreeNode) -> (tree: LayoutTree)
        ensures
            tree@ == root@,
    {
        LayoutTree { root }
    }

    /// The root of the tree.
    pub closed spec fn view(&self) -> NodeView {
        self.root@
    }

    /// The root of the tree.
    pub fn root(&self) -> (r: &LayoutTreeNode)
        ensures
            r@ == self@,
    {
        &self.root
    }

    /// Reads a tree from a text in the form that the `tree` command
    /// prints, for the platform `platform`. The text has to describe a
    /// tree: it holds more than white space, every branch is followed by a
    /// name, and no tag names a platform that is not known. `try_parse`
    /// reads any text.
    pub fn parse(input: &str, platform: Platform) -> (tree: LayoutTree)
        requires
            parsed(input@, platform) is Ok,
        ensures
            tree@ == parsed(input@, platform).unwrap(),
    {
        match LayoutTree::try_parse(input, platform) {
            Ok(tree) => tree,
            Err(_) => unreached(),
        }
    }

    /// Reads a tree from a text in the form that the `tree` command
    /// prints, for the platform `platform`, or says why the text describes
    /// none.
    pub fn try_parse(input: &str, platform: Platform) -> (r: Result<LayoutTree, LayoutError>)
        ensures
            match parsed(input@, platform) {
                Ok(tree) => r matches Ok(t) && t@ == tree,
                Err(e) => r matches Err(x) && x == e,
            },
    {
        let text = chars_of(input);
        let span = trim_span(&text);
        let spans = line_spans(&text, span);
        let ghost lines = lines_of(trimmed(input@));
        if spans.len() == 0 {
            return Err(LayoutError::Empty);
        }
        let mut infos: Vec<LineInfo> = Vec::new();
        let mut i: usize = 1;
        while i < spans.len()
            invariant
                text@ == input@,
                lines == lines_of(trimmed(input@)),
                1 <= i <= spans.len(),
                spans@.len() == lines.len(),
                forall|j: int|
                    0 <= j < spans@.len() ==> (#[trigger] spans@[j]).from <= spans@[j].to
                        <= text.len() && text@.subrange(
                        spans@[j].from as int,
                        spans@[j].to as int,
                    ) == lines[j],
                infos@.len() == i - 1,
                first_error(lines, 1, platform) == first_error(lines, i as int, platform),
                forall|j: int|
                    0 <= j < infos@.len() ==> #[trigger] reads(
                        text@,
                        lines[j + 1],
                        infos@[j],
                        platform,
                    ),
            decreases spans.len() - i,
        {
            let s = spans[i];
            let ghost read = infos@;
            assert(text@.subrange(s.from as int, s.to as int) == lines[i as int]);
            let info = match read_line(&text, input, s, platform) {
                Err(e) => {
                    return Err(e);
                },
                Ok(info) => info,
            };
            infos.push(info);
            assert(reads(text@, lines[i as int], info, platform));
            assert forall|j: int| 0 <= j < infos@.len() implies #[trigger] reads(
                text@,
                lines[j + 1],
                infos@[j],
                platform,
            ) by {
                if j < read.len() {
                    assert(reads(text@, lines[j + 1], read[j], platform));
                }
            }
            i += 1;
        }
        let first = spans[0];
        let root_path = input.substring_char(first.from, first.to);
        proof {
            assert forall|j: int| 0 <= j < infos@.len() implies info_views(text@, infos@)[j]
                == line_views(lines.skip(1), platform)[j] by {
                assert(reads(text@, lines[j + 1], infos@[j], platform));
            }
            assert(info_views(text@, infos@) =~= line_views(lines.skip(1), platform));
            assert forall|j: int| 0 <= j < infos@.len() implies (#[trigger] infos@[j]).name.from
                <= infos@[j].name.to <= text.len() && infos@[j].level < usize::MAX by {
                assert(reads(text@, lines[j + 1], infos@[j], platform));
            }
        }
        let (children, _) = parse_level(&text, input, &infos, 0, 0, root_path);
        Ok(LayoutTree { root: LayoutTreeNode { path: String::from_str(root_path), children } })
    }
}

/// Reads the entries that the lines from `pos` on describe below the
/// directory `parent`.
fn parse_level(
    text: &Vec<char>,
    source: &str,
    infos: &Vec<LineInfo>,
    pos: usize,
    floor: usize,
    parent: &str,
) -> (r: (Vec<LayoutTreeNode>, usize))
    requires
        text@ == source@,
        pos <= infos.len(),
        forall|j: int|
            0 <= j < infos@.len() ==> (#[trigger] infos@[j]).name.from <= infos@[j].name.to
                <= text.len() && infos@[j].level < usize::MAX,
    ensures
        pos <= r.1 <= infos.len(),
        nodes_view(r.0@) == entries(info_views(text@, infos@), pos as int, floor as nat, parent@).0,
        r.1 == entries(info_views(text@, infos@), pos as int, floor as nat, parent@).1,
    decreases infos.len() - pos,
{
    let ghost lines = info_views(text@, infos@);
    let mut children: Vec<LayoutTreeNode> = Vec::new();
    let mut cur: usize = pos;
    assert(nodes_view(children@) + entries(lines, pos as int, floor as nat, parent@).0 =~= entries(
        lines,
        pos as int,
        floor as nat,
        parent@,
    ).0);
    while cur < infos.len() && infos[cur].level >= floor
        invariant
            text@ == source@,
            lines == info_views(text@, infos@),
            pos <= cur <= infos.len(),
            forall|j: int|
                0 <= j < infos@.len() ==> (#[trigger] infos@[j]).name.from <= infos@[j].name.to
                    <= text.len() && infos@[j].level < usize::MAX,
            entries(lines, pos as int, floor as nat, parent@).0 == nodes_view(children@) + entries(
                lines,
                cur as int,
                floor as nat,
                parent@,
            ).0,
            entries(lines, pos as int, floor as nat, parent@).1 == entries(
                lines,
                cur as int,
                floor as nat,
                parent@,
            ).1,
        decreases infos.len() - cur,
    {
        let info = infos[cur];
        let ghost before = nodes_view(children@);
        let ghost nodes = children@;
        assert(lines[cur as int] == info_view(text@, info));
        if !info.active {
            cur += 1;
        } else {
            let name = source.substring_char(info.name.from, info.name.to);
            let path = join_path(parent, name);
            assert(path@ == join(parent@, lines[cur as int].name));
            let is_dir = cur + 1 < infos.len() && infos[cur + 1].level > info.level;
            if is_dir {
                assert(lines[cur + 1] == info_view(text@, infos@[cur + 1]));
                let (kids, next) = parse_level(
                    text,
                    source,
                    infos,
                    cur + 1,
                    info.level + 1,
                    path.as_str(),
                );
                let node = LayoutTreeNode { path, children: kids };
                children.push(node);
                assert(children@.drop_last() =~= nodes);
                assert(before + (seq![node@] + entries(
                    lines,
                    next as int,
                    floor as nat,
                    parent@,
                ).0) =~= before.push(node@) + entries(lines, next as int, floor as nat, parent@).0);
                cur = next;
            } else {
                if cur + 1 < infos.len() {
                    assert(lines[cur + 1] == info_view(text@, infos@[cur + 1]));
                }
                let node = LayoutTreeNode { path, children: Vec::new() };
                assert(node@.children =~= Seq::<NodeView>::empty());
                children.push(node);
                assert(children@.drop_last() =~= nodes);
                assert(before + (seq![node@] + entries(
                    lines,
                    cur + 1,
                    floor as nat,
                    parent@,
                ).0) =~= before.push(node@) + entries(lines, cur + 1, floor as nat, parent@).0);
                cur += 1;
            }
        }
    }
    proof {
        if cur < infos.len() {
            assert(lines[cur as int] == info_view(text@, infos@[cur as int]));
        }
        assert(entries(lines, cur as int, floor as nat, parent@).0 =~= Seq::<NodeView>::empty());
        assert(nodes_view(children@) + Seq::<NodeView>::empty() =~= nodes_view(children@));
    }
    (children, cur)
}

/// The index of the last slash before `n`, or -1 where there is none.
pub open spec fn last_slash(path: Seq<char>, n: int) -> int
    decreases n,
{
    if n <= 0 {
        -1
    } else if n <= path.len() && path[n - 1] == '/' {
        n - 1
    } else {
        last_slash(path, n - 1)
    }
}

/// Where the last part of the first `n` characters of a path ends: before
/// the slashes at the end, and before a part at the end that is a single
/// dot, which stands for the directory before it.
pub open spec fn name_end(path: Seq<char>, n: int) -> int
    decreases n,
{
    if 0 < n <= path.len() && path[n - 1] == '/' {
        name_end(path, n - 1)
    } else if 2 <= n <= path.len() && path[n - 1] == '.' && path[n - 2] == '/' {
        name_end(path, n - 1)
    } else {
        n
    }
}

/// The name of an entry: the last part of its path, which is what stands
/// between the last slash and the end of the path, slashes and single dots
/// at the end left aside.
pub open spec fn file_name(path: Seq<char>) -> Seq<char> {
    let end = name_end(path, path.len() as int);
    if 0 <= end <= path.len() {
        path.subrange(last_slash(path, end) + 1, end)
    } else {
        path
    }
}

/// The names of the entries.
pub open spec fn child_names(children: Seq<NodeView>) -> Seq<Seq<char>> {
    Seq::new(children.len(), |i: int| file_name(children[i].path))
}

/// The order `order` with the entry `x` put behind the last entry whose
/// name does not come after its own.
pub open spec fn insert_by_name(order: Seq<usize>, names: Seq<Seq<char>>, x: usize) -> Seq<usize>
    decreases order.len(),
{
    if order.len() == 0 {
        seq![x]
    } else if lex_lt(names[x as int], names[order.last() as int]) {
        insert_by_name(order.drop_last(), names, x).push(order.last())
    } else {
        order.push(x)
    }
}

/// The first `n` entries in the order of their names. Entries of one name
/// keep the order in which they stand.
pub open spec fn name_order(names: Seq<Seq<char>>, n: nat) -> Seq<usize>
    decreases n,
{
    if n == 0 {
        Seq::empty()
    } else {
        insert_by_name(name_order(names, (n - 1) as nat), names, (n - 1) as usize)
    }
}

/// The branch that opens the line of an entry: one form for the last
/// entry of a directory, another for those before it.
pub open spec fn connector(last: bool) -> Seq<char> {
    if last {
        seq!['\u{2514}', '\u{2500}', '\u{2500}', ' ']
    } else {
        seq!['\u{251c}', '\u{2500}', '\u{2500}', ' ']
    }
}

/// What the lines below an entry are indented by: a rule that leads on to
/// the next entry of the directory, or nothing but spaces below the last.
pub open spec fn indent(last: bool) -> Seq<char> {
    if last {
        seq![' ', ' ', ' ', ' ']
    } else {
        seq!['\u{2502}', ' ', ' ', ' ']
    }
}

/// The lines of the entries from place `k` of `order` on, each followed
/// by the lines of what it holds, all behind `prefix`.
pub open spec fn rendered(
    children: Seq<NodeView>,
    order: Seq<usize>,
    k: int,
    prefix: Seq<char>,
) -> Seq<char>
    decreases children, order.len() - k,
{
    if k < 0 || k >= order.len() || order[k] >= children.len() {
        Seq::empty()
    } else {
        let child = children[order[k] as int];
        let last = k == order.len() - 1;
        let below = if child.children.len() > 0 {
            rendered(
                child.children,
                name_order(child_names(child.children), child.children.len()),
                0,
                prefix + indent(last),
            )
        } else {
            Seq::empty()
        };
        prefix + connector(last) + file_name(child.path) + seq!['\n'] + below + rendered(
            children,
            order,
            k + 1,
            prefix,
        )
    }
}

/// The path without the prefix `\\?\` that marks a verbatim path.
pub open spec fn strip_verbatim(path: Seq<char>) -> Seq<char> {
    if path.len() >= 4 && path.subrange(0, 4) == seq!['\\', '\\', '?', '\\'] {
        path.skip(4)
    } else {
        path
    }
}

/// The text of a tree: the path of the root, and below it the entries in
/// the order of their names.
pub open spec fn rendered_tree(root: NodeView) -> Seq<char> {
    strip_verbatim(root.path) + seq!['\n'] + rendered(
        root.children,
        name_order(child_names(root.children), root.children.len()),
        0,
        Seq::empty(),
    )
}

/// The path without the prefix that marks a verbatim path.
pub fn adjust_canonicalization(path: &str) -> (r: String)
    ensures
        r@ == strip_verbatim(path@),
{
    let chars = chars_of(path);
    if chars.len() >= 4 && chars[0] == '\\' && chars[1] == '\\' && chars[2] == '?' && chars[3]
        == '\\' {
        assert(path@.subrange(0, 4) =~= seq!['\\', '\\', '?', '\\']);
        assert(path@.skip(4) =~= path@.subrange(4, path@.len() as int));
        String::from_str(path.substring_char(4, chars.len()))
    } else {
        proof {
            if path@.len() >= 4 && path@.subrange(0, 4) == seq!['\\', '\\', '?', '\\'] {
                assert(path@.subrange(0, 4)[0] == path@[0]);
                assert(path@.subrange(0, 4)[1] == path@[1]);
                assert(path@.subrange(0, 4)[2] == path@[2]);
                assert(path@.subrange(0, 4)[3] == path@[3]);
            }
        }
        String::from_str(path)
    }
}

/// The name of the entry with the given path, as a string and as
/// characters.
fn file_name_of<'a>(path: &'a str) -> (r: (&'a str, Vec<char>))
    ensures
        r.0@ == file_name(path@),
        r.1@ == file_name(path@),
{
    let chars = chars_of(path);
    let mut end: usize = chars.len();
    while end > 0 && (chars[end - 1] == '/' || (end >= 2 && chars[end - 1] == '.' && chars[end
        - 2] == '/'))
        invariant
            end <= chars.len(),
            chars@ == path@,
            name_end(path@, path@.len() as int) == name_end(path@, end as int),
        decreases end,
    {
        end -= 1;
    }
    assert(name_end(path@, end as int) == end);
    let mut n: usize = end;
    while n > 0 && chars[n - 1] != '/'
        invariant
            n <= end <= chars.len(),
            chars@ == path@,
            last_slash(path@, end as int) == last_slash(path@, n as int),
        decreases n,
    {
        n -= 1;
    }
    assert(last_slash(path@, n as int) == n - 1);
    let mut name: Vec<char> = Vec::new();
    let mut i: usize = n;
    while i < end
        invariant
            n <= i <= end <= chars.len(),
            chars@ == path@,
            name@ == path@.subrange(n as int, i as int),
        decreases end - i,
    {
        name.push(chars[i]);
        assert(name@ =~= path@.subrange(n as int, i + 1));
        i += 1;
    }
    (path.substring_char(n, end), name)
}

/// The places of the entries in the order of their names.
fn sorted_places(names: &Vec<Vec<char>>) -> (order: Vec<usize>)
    ensures
        order@ == name_order(names.deep_view(), names.len() as nat),
        order@.len() == names.len(),
        forall|k: int| 0 <= k < order@.len() ==> order@[k] < names.len(),
{
    let ghost all = names.deep_view();
    let mut order: Vec<usize> = Vec::new();
    let mut x: usize = 0;
    while x < names.len()
        invariant
            x <= names.len(),
            all == names.deep_view(),
            order@ == name_order(all, x as nat),
            order@.len() == x,
            forall|k: int| 0 <= k < order@.len() ==> order@[k] < x,
        decreases names.len() - x,
    {
        let ghost before = order@;
        let mut p: usize = order.len();
        assert(before.take(p as int) =~= before);
        assert(insert_by_name(before, all, x) + before.skip(p as int) =~= insert_by_name(
            before,
            all,
            x,
        ));
        while p > 0 && chars_lt(names[x].as_slice(), names[order[p - 1]].as_slice())
            invariant
                p <= order.len(),
                x < names.len(),
                order@ == before,
                all == names.deep_view(),
                forall|k: int| 0 <= k < order@.len() ==> order@[k] < x,
                insert_by_name(before, all, x) == insert_by_name(before.take(p as int), all, x)
                    + before.skip(p as int),
            decreases p,
        {
            proof {
                let front = before.take(p as int);
                assert(front.last() == before[p - 1]);
                assert(all[x as int] =~= names@[x as int]@);
                assert(all[before[p - 1] as int] =~= names@[before[p - 1] as int]@);
                assert(front.drop_last() =~= before.take(p - 1));
                assert(insert_by_name(front.drop_last(), all, x).push(front.last()) + before.skip(
                    p as int,
                ) =~= insert_by_name(before.take(p - 1), all, x) + before.skip(p - 1));
            }
            p -= 1;
        }
        proof {
            let front = before.take(p as int);
            if p > 0 {
                assert(front.last() == before[p - 1]);
                assert(all[x as int] =~= names@[x as int]@);
                assert(all[before[p - 1] as int] =~= names@[before[p - 1] as int]@);
            }
            assert(insert_by_name(front, all, x) =~= front.push(x));
            assert(front.push(x) + before.skip(p as int) =~= before.insert(p as int, x));
        }
        order.insert(p, x);
        x += 1;
    }
    order
}

/// Appends to `out` the lines of what the node holds, behind `prefix`.
fn format_children(out: &mut String, node: &LayoutTreeNode, prefix: &str)
    ensures
        final(out)@ == old(out)@ + rendered(
            node@.children,
            name_order(child_names(node@.children), node@.children.len()),
            0,
            prefix@,
        ),
    decreases node,
{
    let ghost children = node@.children;
    let mut names: Vec<Vec<char>> = Vec::new();
    let mut i: usize = 0;
    proof {
        lemma_nodes_view(node.children@);
    }
    while i < node.children.len()
        invariant
            i <= node.children.len(),
            children == node@.children,
            children.len() == node.children@.len(),
            forall|j: int| 0 <= j < children.len() ==> children[j] == (
            #[trigger] node.children@[j]).view(),
            names@.len() == i,
            forall|j: int| 0 <= j < i ==> (#[trigger] names@[j])@ == file_name(children[j].path),
        decreases node.children.len() - i,
    {
        let (_, name) = file_name_of(node.children[i].path());
        names.push(name);
        i += 1;
    }
    assert forall|j: int| 0 <= j < names@.len() implies names.deep_view()[j] == child_names(
        children,
    )[j] by {
        assert(names@[j].deep_view() =~= names@[j]@);
    }
    assert(names.deep_view() =~= child_names(children));
    let order = sorted_places(&names);
    let ghost start = out@;
    let mut k: usize = 0;
    while k < order.len()
        invariant
            k <= order.len(),
            children == node@.children,
            children.len() == node.children@.len(),
            forall|j: int| 0 <= j < children.len() ==> children[j] == (
            #[trigger] node.children@[j]).view(),
            order@ == name_order(child_names(children), children.len()),
            order@.len() == children.len(),
            forall|j: int| 0 <= j < order@.len() ==> order@[j] < children.len(),
            start + rendered(children, order@, 0, prefix@) == out@ + rendered(
                children,
                order@,
                k as int,
                prefix@,
            ),
        decreases order.len() - k,
    {
        let child = &node.children[order[k]];
        let last = k == order.len() - 1;
        let ghost before = out@;
        proof {
            reveal_strlit("\u{2514}\u{2500}\u{2500} ");
            reveal_strlit("\u{251c}\u{2500}\u{2500} ");
            reveal_strlit("    ");
            reveal_strlit("\u{2502}   ");
            reveal_strlit("\n");
            assert("\u{2514}\u{2500}\u{2500} "@ =~= connector(true));
            assert("\u{251c}\u{2500}\u{2500} "@ =~= connector(false));
            assert("    "@ =~= indent(true));
            assert("\u{2502}   "@ =~= indent(false));
            assert("\n"@ =~= seq!['\n']);
            assert(children[order@[k as int] as int] == child@);
        }
        let (name, _) = file_name_of(child.path());
        out.append(prefix);
        out.append(
            if last {
                "\u{2514}\u{2500}\u{2500} "
            } else {
                "\u{251c}\u{2500}\u{2500} "
            },
        );
        out.append(name);
        out.append("\n");
        if child.len() > 0 {
            let deeper = String::from_str(prefix).concat(
                if last {
                    "    "
                } else {
                    "\u{2502}   "
                },
            );
            format_children(out, child, deeper.as_str());
        }
        proof {
            let below = if child@.children.len() > 0 {
                rendered(
                    child@.children,
                    name_order(child_names(child@.children), child@.children.len()),
                    0,
                    prefix@ + indent(last),
                )
            } else {
                Seq::empty()
            };
            assert(out@ =~= before + (prefix@ + connector(last) + file_name(child@.path)
                + seq!['\n'] + below));
            assert(before + rendered(children, order@, k as int, prefix@) =~= out@ + rendered(
                children,
                order@,
                k + 1,
                prefix@,
            ));
        }
        k += 1;
    }
    assert(rendered(children, order@, k as int, prefix@) =~= Seq::<char>::empty());
    assert(out@ + Seq::<char>::empty() =~= out@);
}

/// Whether the path has a last part that names an entry: one that is not
/// empty and is neither a single dot nor two dots.
pub open spec fn has_name(path: Seq<char>) -> bool {
    let name = file_name(path);
    name.len() > 0 && name != seq!['.'] && name != seq!['.', '.']
}

/// Whether every entry, at any depth, has a name under which it can be
/// written.
pub open spec fn named(nodes: Seq<NodeView>) -> bool
    decreases nodes,
{
    nodes.len() == 0 || (named(nodes.drop_last()) && has_name(nodes.last().path) && named(
        nodes.last().children,
    ))
}

/// Whether every entry below the node, at any depth, has a name.
fn all_named(node: &LayoutTreeNode) -> (r: bool)
    ensures
        r == named(node@.children),
    decreases node,
{
    let ghost views = node@.children;
    proof {
        lemma_nodes_view(node.children@);
        assert(views.take(0) =~= Seq::<NodeView>::empty());
    }
    let mut i: usize = 0;
    while i < node.children.len()
        invariant
            i <= node.children.len(),
            views == node@.children,
            views.len() == node.children@.len(),
            forall|j: int| 0 <= j < views.len() ==> views[j] == (
            #[trigger] node.children@[j]).view(),
            named(views.take(i as int)),
        decreases node.children.len() - i,
    {
        let child = &node.children[i];
        let (_, name) = file_name_of(child.path());
        let ghost upto = views.take(i + 1);
        proof {
            assert(upto.drop_last() =~= views.take(i as int));
            assert(upto.last() == child@);
        }
        let dots = name.len() <= 2 && (name.len() == 0 || name[0] == '.') && (name.len() <= 1
            || name[1] == '.');
        proof {
            if name.len() == 1 && name[0] == '.' {
                assert(name@ =~= seq!['.']);
            }
            if name.len() == 2 && name[0] == '.' && name[1] == '.' {
                assert(name@ =~= seq!['.', '.']);
            }
            if !dots && name.len() <= 2 && name.len() > 0 {
                assert(name@ != seq!['.'] && name@ != seq!['.', '.']) by {
                    if name@ == seq!['.'] {
                        assert(name@[0] == '.');
                    }
                    if name@ == seq!['.', '.'] {
                        assert(name@[0] == '.' && name@[1] == '.');
                    }
                }
            }
        }
        if dots || !all_named(child) {
            proof {
                if named(views) {
                    lemma_named_prefix(views, i + 1);
                }
            }
            return false;
        }
        i += 1;
    }
    assert(views.take(i as int) =~= views);
    true
}

/// Where all entries are named, so are the first `n` of them.
proof fn lemma_named_prefix(nodes: Seq<NodeView>, n: int)
    requires
        0 <= n <= nodes.len(),
        named(nodes),
    ensures
        named(nodes.take(n)),
    decreases nodes.len(),
{
    if n < nodes.len() {
        lemma_named_prefix(nodes.drop_last(), n);
        assert(nodes.drop_last().take(n) =~= nodes.take(n));
    } else {
        assert(nodes.take(n) =~= nodes);
    }
}

impl LayoutTree {
    /// Whether the tree can be written as text: every entry has a name.
    pub fn can_print(&self) -> (r: bool)
        ensures
            r == named(self@.children),
    {
        all_named(&self.root)
    }

    /// The tree as text, in the form that the `tree` command prints: the
    /// path of the root on the first line, then one line for each entry
    /// under its name, the entries of each directory in the order of their
    /// names. Every entry has to have a name.
    pub fn to_string(&self) -> (s: String)
        requires
            named(self@.children),
        ensures
            s@ == rendered_tree(self@),
    {
        proof {
            reveal_strlit("\n");
            assert("\n"@ =~= seq!['\n']);
            reveal_strlit("");
            assert(""@ =~= Seq::<char>::empty());
        }
        let mut out = adjust_canonicalization(self.root.path());
        out.append("\n");
        format_children(&mut out, &self.root, "");
        out
    }
}

/// The placeholder behind the name of an executable. It stands for
/// nothing on platforms whose executables have no suffix.
pub open spec fn exe_mark() -> Seq<char> {
    seq!['[', 'E', 'X', 'E', ']']
}

/// Whether the path ends with the placeholder of executables.
pub open spec fn ends_with_exe_mark(path: Seq<char>) -> bool {
    path.len() >= 5 && path.skip(path.len() - 5) == exe_mark()
}

/// The path as it is compared on the platform `p`: without the
/// placeholder of executables at its end, except on Windows, and without
/// the prefix of verbatim paths.
pub open spec fn compared_path(path: Seq<char>, p: Platform) -> Seq<char> {
    strip_verbatim(
        if p.os != TargetOs::Windows && ends_with_exe_mark(path) {
            path.take(path.len() - 5)
        } else {
            path
        },
    )
}

/// Whether the paths of an entry of the snapshot and of an entry of the
/// tree agree: the path of the snapshot, which may hold wildcards, is
/// found in the path of the tree.
pub open spec fn paths_agree(snapshot: Seq<char>, actual: Seq<char>, p: Platform) -> bool {
    contains_lines(compared_path(snapshot, p), compared_path(actual, p))
}

/// Whether the node is as the snapshot says: both hold the same number of
/// entries, and each entry of the node has an entry of the snapshot whose
/// path agrees with its own and which it is like in turn. The paths of the
/// two nodes themselves are not compared.
pub open spec fn node_matches(node: NodeView, snapshot: NodeView, p: Platform) -> bool
    decreases node, 0nat,
{
    &&& snapshot.children.len() == node.children.len()
    &&& forall|i: int|
        0 <= i < node.children.len() ==> has_match(
            #[trigger] node.children[i],
            snapshot.children,
            p,
        )
}

/// Whether one of the candidates is an entry of the snapshot that the entry
/// matches.
pub open spec fn has_match(entry: NodeView, candidates: Seq<NodeView>, p: Platform) -> bool
    decreases entry, 2nat,
{
    exists|j: int| 0 <= j < candidates.len() && entry_matches(entry, #[trigger] candidates[j], p)
}

/// Whether the entry is as the entry of the snapshot says.
pub open spec fn entry_matches(entry: NodeView, snapshot: NodeView, p: Platform) -> bool
    decreases entry, 1nat,
{
    paths_agree(snapshot.path, entry.path, p) && node_matches(entry, snapshot, p)
}

/// The path as it is compared on the platform `p`.
fn compared(path: &str, p: Platform) -> (r: String)
    ensures
        r@ == compared_path(path@, p),
{
    let chars = chars_of(path);
    let n = chars.len();
    let windows = match p.os {
        TargetOs::Windows => true,
        _ => false,
    };
    if !windows && n >= 5 && chars[n - 5] == '[' && chars[n - 4] == 'E' && chars[n - 3] == 'X'
        && chars[n - 2] == 'E' && chars[n - 1] == ']' {
        assert(path@.skip(n - 5) =~= exe_mark());
        assert(path@.take(n - 5) =~= path@.subrange(0, n - 5));
        adjust_canonicalization(path.substring_char(0, n - 5))
    } else {
        proof {
            if n >= 5 && path@.skip(n - 5) == exe_mark() {
                assert(path@.skip(n - 5)[0] == path@[n - 5]);
                assert(path@.skip(n - 5)[1] == path@[n - 4]);
                assert(path@.skip(n - 5)[2] == path@[n - 3]);
                assert(path@.skip(n - 5)[3] == path@[n - 2]);
                assert(path@.skip(n - 5)[4] == path@[n - 1]);
            }
        }
        adjust_canonicalization(path)
    }
}

/// Whether the node is as the snapshot says.
fn matches(node: &LayoutTreeNode, snapshot: &LayoutTreeNode, p: Platform) -> (r: bool)
    ensures
        r == node_matches(node@, snapshot@, p),
    decreases node,
{
    proof {
        lemma_nodes_view(node.children@);
        lemma_nodes_view(snapshot.children@);
    }
    if snapshot.children.len() != node.children.len() {
        return false;
    }
    let mut i: usize = 0;
    while i < node.children.len()
        invariant
            i <= node.children.len(),
            node@.children.len() == node.children@.len(),
            snapshot@.children.len() == snapshot.children@.len(),
            snapshot.children@.len() == node.children@.len(),
            forall|x: int|
                0 <= x < node.children@.len() ==> node@.children[x] == (
                #[trigger] node.children@[x]).view(),
            forall|x: int|
                0 <= x < snapshot.children@.len() ==> snapshot@.children[x] == (
                #[trigger] snapshot.children@[x]).view(),
            forall|x: int|
                0 <= x < i ==> has_match(#[trigger] node@.children[x], snapshot@.children, p),
        decreases node.children.len() - i,
    {
        let child = &node.children[i];
        let own = compared(child.path(), p);
        let mut found = false;
        let mut j: usize = 0;
        while j < snapshot.children.len() && !found
            invariant
                j <= snapshot.children.len(),
                i < node.children.len(),
                child == &node.children@[i as int],
                own@ == compared_path(child@.path, p),
                node@.children.len() == node.children@.len(),
                snapshot@.children.len() == snapshot.children@.len(),
                node@.children[i as int] == child@,
                forall|x: int|
                    0 <= x < snapshot.children@.len() ==> snapshot@.children[x] == (
                    #[trigger] snapshot.children@[x]).view(),
                found ==> has_match(child@, snapshot@.children, p),
                !found ==> forall|y: int|
                    0 <= y < j ==> !entry_matches(child@, #[trigger] snapshot@.children[y], p),
            decreases snapshot.children.len() - j + if found { 0int } else { 1int },
        {
            let candidate = &snapshot.children[j];
            let theirs = compared(candidate.path(), p);
            assert(snapshot@.children[j as int] == candidate@);
            if match_contains(theirs.as_str(), own.as_str()) && matches(child, candidate, p) {
                assert(entry_matches(child@, snapshot@.children[j as int], p));
                found = true;
            } else {
                j += 1;
            }
        }
        if !found {
            assert(!has_match(node@.children[i as int], snapshot@.children, p));
            return false;
        }
        i += 1;
    }
    true
}

impl LayoutTree {
    /// Whether the tree is as the snapshot says, on the platform
    /// `platform`: directory by directory, the two hold the same number of
    /// entries, and each entry of the tree has one in the snapshot whose
    /// path, which may hold wildcards, agrees with its own and whose
    /// entries it matches in turn.
    pub fn matches_snapshot(&self, snapshot: &LayoutTree, platform: Platform) -> (r: bool)
        ensures
            r == node_matches(self@, snapshot@, platform),
    {
        matches(&self.root, &snapshot.root, platform)
    }
}

/// Whether one of the patterns is found in the path.
pub open spec fn ignored_by(path: Seq<char>, ignored: Seq<Seq<char>>) -> bool {
    exists|k: int| 0 <= k < ignored.len() && contains_lines(#[trigger] ignored[k], path)
}

/// The entries without those whose path one of the patterns is found in,
/// and without what such an entry holds; the same goes for what the
/// entries that stay hold.
pub open spec fn kept_entries(nodes: Seq<NodeView>, ignored: Seq<Seq<char>>) -> Seq<NodeView>
    decreases nodes,
{
    if nodes.len() == 0 {
        Seq::empty()
    } else {
        let front = kept_entries(nodes.drop_last(), ignored);
        let last = nodes.last();
        if ignored_by(last.path, ignored) {
            front
        } else {
            front.push(
                NodeView { path: last.path, children: kept_entries(last.children, ignored) },
            )
        }
    }
}

/// Whether one of the patterns is found in the path.
fn is_ignored(path: &str, ignored: &Vec<String>) -> (r: bool)
    ensures
        r == ignored_by(path@, ignored.deep_view()),
{
    let mut k: usize = 0;
    while k < ignored.len()
        invariant
            k <= ignored.len(),
            forall|x: int| 0 <= x < k ==> !contains_lines(#[trigger] ignored.deep_view()[x], path@),
        decreases ignored.len() - k,
    {
        assert(ignored.deep_view()[k as int] == ignored@[k as int]@);
        if match_contains(ignored[k].as_str(), path) {
            return true;
        }
        k += 1;
    }
    false
}

impl LayoutTreeNode {
    /// The node without the entries, at any depth, whose path one of the
    /// patterns of `ignored` is found in. The path of the node itself is
    /// not looked at.
    pub fn without_ignored(self, ignored: &Vec<String>) -> (r: LayoutTreeNode)
        ensures
            r@ == (NodeView {
                path: self@.path,
                children: kept_entries(self@.children, ignored.deep_view()),
            }),
        decreases self,
    {
        let ghost all = self.children@;
        let ghost views = self@.children;
        let ghost whole = self;
        proof {
            lemma_nodes_view(all);
            assert forall|x: int| 0 <= x < all.len() implies decreases_to!(whole =>
                #[trigger] all[x]) by {
                assert(decreases_to!(whole => whole.children));
                assert(decreases_to!(whole.children => whole.children@));
                assert(decreases_to!(whole.children@ => whole.children@[x]));
            }
        }
        let LayoutTreeNode { path, children } = self;
        let mut kept: Vec<LayoutTreeNode> = Vec::new();
        assert(views.take(0) =~= Seq::<NodeView>::empty());
        for child in it: children
            invariant
                it.seq() == all,
                whole == self,
                forall|x: int| 0 <= x < all.len() ==> decreases_to!(whole => #[trigger] all[x]),
                views == nodes_view(all),
                views.len() == all.len(),
                forall|x: int| 0 <= x < all.len() ==> views[x] == (#[trigger] all[x]).view(),
                nodes_view(kept@) == kept_entries(
                    views.take(it.index() as int),
                    ignored.deep_view(),
                ),
        {
            let ghost k = it.index() as int;
            let ghost before = kept@;
            proof {
                assert(views.take(k + 1).drop_last() =~= views.take(k));
                assert(views.take(k + 1).last() == child@);
                assert(child == all[k]);
            }
            if !is_ignored(child.path(), ignored) {
                let inner = child.without_ignored(ignored);
                kept.push(inner);
                assert(kept@.drop_last() =~= before);
            }
        }
        assert(views.take(all.len() as int) =~= views);
        LayoutTreeNode { path, children: kept }
    }
}

impl LayoutTree {
    /// The tree without the entries whose path one of the patterns of
    /// `ignored` is found in.
    pub fn without_ignored(self, ignored: &Vec<String>) -> (r: LayoutTree)
        ensures
            r@ == (NodeView {
                path: self@.path,
                children: kept_entries(self@.children, ignored.deep_view()),
            }),
    {
        LayoutTree { root: self.root.without_ignored(ignored) }
    }
}

/// The entries with every path, at any depth, redacted.
pub open spec fn redacted_nodes(nodes: Seq<NodeView>, redactions: snapbox::Redactions) -> Seq<
    NodeView,
>
    decreases nodes,
{
    if nodes.len() == 0 {
        Seq::empty()
    } else {
        redacted_nodes(nodes.drop_last(), redactions).push(
            redacted_node(nodes.last(), redactions),
        )
    }
}

/// The node with its own path and every path below it redacted.
pub open spec fn redacted_node(node: NodeView, redactions: snapbox::Redactions) -> NodeView
    decreases node,
{
    NodeView {
        path: redacted_text(redactions, node.path),
        children: redacted_nodes(node.children, redactions),
    }
}

impl LayoutTreeNode {
    /// The node with every path, its own and those below it, redacted:
    /// values that change from run to run give way to their placeholders.
    /// Redactions that hold no placeholder leave the node as it is.
    pub fn redacted(self, redactions: &snapbox::Redactions) -> (r: LayoutTreeNode)
        ensures
            r@ == redacted_node(self@, *redactions),
            placeholders(*redactions) == Set::<Seq<char>>::empty() ==> r@ == self@,
        decreases self,
    {
        let ghost all = self.children@;
        let ghost views = self@.children;
        let ghost whole = self;
        proof {
            lemma_nodes_view(all);
            assert forall|x: int| 0 <= x < all.len() implies decreases_to!(whole =>
                #[trigger] all[x]) by {
                assert(decreases_to!(whole => whole.children));
                assert(decreases_to!(whole.children => whole.children@));
                assert(decreases_to!(whole.children@ => whole.children@[x]));
            }
            assert(views.take(0) =~= Seq::<NodeView>::empty());
        }
        let LayoutTreeNode { path, children } = self;
        let mut done: Vec<LayoutTreeNode> = Vec::new();
        for child in it: children
            invariant
                it.seq() == all,
                whole == self,
                forall|x: int| 0 <= x < all.len() ==> decreases_to!(whole => #[trigger] all[x]),
                views == nodes_view(all),
                views.len() == all.len(),
                forall|x: int| 0 <= x < all.len() ==> views[x] == (#[trigger] all[x]).view(),
                done@.len() == it.index(),
                nodes_view(done@) == redacted_nodes(views.take(it.index() as int), *redactions),
                placeholders(*redactions) == Set::<Seq<char>>::empty() ==> forall|x: int|
                    0 <= x < done@.len() ==> (#[trigger] done@[x]).view() == views[x],
        {
            let ghost k = it.index() as int;
            let ghost before = done@;
            assert(child == all[k]);
            proof {
                assert(views.take(k + 1).drop_last() =~= views.take(k));
                assert(views.take(k + 1).last() == child@);
            }
            let inner = child.redacted(redactions);
            done.push(inner);
            assert(done@.drop_last() =~= before);
            proof {
                if placeholders(*redactions) == Set::<Seq<char>>::empty() {
                    assert forall|x: int| 0 <= x < done@.len() implies (
                    #[trigger] done@[x]).view() == views[x] by {
                        if x < k {
                            assert(done@[x] == before[x]);
                        }
                    }
                }
            }
        }
        assert(views.take(all.len() as int) =~= views);
        let r = LayoutTreeNode { path: redact(redactions, path.as_str()), children: done };
        proof {
            lemma_nodes_view(done@);
            if placeholders(*redactions) == Set::<Seq<char>>::empty() {
                assert forall|i: int| 0 <= i < done@.len() implies nodes_view(done@)[i]
                    == views[i] by {
                    assert(done@[i].view() == views[i]);
                }
                assert(nodes_view(done@) =~= views);
            }
        }
        r
    }
}

impl LayoutTree {
    /// The tree with every path redacted. Redactions that hold no
    /// placeholder leave the tree as it is.
    pub fn redacted(self, redactions: &snapbox::Redactions) -> (r: LayoutTree)
        ensures
            r@ == redacted_node(self@, *redactions),
            placeholders(*redactions) == Set::<Seq<char>>::empty() ==> r@ == self@,
    {
        LayoutTree { root: self.root.redacted(redactions) }
    }
}

} // verus!
