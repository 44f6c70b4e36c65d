//! Building a layout tree from what a walk through a directory found.
//!
//! The walk lists every directory after everything below it, each with the
//! entries it holds. The tree is put together on the way: a directory
//! takes the finished nodes of the directories it holds, and waits in
//! turn for the directory that holds it.

use vstd::prelude::*;
use crate::layout::{
    kept_entries, nodes_view, redacted_node, LayoutTree, LayoutTreeNode, NodeView,
};
use crate::text::str_eq;

verus! {

/// What an entry of a directory is.
#[derive(Clone, Copy, Debug, PartialEq, Eq, Structural)]
pub enum EntryKind {
    Dir,
    File,
    /// Neither a directory nor a file.
    Other,
}

/// An entry of a directory, by its path.
#[derive(Debug)]
pub struct ListedEntry {
    pub path: String,
    pub kind: EntryKind,
}

/// A directory and the entries it holds.
#[derive(Debug)]
pub struct DirListing {
    pub path: String,
    pub entries: Vec<ListedEntry>,
}

/// What a `ListedEntry` stands for.
pub struct EntryView {
    pub path: Seq<char>,
    pub kind: EntryKind,
}

/// What a `DirListing` stands for.
pub struct ListingView {
    pub path: Seq<char>,
    pub entries: Seq<EntryView>,
}

impl View for ListedEntry {
    type V = EntryView;

    open spec fn view(&self) -> EntryView {
        EntryView { path: self.path@, kind: self.kind }
    }
}

impl DeepView for ListedEntry {
    type V = EntryView;

    open spec fn deep_view(&self) -> EntryView {
        self@
    }
}

impl View for DirListing {
    type V = ListingView;

    open spec fn view(&self) -> ListingView {
        ListingView { path: self.path@, entries: self.entries.deep_view() }
    }
}

impl DeepView for DirListing {
    type V = ListingView;

    open spec fn deep_view(&self) -> ListingView {
        self@
    }
}

/// The finished nodes that wait for the directory that holds them, by
/// path.
pub type Finished = Map<Seq<char>, NodeView>;

/// What a directory gathers from its entries, taken in order, and the
/// finished nodes that are left: a file gives a node of its own, a
/// directory gives its finished node, which is then no longer waiting, and
/// anything else gives nothing, as does a directory that has no finished
/// node.
pub open spec fn gathered(finished: Finished, entries: Seq<EntryView>) -> (Seq<NodeView>, Finished)
    decreases entries.len(),
{
    if entries.len() == 0 {
        (Seq::empty(), finished)
    } else {
        let before = gathered(finished, entries.drop_last());
        let e = entries.last();
        match e.kind {
            EntryKind::Dir => if before.1.contains_key(e.path) {
                (before.0.push(before.1[e.path]), before.1.remove(e.path))
            } else {
                before
            },
            EntryKind::File => (
                before.0.push(NodeView { path: e.path, children: Seq::empty() }),
                before.1,
            ),
            EntryKind::Other => before,
        }
    }
}

/// The finished nodes that wait after the listings were taken in order. A
/// directory that is listed again takes the place of its earlier node.
pub open spec fn finished_after(listings: Seq<ListingView>) -> Finished
    decreases listings.len(),
{
    if listings.len() == 0 {
        Map::empty()
    } else {
        let l = listings.last();
        let g = gathered(finished_after(listings.drop_last()), l.entries);
        g.1.insert(l.path, NodeView { path: l.path, children: g.0 })
    }
}

/// The tree under `root` that the listings describe, if the node of `root`
/// is among those that wait in the end.
pub open spec fn tree_of(root: Seq<char>, listings: Seq<ListingView>) -> Option<NodeView> {
    let finished = finished_after(listings);
    if finished.contains_key(root) {
        Some(finished[root])
    } else {
        None
    }
}

/// Whether no two nodes have the same path.
spec fn distinct(nodes: Seq<LayoutTreeNode>) -> bool {
    forall|i: int, j: int|
        0 <= i < nodes.len() && 0 <= j < nodes.len() && nodes[i]@.path == nodes[j]@.path ==> i == j
}

/// Whether a node with the path `k` is listed.
spec fn listed(nodes: Seq<LayoutTreeNode>, k: Seq<char>) -> bool {
    exists|i: int| 0 <= i < nodes.len() && nodes[i]@.path == k
}

/// The place of the node with the path `k`.
spec fn slot(nodes: Seq<LayoutTreeNode>, k: Seq<char>) -> int {
    choose|i: int| 0 <= i < nodes.len() && nodes[i]@.path == k
}

/// The nodes by path.
spec fn by_path(nodes: Seq<LayoutTreeNode>) -> Finished {
    Map::new(|k: Seq<char>| listed(nodes, k), |k: Seq<char>| nodes[slot(nodes, k)]@)
}

/// A node added for a path that had none.
proof fn lemma_push(nodes: Seq<LayoutTreeNode>, n: LayoutTreeNode)
    requires
        distinct(nodes),
        !listed(nodes, n@.path),
    ensures
        distinct(nodes.push(n)),
        by_path(nodes.push(n)) == by_path(nodes).insert(n@.path, n@),
{
    let after = nodes.push(n);
    assert forall|k: Seq<char>| listed(after, k) <==> (k == n@.path || listed(nodes, k)) by {
        if listed(nodes, k) {
            let i = slot(nodes, k);
            assert(after[i]@.path == k);
        }
        if k == n@.path {
            assert(after[nodes.len() as int]@.path == k);
        }
        if listed(after, k) {
            let i = slot(after, k);
            if i < nodes.len() {
                assert(nodes[i]@.path == k);
            }
        }
    }
    assert forall|k: Seq<char>| listed(after, k) implies #[trigger] by_path(after)[k] == by_path(
        nodes,
    ).insert(n@.path, n@)[k] by {
        let i = slot(after, k);
        if k != n@.path {
            assert(nodes[i]@.path == k);
            assert(slot(nodes, k) == i);
        }
    }
    assert(by_path(after) =~= by_path(nodes).insert(n@.path, n@));
}

/// A node taken out.
proof fn lemma_remove(nodes: Seq<LayoutTreeNode>, i: int)
    requires
        distinct(nodes),
        0 <= i < nodes.len(),
    ensures
        distinct(nodes.remove(i)),
        !listed(nodes.remove(i), nodes[i]@.path),
        by_path(nodes).contains_key(nodes[i]@.path),
        by_path(nodes)[nodes[i]@.path] == nodes[i]@,
        by_path(nodes.remove(i)) == by_path(nodes).remove(nodes[i]@.path),
{
    let after = nodes.remove(i);
    let gone = nodes[i]@.path;
    assert(listed(nodes, gone));
    assert(slot(nodes, gone) == i);
    assert forall|a: int| 0 <= a < after.len() implies after[a] == nodes[if a < i {
        a
    } else {
        a + 1
    }] by {}
    assert forall|k: Seq<char>| listed(after, k) <==> (k != gone && listed(nodes, k)) by {
        if listed(after, k) {
            let a = slot(after, k);
            let b = if a < i {
                a
            } else {
                a + 1
            };
            assert(nodes[b]@.path == k);
        }
        if k != gone && listed(nodes, k) {
            let b = slot(nodes, k);
            let a = if b < i {
                b
            } else {
                b - 1
            };
            assert(after[a]@.path == k);
        }
    }
    assert forall|k: Seq<char>| listed(after, k) implies #[trigger] by_path(after)[k] == by_path(
        nodes,
    )[k] by {
        let a = slot(after, k);
        let b = if a < i {
            a
        } else {
            a + 1
        };
        assert(nodes[b]@.path == k);
        assert(slot(nodes, k) == b);
    }
    assert(by_path(after) =~= by_path(nodes).remove(gone));
}

/// Takes the node with the given path out of the finished nodes, if there
/// is one.
fn take_node(finished: &mut Vec<LayoutTreeNode>, path: &str) -> (r: Option<LayoutTreeNode>)
    requires
        distinct(old(finished)@),
    ensures
        distinct(final(finished)@),
        by_path(final(finished)@) == by_path(old(finished)@).remove(path@),
        match r {
            Some(n) => by_path(old(finished)@).contains_key(path@) && n@ == by_path(
                old(finished)@,
            )[path@],
            None => !by_path(old(finished)@).contains_key(path@),
        },
{
    let mut i: usize = 0;
    while i < finished.len()
        invariant
            i <= finished@.len(),
            *finished == *old(finished),
            distinct(finished@),
            forall|j: int| 0 <= j < i ==> finished@[j]@.path != path@,
        decreases finished@.len() - i,
    {
        if str_eq(finished[i].path(), path) {
            proof {
                lemma_remove(finished@, i as int);
            }
            let node = finished.remove(i);
            return Some(node);
        }
        i += 1;
    }
    assert(by_path(finished@).remove(path@) =~= by_path(finished@));
    None
}

/// Gathers the children of a directory from its entries.
fn gather(finished: &mut Vec<LayoutTreeNode>, entries: &Vec<ListedEntry>) -> (children: Vec<
    LayoutTreeNode,
>)
    requires
        distinct(old(finished)@),
    ensures
        distinct(final(finished)@),
        nodes_view(children@) == gathered(by_path(old(finished)@), entries.deep_view()).0,
        by_path(final(finished)@) == gathered(by_path(old(finished)@), entries.deep_view()).1,
{
    let ghost start = by_path(finished@);
    let ghost all = entries.deep_view();
    let mut children: Vec<LayoutTreeNode> = Vec::new();
    let mut i: usize = 0;
    assert(all.take(0) =~= Seq::<EntryView>::empty());
    while i < entries.len()
        invariant
            i <= entries.len(),
            all == entries.deep_view(),
            distinct(finished@),
            nodes_view(children@) == gathered(start, all.take(i as int)).0,
            by_path(finished@) == gathered(start, all.take(i as int)).1,
        decreases entries.len() - i,
    {
        let entry = &entries[i];
        let ghost had = children@;
        proof {
            assert(all.take(i + 1).drop_last() =~= all.take(i as int));
            assert(all.take(i + 1).last() == entry@);
        }
        match entry.kind {
            EntryKind::Dir => {
                match take_node(finished, entry.path.as_str()) {
                    Some(node) => {
                        children.push(node);
                        assert(children@.drop_last() =~= had);
                    },
                    None => {
                        assert(by_path(finished@) =~= gathered(start, all.take(i as int)).1);
                    },
                }
            },
            EntryKind::File => {
                children.push(LayoutTreeNode::new(entry.path.as_str()));
                assert(children@.drop_last() =~= had);
            },
            EntryKind::Other => {},
        }
        i += 1;
    }
    assert(all.take(i as int) =~= all);
    children
}

impl LayoutTree {
    /// The tree under `root` that a walk found, from the listings of the
    /// directories in the order of the walk, which lists a directory after
    /// what it holds. `None` where the walk did not come upon `root`, or
    /// `root` was taken into another directory.
    pub fn from_listings(root: &str, listings: &Vec<DirListing>) -> (r: Option<LayoutTree>)
        ensures
            match tree_of(root@, listings.deep_view()) {
                Some(tree) => r matches Some(t) && t@ == tree,
                None => r is None,
            },
    {
        let ghost all = listings.deep_view();
        let mut finished: Vec<LayoutTreeNode> = Vec::new();
        let mut i: usize = 0;
        assert(all.take(0) =~= Seq::<ListingView>::empty());
        assert(by_path(finished@) =~= Map::<Seq<char>, NodeView>::empty());
        while i < listings.len()
            invariant
                i <= listings.len(),
                all == listings.deep_view(),
                distinct(finished@),
                by_path(finished@) == finished_after(all.take(i as int)),
            decreases listings.len() - i,
        {
            let listing = &listings[i];
            proof {
                assert(all.take(i + 1).drop_last() =~= all.take(i as int));
                assert(all.take(i + 1).last() == listing@);
            }
            let children = gather(&mut finished, &listing.entries);
            let node = LayoutTreeNode::with_children(listing.path.as_str(), children);
            let ghost left = by_path(finished@);
            let _ = take_node(&mut finished, listing.path.as_str());
            proof {
                assert(!listed(finished@, node@.path)) by {
                    if listed(finished@, node@.path) {
                        assert(by_path(finished@).contains_key(node@.path));
                    }
                }
                lemma_push(finished@, node);
                assert(left.remove(node@.path).insert(node@.path, node@) =~= left.insert(
                    node@.path,
                    node@,
                ));
            }
            finished.push(node);
            i += 1;
        }
        assert(all.take(i as int) =~= all);
        match take_node(&mut finished, root) {
            Some(node) => Some(LayoutTree::new(node)),
            None => None,
        }
    }
}


/// The tree that a walk leaves to be compared: the tree under `root` that
/// the listings describe, with every path redacted, and then without the
/// entries whose redacted path one of the patterns of `ignored` is found in.
pub open spec fn walked_tree(
    root: Seq<char>,
    listings: Seq<ListingView>,
    redactions: snapbox::Redactions,
    ignored: Seq<Seq<char>>,
) -> Option<NodeView> {
    match tree_of(root, listings) {
        None => None,
        Some(tree) => {
            let redacted = redacted_node(tree, redactions);
            Some(
                NodeView {
                    path: redacted.path,
                    children: kept_entries(redacted.children, ignored),
                },
            )
        },
    }
}

impl LayoutTree {
    /// The tree to compare with a snapshot, from what a walk below `root`
    /// found: built from the listings, its paths redacted, the ignored
    /// entries left out. The root of the tree is the redacted `root`.
    /// `None` where the walk did not come upon `root`.
    pub fn from_walk(
        root: &str,
        listings: &Vec<DirListing>,
        redactions: &snapbox::Redactions,
        ignored: &Vec<String>,
    ) -> (r: Option<LayoutTree>)
        ensures
            match walked_tree(root@, listings.deep_view(), *redactions, ignored.deep_view()) {
                Some(tree) => r matches Some(t) && t@ == tree,
                None => r is None,
            },
            r matches Some(t) ==> t@.path == crate::compare::redacted_text(*redactions, root@),
    {
        match LayoutTree::from_listings(root, listings) {
            None => None,
            Some(tree) => {
                proof {
                    lemma_root_path(listings.deep_view(), root@);
                }
                Some(tree.redacted(redactions).without_ignored(ignored))
            },
        }
    }
}

/// The node that waits under a path has that path.
pub proof fn lemma_root_path(listings: Seq<ListingView>, root: Seq<char>)
    ensures
        finished_after(listings).contains_key(root) ==> finished_after(listings)[root].path
            == root,
    decreases listings.len(),
{
    if listings.len() > 0 {
        let before = finished_after(listings.drop_last());
        lemma_root_path(listings.drop_last(), root);
        lemma_gathered_keeps(before, listings.last().entries, root);
    }
}

/// Gathering takes nodes away and changes none.
proof fn lemma_gathered_keeps(finished: Finished, entries: Seq<EntryView>, k: Seq<char>)
    ensures
        gathered(finished, entries).1.contains_key(k) ==> finished.contains_key(k) && gathered(
            finished,
            entries,
        ).1[k] == finished[k],
    decreases entries.len(),
{
    if entries.len() > 0 {
        lemma_gathered_keeps(finished, entries.drop_last(), k);
    }
}

} // verus!
