//! The dependencies of one compilation, brought into the order in which
//! their locks are taken.
//!
//! A caller may list its dependencies in any order and may list one more
//! than once. Locks are taken in ascending order of the unit key, each unit
//! once, in the strongest kind that was asked for it.

use vstd::prelude::*;
use crate::key::{Dep, DepView};
use crate::state::SharedKind;
use crate::text::{lemma_lex_asymmetric, lemma_lex_total, lemma_lex_transitive, lex_lt};

verus! {

/// The stronger of two kinds of shared hold.
pub open spec fn stronger(a: SharedKind, b: SharedKind) -> SharedKind {
    if a == SharedKind::Full || b == SharedKind::Full {
        SharedKind::Full
    } else {
        SharedKind::Partial
    }
}

/// The stronger of an earlier request, if there was one, and a new one.
pub open spec fn strengthen(earlier: Option<SharedKind>, kind: SharedKind) -> SharedKind {
    match earlier {
        Some(e) => stronger(e, kind),
        None => kind,
    }
}

/// The kind of hold that the list asks for the unit `k`: the strongest
/// among its entries for `k`, and `None` where it has no entry for `k`.
pub open spec fn need(deps: Seq<DepView>, k: Seq<char>) -> Option<SharedKind>
    decreases deps.len(),
{
    if deps.len() == 0 {
        None
    } else {
        let rest = need(deps.drop_first(), k);
        if deps[0].key == k {
            Some(strengthen(rest, deps[0].kind))
        } else {
            rest
        }
    }
}

/// Whether the keys ascend strictly from each entry to the next.
pub open spec fn ascending(s: Seq<DepView>) -> bool
    decreases s.len(),
{
    s.len() <= 1 || (lex_lt(s[0].key, s[1].key) && ascending(s.drop_first()))
}

/// An ascending list with `d` put in its place: merged into the entry of
/// the same unit where there is one, in the stronger of the two kinds.
pub open spec fn insert_dep(s: Seq<DepView>, d: DepView) -> Seq<DepView>
    decreases s.len(),
{
    if s.len() == 0 {
        seq![d]
    } else if s[0].key == d.key {
        seq![DepView { key: d.key, kind: stronger(s[0].kind, d.kind) }] + s.drop_first()
    } else if lex_lt(d.key, s[0].key) {
        seq![d] + s
    } else {
        seq![s[0]] + insert_dep(s.drop_first(), d)
    }
}

/// The dependencies in the order in which their locks are taken: ascending
/// by key, each unit once.
pub open spec fn sorted_deps(deps: Seq<DepView>) -> Seq<DepView>
    decreases deps.len(),
{
    if deps.len() == 0 {
        Seq::empty()
    } else {
        insert_dep(sorted_deps(deps.drop_last()), deps.last())
    }
}

/// A list asks for a unit exactly when it has an entry for it, and asks for
/// a full hold exactly when one of those entries does.
pub proof fn lemma_need_entries(deps: Seq<DepView>, k: Seq<char>)
    ensures
        need(deps, k) is Some <==> exists|i: int| 0 <= i < deps.len() && deps[i].key == k,
        need(deps, k) == Some(SharedKind::Full) <==> exists|i: int|
            0 <= i < deps.len() && deps[i].key == k && deps[i].kind == SharedKind::Full,
    decreases deps.len(),
{
    if deps.len() > 0 {
        let rest = deps.drop_first();
        lemma_need_entries(rest, k);
        if need(rest, k) is Some {
            let i = choose|i: int| 0 <= i < rest.len() && rest[i].key == k;
            assert(deps[i + 1].key == k);
        }
        if need(rest, k) == Some(SharedKind::Full) {
            let i = choose|i: int|
                0 <= i < rest.len() && rest[i].key == k && rest[i].kind == SharedKind::Full;
            assert(deps[i + 1].key == k && deps[i + 1].kind == SharedKind::Full);
        }
        if exists|i: int| 0 <= i < deps.len() && deps[i].key == k {
            let i = choose|i: int| 0 <= i < deps.len() && deps[i].key == k;
            if i > 0 {
                assert(rest[i - 1].key == k);
            }
        }
        if exists|i: int|
            0 <= i < deps.len() && deps[i].key == k && deps[i].kind == SharedKind::Full {
            let i = choose|i: int|
                0 <= i < deps.len() && deps[i].key == k && deps[i].kind == SharedKind::Full;
            if i > 0 {
                assert(rest[i - 1].key == k && rest[i - 1].kind == SharedKind::Full);
            }
        }
    }
}

/// In an ascending list every entry comes before every later one, so no
/// unit occurs twice.
pub proof fn lemma_ascending_pairs(s: Seq<DepView>, i: int, j: int)
    requires
        ascending(s),
        0 <= i < j < s.len(),
    ensures
        lex_lt(s[i].key, s[j].key),
        s[i].key != s[j].key,
    decreases s.len(),
{
    if i == 0 {
        if j > 1 {
            lemma_ascending_pairs(s.drop_first(), 0, j - 1);
            lemma_lex_transitive(s[0].key, s[1].key, s[j].key);
        }
    } else {
        lemma_ascending_pairs(s.drop_first(), i - 1, j - 1);
    }
    lemma_lex_asymmetric(s[i].key, s[j].key);
}

/// What an ascending list asks for after `d` was put in its place.
proof fn lemma_insert_dep(s: Seq<DepView>, d: DepView, k: Seq<char>)
    requires
        ascending(s),
    ensures
        ascending(insert_dep(s, d)),
        insert_dep(s, d).len() >= 1,
        insert_dep(s, d)[0].key == d.key || (s.len() > 0 && insert_dep(s, d)[0].key == s[0].key
            && lex_lt(s[0].key, d.key)),
        need(insert_dep(s, d), k) == if k == d.key {
            Some(strengthen(need(s, k), d.kind))
        } else {
            need(s, k)
        },
    decreases s.len(),
{
    let r = insert_dep(s, d);
    if s.len() == 0 {
        assert(r.drop_first() =~= s);
    } else if s[0].key == d.key {
        assert(r.drop_first() =~= s.drop_first());
        if s.len() > 1 {
            assert(r[1] == s[1]);
        }
    } else if lex_lt(d.key, s[0].key) {
        assert(r.drop_first() =~= s);
    } else {
        let tail = insert_dep(s.drop_first(), d);
        lemma_insert_dep(s.drop_first(), d, k);
        assert(r.drop_first() =~= tail);
        lemma_lex_total(d.key, s[0].key);
        assert(r[1] == tail[0]);
    }
}

/// Putting the last entry in its place asks for what the whole list asks.
proof fn lemma_need_push(deps: Seq<DepView>, d: DepView, k: Seq<char>)
    ensures
        need(deps.push(d), k) == if k == d.key {
            Some(strengthen(need(deps, k), d.kind))
        } else {
            need(deps, k)
        },
    decreases deps.len(),
{
    let all = deps.push(d);
    if deps.len() == 0 {
        assert(all.drop_first() =~= deps);
    } else {
        lemma_need_push(deps.drop_first(), d, k);
        assert(all.drop_first() =~= deps.drop_first().push(d));
    }
}

/// The sorted list ascends, and asks for every unit what the list it was
/// made from asks for it.
pub proof fn lemma_sorted_deps(deps: Seq<DepView>, k: Seq<char>)
    ensures
        ascending(sorted_deps(deps)),
        need(sorted_deps(deps), k) == need(deps, k),
    decreases deps.len(),
{
    if deps.len() > 0 {
        let front = deps.drop_last();
        lemma_sorted_deps(front, k);
        lemma_insert_dep(sorted_deps(front), deps.last(), k);
        lemma_need_push(front, deps.last(), k);
        assert(deps =~= front.push(deps.last()));
    }
}

/// Puts `d` in its place in an ascending list.
fn insert_into(out: &mut Vec<Dep>, d: &Dep)
    ensures
        final(out).deep_view() == insert_dep(old(out).deep_view(), d@),
{
    let ghost s = out.deep_view();
    let mut p: usize = 0;
    assert(s.skip(0) =~= s);
    assert(s.take(0) + insert_dep(s, d@) =~= insert_dep(s, d@));
    while p < out.len()
        invariant
            p <= out.len(),
            out.deep_view() == s,
            s == old(out).deep_view(),
            insert_dep(s, d@) == s.take(p as int) + insert_dep(s.skip(p as int), d@),
        decreases out.len() - p,
    {
        let ghost rest = s.skip(p as int);
        assert(rest[0] == out@[p as int]@);
        assert(rest.drop_first() =~= s.skip(p + 1));
        if out[p].key.same(&d.key) {
            let merged = Dep {
                key: d.key.clone(),
                kind: match (out[p].kind, d.kind) {
                    (SharedKind::Partial, SharedKind::Partial) => SharedKind::Partial,
                    _ => SharedKind::Full,
                },
            };
            out.set(p, merged);
            assert(out.deep_view() =~= s.take(p as int) + insert_dep(rest, d@));
            return ;
        }
        if d.key.before(&out[p].key) {
            out.insert(p, d.clone());
            assert(out.deep_view() =~= s.take(p as int) + insert_dep(rest, d@));
            return ;
        }
        assert(s.take(p as int) + (seq![rest[0]] + insert_dep(rest.drop_first(), d@)) =~= s.take(
            p + 1,
        ) + insert_dep(s.skip(p + 1), d@));
        p += 1;
    }
    assert(s.skip(p as int) =~= Seq::<DepView>::empty());
    out.push(d.clone());
    assert(out.deep_view() =~= s.take(p as int) + seq![d@]);
}

/// The dependencies in the order in which their locks are taken.
pub fn normalize_deps(deps: &Vec<Dep>) -> (r: Vec<Dep>)
    ensures
        r.deep_view() == sorted_deps(deps.deep_view()),
{
    let mut out: Vec<Dep> = Vec::new();
    let mut i: usize = 0;
    assert(out.deep_view() =~= sorted_deps(deps.deep_view().take(0)));
    while i < deps.len()
        invariant
            i <= deps.len(),
            out.deep_view() == sorted_deps(deps.deep_view().take(i as int)),
        decreases deps.len() - i,
    {
        let ghost upto = deps.deep_view().take(i + 1);
        assert(upto.drop_last() =~= deps.deep_view().take(i as int));
        assert(upto.last() == deps@[i as int]@);
        insert_into(&mut out, &deps[i]);
        i += 1;
    }
    assert(deps.deep_view().take(i as int) =~= deps.deep_view());
    out
}

} // verus!
