//! The merge engine.
//!
//! A reset makes the work-in-progress generation structurally and
//! content-identical to the clean template, except at persistent paths and
//! their descendants, which keep the live contents.  Every path is classified:
//! *persistent* if it lies at or below a persistent path (it is kept),
//! *persistent-ancestor* if some persistent path lies strictly below it (it
//! must exist as a directory so the protected descendants keep their place),
//! and *disposable* otherwise (it is replaced by the clean template's version,
//! or removed when the template has none).

use vstd::prelude::*;

use crate::bytes::clone_path;
use crate::bytes::is_prefix;
use crate::bytes::is_strict_prefix;
use crate::bytes::path_eq;
use crate::bytes::path_starts_with;
use crate::bytes::path_view;
use crate::bytes::paths_view;
use crate::fs::clone_entry;
use crate::fs::contains_path;
use crate::fs::lemma_lookup_append;
use crate::fs::lemma_lookup_push;
use crate::fs::lookup;
use crate::fs::Fs;
use crate::fs::FsEntry;
use crate::fs::FsEntryV;
use crate::fs::Node;
use crate::fs::NodeV;

verus! {

/// Path `p` lies at or below some persistent path: its contents are kept.
pub open spec fn covered(p: Seq<Seq<u8>>, persist: Seq<Seq<Seq<u8>>>) -> bool {
    exists|i: int| 0 <= i < persist.len() && is_prefix(persist[i], p)
}

/// Some persistent path lies strictly below `p`: `p` shields it.
pub open spec fn shields(p: Seq<Seq<u8>>, persist: Seq<Seq<Seq<u8>>>) -> bool {
    exists|i: int| 0 <= i < persist.len() && is_strict_prefix(p, persist[i])
}

/// Path `p` is itself a persistent path.
pub open spec fn exact_persistent(p: Seq<Seq<u8>>, persist: Seq<Seq<Seq<u8>>>) -> bool {
    exists|i: int| 0 <= i < persist.len() && persist[i] == p
}

/// How the merge treats one directory entry.
#[derive(Clone, Copy, PartialEq, Eq, Structural, Debug)]
pub enum PathClass {
    /// A persistent path itself: skipped entirely, never recursed into.
    Persistent,
    /// A strict ancestor of a persistent path: kept as a directory, recursed into.
    PersistentAncestor,
    /// Replaced by the clean template's version, or removed.
    Disposable,
}

/// Is `p` at or below some persistent path?
pub fn is_covered(p: &Vec<Vec<u8>>, persist: &Vec<Vec<Vec<u8>>>) -> (r: bool)
    ensures
        r == covered(path_view(*p), paths_view(*persist)),
{
    let mut i: usize = 0;
    while i < persist.len()
        invariant
            i <= persist.len(),
            forall|j: int| 0 <= j < i ==> !is_prefix(paths_view(*persist)[j], path_view(*p)),
        decreases persist.len() - i,
    {
        proof {
            assert(paths_view(*persist)[i as int] == path_view(persist@[i as int]));
        }
        if path_starts_with(p, &persist[i]) {
            return true;
        }
        i += 1;
    }
    false
}

/// Does some persistent path lie strictly below `p`?
pub fn is_shielding(p: &Vec<Vec<u8>>, persist: &Vec<Vec<Vec<u8>>>) -> (r: bool)
    ensures
        r == shields(path_view(*p), paths_view(*persist)),
{
    let mut i: usize = 0;
    while i < persist.len()
        invariant
            i <= persist.len(),
            forall|j: int| 0 <= j < i ==> !is_strict_prefix(path_view(*p), paths_view(*persist)[j]),
        decreases persist.len() - i,
    {
        proof {
            assert(paths_view(*persist)[i as int] == path_view(persist@[i as int]));
        }
        if path_starts_with(&persist[i], p) && p.len() < persist[i].len() {
            return true;
        }
        i += 1;
    }
    false
}

/// Classify one path, with the precedence the merge uses: an exact persistent
/// path wins over being an ancestor of a deeper persistent path.
pub fn classify(p: &Vec<Vec<u8>>, persist: &Vec<Vec<Vec<u8>>>) -> (r: PathClass)
    ensures
        (r == PathClass::Persistent) == exact_persistent(path_view(*p), paths_view(*persist)),
        (r == PathClass::PersistentAncestor) == (!exact_persistent(path_view(*p), paths_view(*persist))
            && shields(path_view(*p), paths_view(*persist))),
        (r == PathClass::Disposable) == (!exact_persistent(path_view(*p), paths_view(*persist))
            && !shields(path_view(*p), paths_view(*persist))),
{
    let mut i: usize = 0;
    while i < persist.len()
        invariant
            i <= persist.len(),
            forall|j: int| 0 <= j < i ==> paths_view(*persist)[j] != path_view(*p),
        decreases persist.len() - i,
    {
        proof {
            assert(paths_view(*persist)[i as int] == path_view(persist@[i as int]));
        }
        if path_eq(&persist[i], p) {
            return PathClass::Persistent;
        }
        i += 1;
    }
    if is_shielding(p, persist) {
        PathClass::PersistentAncestor
    } else {
        PathClass::Disposable
    }
}

/// The live entries the merge keeps untouched: those at or below a persistent path.
pub open spec fn keep_covered(s: Seq<FsEntryV>, persist: Seq<Seq<Seq<u8>>>) -> Seq<FsEntryV>
    decreases s.len(),
{
    if s.len() == 0 {
        Seq::empty()
    } else {
        let rest = keep_covered(s.drop_last(), persist);
        if covered(s.last().path, persist) {
            rest.push(s.last())
        } else {
            rest
        }
    }
}

/// Directory entries for the live paths that shield a persistent path.
pub open spec fn anc_from_live(s: Seq<FsEntryV>, persist: Seq<Seq<Seq<u8>>>) -> Seq<FsEntryV>
    decreases s.len(),
{
    if s.len() == 0 {
        Seq::empty()
    } else {
        let rest = anc_from_live(s.drop_last(), persist);
        if !covered(s.last().path, persist) && shields(s.last().path, persist) {
            rest.push(FsEntryV { path: s.last().path, node: NodeV::Dir })
        } else {
            rest
        }
    }
}

/// Directory entries for the clean paths that shield a persistent path and
/// have no live entry of their own.
pub open spec fn anc_from_clean(
    s: Seq<FsEntryV>,
    live: Seq<FsEntryV>,
    persist: Seq<Seq<Seq<u8>>>,
) -> Seq<FsEntryV>
    decreases s.len(),
{
    if s.len() == 0 {
        Seq::empty()
    } else {
        let rest = anc_from_clean(s.drop_last(), live, persist);
        if !covered(s.last().path, persist) && shields(s.last().path, persist)
            && lookup(live, s.last().path) is None {
            rest.push(FsEntryV { path: s.last().path, node: NodeV::Dir })
        } else {
            rest
        }
    }
}

/// The clean entries the merge copies in: those unrelated to every persistent path.
pub open spec fn keep_unrelated(s: Seq<FsEntryV>, persist: Seq<Seq<Seq<u8>>>) -> Seq<FsEntryV>
    decreases s.len(),
{
    if s.len() == 0 {
        Seq::empty()
    } else {
        let rest = keep_unrelated(s.drop_last(), persist);
        if !covered(s.last().path, persist) && !shields(s.last().path, persist) {
            rest.push(s.last())
        } else {
            rest
        }
    }
}

/// The result of merging the live contents with the clean template.
pub open spec fn merge_entries(
    live: Seq<FsEntryV>,
    clean: Seq<FsEntryV>,
    persist: Seq<Seq<Seq<u8>>>,
) -> Seq<FsEntryV> {
    keep_covered(live, persist) + anc_from_live(live, persist)
        + anc_from_clean(clean, live, persist) + keep_unrelated(clean, persist)
}

/// What the merge leaves at path `p`: the live contents where a persistent
/// path protects it, a directory where it shields one, the clean template's
/// version everywhere else.
pub open spec fn merged(
    live: Seq<FsEntryV>,
    clean: Seq<FsEntryV>,
    persist: Seq<Seq<Seq<u8>>>,
    p: Seq<Seq<u8>>,
) -> Option<NodeV> {
    if covered(p, persist) {
        lookup(live, p)
    } else if shields(p, persist) {
        if lookup(live, p) is Some || lookup(clean, p) is Some {
            Some(NodeV::Dir)
        } else {
            None
        }
    } else {
        lookup(clean, p)
    }
}

proof fn lemma_lookup_keep_covered(s: Seq<FsEntryV>, persist: Seq<Seq<Seq<u8>>>, p: Seq<Seq<u8>>)
    ensures
        lookup(keep_covered(s, persist), p) == if covered(p, persist) {
            lookup(s, p)
        } else {
            None::<NodeV>
        },
    decreases s.len(),
{
    if s.len() > 0 {
        lemma_lookup_keep_covered(s.drop_last(), persist, p);
        assert(s =~= s.drop_last().push(s.last()));
        lemma_lookup_push(s.drop_last(), s.last(), p);
        if covered(s.last().path, persist) {
            lemma_lookup_push(keep_covered(s.drop_last(), persist), s.last(), p);
        }
    }
}

proof fn lemma_lookup_anc_from_live(s: Seq<FsEntryV>, persist: Seq<Seq<Seq<u8>>>, p: Seq<Seq<u8>>)
    ensures
        lookup(anc_from_live(s, persist), p) == if !covered(p, persist) && shields(p, persist)
            && lookup(s, p) is Some {
            Some(NodeV::Dir)
        } else {
            None::<NodeV>
        },
    decreases s.len(),
{
    if s.len() > 0 {
        lemma_lookup_anc_from_live(s.drop_last(), persist, p);
        assert(s =~= s.drop_last().push(s.last()));
        lemma_lookup_push(s.drop_last(), s.last(), p);
        if !covered(s.last().path, persist) && shields(s.last().path, persist) {
            lemma_lookup_push(
                anc_from_live(s.drop_last(), persist),
                FsEntryV { path: s.last().path, node: NodeV::Dir },
                p,
            );
        }
    }
}

proof fn lemma_lookup_anc_from_clean(
    s: Seq<FsEntryV>,
    live: Seq<FsEntryV>,
    persist: Seq<Seq<Seq<u8>>>,
    p: Seq<Seq<u8>>,
)
    ensures
        lookup(anc_from_clean(s, live, persist), p) == if !covered(p, persist)
            && shields(p, persist) && lookup(live, p) is None && lookup(s, p) is Some {
            Some(NodeV::Dir)
        } else {
            None::<NodeV>
        },
    decreases s.len(),
{
    if s.len() > 0 {
        lemma_lookup_anc_from_clean(s.drop_last(), live, persist, p);
        assert(s =~= s.drop_last().push(s.last()));
        lemma_lookup_push(s.drop_last(), s.last(), p);
        if !covered(s.last().path, persist) && shields(s.last().path, persist)
            && lookup(live, s.last().path) is None {
            lemma_lookup_push(
                anc_from_clean(s.drop_last(), live, persist),
                FsEntryV { path: s.last().path, node: NodeV::Dir },
                p,
            );
        }
    }
}

proof fn lemma_lookup_keep_unrelated(s: Seq<FsEntryV>, persist: Seq<Seq<Seq<u8>>>, p: Seq<Seq<u8>>)
    ensures
        lookup(keep_unrelated(s, persist), p) == if !covered(p, persist) && !shields(p, persist) {
            lookup(s, p)
        } else {
            None::<NodeV>
        },
    decreases s.len(),
{
    if s.len() > 0 {
        lemma_lookup_keep_unrelated(s.drop_last(), persist, p);
        assert(s =~= s.drop_last().push(s.last()));
        lemma_lookup_push(s.drop_last(), s.last(), p);
        if !covered(s.last().path, persist) && !shields(s.last().path, persist) {
            lemma_lookup_push(keep_unrelated(s.drop_last(), persist), s.last(), p);
        }
    }
}

/// What the merge result holds at any path is exactly [`merged`].
pub proof fn lemma_merge_lookup(
    live: Seq<FsEntryV>,
    clean: Seq<FsEntryV>,
    persist: Seq<Seq<Seq<u8>>>,
    p: Seq<Seq<u8>>,
)
    ensures
        lookup(merge_entries(live, clean, persist), p) == merged(live, clean, persist, p),
{
    let a = keep_covered(live, persist);
    let b = anc_from_live(live, persist);
    let c = anc_from_clean(clean, live, persist);
    let d = keep_unrelated(clean, persist);
    lemma_lookup_append(a + b + c, d, p);
    lemma_lookup_append(a + b, c, p);
    lemma_lookup_append(a, b, p);
    lemma_lookup_keep_covered(live, persist, p);
    lemma_lookup_anc_from_live(live, persist, p);
    lemma_lookup_anc_from_clean(clean, live, persist, p);
    lemma_lookup_keep_unrelated(clean, persist, p);
}

/// Nothing at or below a persistent path is touched by the merge.
pub proof fn lemma_merge_preserves_persistent(
    live: Seq<FsEntryV>,
    clean: Seq<FsEntryV>,
    persist: Seq<Seq<Seq<u8>>>,
    p: Seq<Seq<u8>>,
)
    requires
        covered(p, persist),
    ensures
        lookup(merge_entries(live, clean, persist), p) == lookup(live, p),
{
    lemma_merge_lookup(live, clean, persist, p);
}

/// Every path unrelated to the persistent set is reset to the clean template.
pub proof fn lemma_merge_replaces_disposable(
    live: Seq<FsEntryV>,
    clean: Seq<FsEntryV>,
    persist: Seq<Seq<Seq<u8>>>,
    p: Seq<Seq<u8>>,
)
    requires
        !covered(p, persist),
        !shields(p, persist),
    ensures
        lookup(merge_entries(live, clean, persist), p) == lookup(clean, p),
{
    lemma_merge_lookup(live, clean, persist, p);
}

/// A strict ancestor of a persistent path, present on either side, comes out
/// of the merge as a directory.
pub proof fn lemma_merge_ancestor_directory(
    live: Seq<FsEntryV>,
    clean: Seq<FsEntryV>,
    persist: Seq<Seq<Seq<u8>>>,
    p: Seq<Seq<u8>>,
)
    requires
        !covered(p, persist),
        shields(p, persist),
        lookup(live, p) is Some || lookup(clean, p) is Some,
    ensures
        lookup(merge_entries(live, clean, persist), p) == Some(NodeV::Dir),
{
    lemma_merge_lookup(live, clean, persist, p);
}


fn collect_keep_covered(live: &Fs, persist: &Vec<Vec<Vec<u8>>>) -> (r: Vec<FsEntry>)
    ensures
        r@.map_values(|e: FsEntry| e@) == keep_covered(live@, paths_view(*persist)),
{
    let ghost pv = paths_view(*persist);
    let mut out: Vec<FsEntry> = Vec::new();
    let mut i: usize = 0;
    while i < live.entries.len()
        invariant
            i <= live.entries.len(),
            out@.map_values(|e: FsEntry| e@) == keep_covered(live@.take(i as int), pv),
            pv == paths_view(*persist),
        decreases live.entries.len() - i,
    {
        proof {
            assert(live@[i as int] == live.entries@[i as int]@);
            assert(live@.take(i + 1).drop_last() =~= live@.take(i as int));
            assert(live@.take(i + 1).last() == live@[i as int]);
        }
        if is_covered(&live.entries[i].path, persist) {
            out.push(clone_entry(&live.entries[i]));
        }
        proof {
            assert(out@.map_values(|e: FsEntry| e@) =~= keep_covered(live@.take(i + 1), pv));
        }
        i += 1;
    }
    proof {
        assert(live@.take(live.entries@.len() as int) =~= live@);
    }
    out
}

fn collect_anc_from_live(live: &Fs, persist: &Vec<Vec<Vec<u8>>>) -> (r: Vec<FsEntry>)
    ensures
        r@.map_values(|e: FsEntry| e@) == anc_from_live(live@, paths_view(*persist)),
{
    let ghost pv = paths_view(*persist);
    let mut out: Vec<FsEntry> = Vec::new();
    let mut i: usize = 0;
    while i < live.entries.len()
        invariant
            i <= live.entries.len(),
            out@.map_values(|e: FsEntry| e@) == anc_from_live(live@.take(i as int), pv),
            pv == paths_view(*persist),
        decreases live.entries.len() - i,
    {
        proof {
            assert(live@[i as int] == live.entries@[i as int]@);
            assert(live@.take(i + 1).drop_last() =~= live@.take(i as int));
            assert(live@.take(i + 1).last() == live@[i as int]);
        }
        if !is_covered(&live.entries[i].path, persist)
            && is_shielding(&live.entries[i].path, persist) {
            out.push(FsEntry { path: clone_path(&live.entries[i].path), node: Node::Dir });
        }
        proof {
            assert(out@.map_values(|e: FsEntry| e@) =~= anc_from_live(live@.take(i + 1), pv));
        }
        i += 1;
    }
    proof {
        assert(live@.take(live.entries@.len() as int) =~= live@);
    }
    out
}

fn collect_anc_from_clean(clean: &Fs, live: &Fs, persist: &Vec<Vec<Vec<u8>>>) -> (r: Vec<
    FsEntry,
>)
    ensures
        r@.map_values(|e: FsEntry| e@) == anc_from_clean(clean@, live@, paths_view(*persist)),
{
    let ghost pv = paths_view(*persist);
    let mut out: Vec<FsEntry> = Vec::new();
    let mut i: usize = 0;
    while i < clean.entries.len()
        invariant
            i <= clean.entries.len(),
            out@.map_values(|e: FsEntry| e@) == anc_from_clean(clean@.take(i as int), live@, pv),
            pv == paths_view(*persist),
        decreases clean.entries.len() - i,
    {
        proof {
            assert(clean@[i as int] == clean.entries@[i as int]@);
            assert(clean@.take(i + 1).drop_last() =~= clean@.take(i as int));
            assert(clean@.take(i + 1).last() == clean@[i as int]);
        }
        if !is_covered(&clean.entries[i].path, persist)
            && is_shielding(&clean.entries[i].path, persist)
            && !contains_path(live, &clean.entries[i].path) {
            out.push(FsEntry { path: clone_path(&clean.entries[i].path), node: Node::Dir });
        }
        proof {
            assert(out@.map_values(|e: FsEntry| e@)
                =~= anc_from_clean(clean@.take(i + 1), live@, pv));
        }
        i += 1;
    }
    proof {
        assert(clean@.take(clean.entries@.len() as int) =~= clean@);
    }
    out
}

fn collect_keep_unrelated(clean: &Fs, persist: &Vec<Vec<Vec<u8>>>) -> (r: Vec<FsEntry>)
    ensures
        r@.map_values(|e: FsEntry| e@) == keep_unrelated(clean@, paths_view(*persist)),
{
    let ghost pv = paths_view(*persist);
    let mut out: Vec<FsEntry> = Vec::new();
    let mut i: usize = 0;
    while i < clean.entries.len()
        invariant
            i <= clean.entries.len(),
            out@.map_values(|e: FsEntry| e@) == keep_unrelated(clean@.take(i as int), pv),
            pv == paths_view(*persist),
        decreases clean.entries.len() - i,
    {
        proof {
            assert(clean@[i as int] == clean.entries@[i as int]@);
            assert(clean@.take(i + 1).drop_last() =~= clean@.take(i as int));
            assert(clean@.take(i + 1).last() == clean@[i as int]);
        }
        if !is_covered(&clean.entries[i].path, persist)
            && !is_shielding(&clean.entries[i].path, persist) {
            out.push(clone_entry(&clean.entries[i]));
        }
        proof {
            assert(out@.map_values(|e: FsEntry| e@) =~= keep_unrelated(clean@.take(i + 1), pv));
        }
        i += 1;
    }
    proof {
        assert(clean@.take(clean.entries@.len() as int) =~= clean@);
    }
    out
}

fn append_entries(dst: &mut Vec<FsEntry>, src: &Vec<FsEntry>)
    ensures
        final(dst)@.map_values(|e: FsEntry| e@) == old(dst)@.map_values(|e: FsEntry| e@)
            + src@.map_values(|e: FsEntry| e@),
{
    let ghost base = dst@.map_values(|e: FsEntry| e@);
    let ghost m = src@.map_values(|e: FsEntry| e@);
    let ghost b = dst@.len();
    let mut i: usize = 0;
    while i < src.len()
        invariant
            i <= src.len(),
            m == src@.map_values(|e: FsEntry| e@),
            b == base.len(),
            dst@.len() == b + i,
            forall|k: int| 0 <= k < b ==> dst@[k]@ == base[k],
            forall|k: int| b <= k < dst@.len() ==> dst@[k]@ == m[k - b],
        decreases src.len() - i,
    {
        proof {
            assert(m[i as int] == src@[i as int]@);
        }
        dst.push(clone_entry(&src[i]));
        i += 1;
    }
    proof {
        assert(m.len() == src@.len());
        assert(dst@.map_values(|e: FsEntry| e@) =~= base + m);
    }
}

/// What the merge leaves at a path depends only on what the two sides hold
/// at that path, never on the order in which entries are tabulated: two
/// tables that agree pointwise merge to tables that agree pointwise.
pub proof fn lemma_merge_order_independent(
    live1: Seq<FsEntryV>,
    live2: Seq<FsEntryV>,
    clean1: Seq<FsEntryV>,
    clean2: Seq<FsEntryV>,
    persist: Seq<Seq<Seq<u8>>>,
    p: Seq<Seq<u8>>,
)
    requires
        lookup(live1, p) == lookup(live2, p),
        lookup(clean1, p) == lookup(clean2, p),
    ensures
        lookup(merge_entries(live1, clean1, persist), p) == lookup(
            merge_entries(live2, clean2, persist),
            p,
        ),
{
    lemma_merge_lookup(live1, clean1, persist, p);
    lemma_merge_lookup(live2, clean2, persist, p);
}

/// Merge the live contents with the clean template, keeping persistent paths.
pub fn merge_with_clean(live: &Fs, clean: &Fs, persist: &Vec<Vec<Vec<u8>>>) -> (r: Fs)
    ensures
        r@ == merge_entries(live@, clean@, paths_view(*persist)),
        forall|p: Seq<Seq<u8>>|
            #[trigger] lookup(r@, p) == merged(live@, clean@, paths_view(*persist), p),
{
    let ghost pv = paths_view(*persist);
    let mut out = collect_keep_covered(live, persist);
    let part2 = collect_anc_from_live(live, persist);
    let part3 = collect_anc_from_clean(clean, live, persist);
    let part4 = collect_keep_unrelated(clean, persist);
    append_entries(&mut out, &part2);
    append_entries(&mut out, &part3);
    append_entries(&mut out, &part4);
    let r = Fs { entries: out };
    proof {
        assert(r@ =~= merge_entries(live@, clean@, pv));
        assert forall|p: Seq<Seq<u8>>|
            #[trigger] lookup(r@, p) == merged(live@, clean@, pv, p) by {
            lemma_merge_lookup(live@, clean@, pv, p);
        }
    }
    r
}

} // verus!
