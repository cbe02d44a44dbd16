//! Recursive subvolume deletion, as a plan.
//!
//! Subvolumes nest, and a subvolume cannot be deleted while nested subvolumes
//! remain beneath it, so deletion must proceed depth-first, children before
//! parents.  Given the paths of all existing subvolumes (as the underlying
//! tool reports them) and the root to delete, [`delete_subvolume`] plans the
//! deletions: every subvolume at or below the root appears in the plan, and
//! no subvolume appears before any of its descendants.  A root with no
//! subvolume at all yields the empty plan, the no-op case.

use vstd::prelude::*;

use crate::bytes::clone_path;
use crate::bytes::is_prefix;
use crate::bytes::is_strict_prefix;
use crate::bytes::path_eq;
use crate::bytes::path_starts_with;
use crate::bytes::path_view;
use crate::bytes::paths_view;

verus! {

/// Does the plan already hold this path?
fn contains_view(out: &Vec<Vec<Vec<u8>>>, p: &Vec<Vec<u8>>) -> (r: bool)
    ensures
        r == paths_view(*out).contains(path_view(*p)),
{
    let mut i: usize = 0;
    while i < out.len()
        invariant
            i <= out.len(),
            forall|j: int| 0 <= j < i ==> paths_view(*out)[j] != path_view(*p),
        decreases out.len() - i,
    {
        proof {
            assert(paths_view(*out)[i as int] == path_view(out@[i as int]));
        }
        if path_eq(&out[i], p) {
            proof {
                assert(paths_view(*out).contains(path_view(*p)));
            }
            return true;
        }
        i += 1;
    }
    proof {
        if paths_view(*out).contains(path_view(*p)) {
            let idx = choose|idx: int|
                0 <= idx < paths_view(*out).len() && paths_view(*out)[idx] == path_view(*p);
            assert(false);
        }
    }
    false
}

/// Should this subvolume be deleted when clearing `root`, and is it new to the plan?
pub open spec fn plan_member(
    q: Seq<Seq<u8>>,
    subvols: Seq<Seq<Seq<u8>>>,
    root: Seq<Seq<u8>>,
) -> bool {
    subvols.contains(q) && is_prefix(root, q)
}

/// Plan the deletion of the subvolume at `root`: every subvolume at or below
/// `root` appears in the plan exactly where it is safe, deepest first, so no
/// subvolume comes up for deletion while a nested one still stands.
pub fn delete_subvolume(root: &Vec<Vec<u8>>, subvols: &Vec<Vec<Vec<u8>>>) -> (r: Vec<
    Vec<Vec<u8>>,
>)
    ensures
        forall|q: Seq<Seq<u8>>| #[trigger] paths_view(r).contains(q) == plan_member(
            q,
            paths_view(*subvols),
            path_view(*root),
        ),
        forall|i: int, j: int| 0 <= i <= j < paths_view(r).len() ==> paths_view(r)[i].len()
            >= paths_view(r)[j].len(),
        forall|i: int, j: int| 0 <= i <= j < paths_view(r).len() ==> !is_strict_prefix(
            paths_view(r)[i],
            paths_view(r)[j],
        ),
        forall|i: int, j: int| 0 <= i < j < paths_view(r).len() ==> paths_view(r)[i]
            != paths_view(r)[j],
{
    let ghost sv = paths_view(*subvols);
    let ghost rv = path_view(*root);
    let mut max_len: usize = 0;
    let mut i: usize = 0;
    while i < subvols.len()
        invariant
            i <= subvols.len(),
            sv == paths_view(*subvols),
            forall|j: int| 0 <= j < i ==> sv[j].len() <= max_len,
        decreases subvols.len() - i,
    {
        proof {
            assert(sv[i as int] == path_view(subvols@[i as int]));
        }
        if subvols[i].len() > max_len {
            max_len = subvols[i].len();
        }
        i += 1;
    }

    let mut out: Vec<Vec<Vec<u8>>> = Vec::new();
    let mut depth: usize = max_len;
    let mut done = false;
    while !done
        invariant
            sv == paths_view(*subvols),
            rv == path_view(*root),
            depth <= max_len,
            forall|j: int| 0 <= j < sv.len() ==> sv[j].len() <= max_len,
            !done ==> forall|q: Seq<Seq<u8>>| #[trigger] paths_view(out).contains(q)
                == (plan_member(q, sv, rv) && q.len() > depth),
            done ==> forall|q: Seq<Seq<u8>>| #[trigger] paths_view(out).contains(q)
                == plan_member(q, sv, rv),
            forall|i: int, j: int| 0 <= i <= j < paths_view(out).len() ==> paths_view(
                out,
            )[i].len() >= paths_view(out)[j].len(),
            !done ==> forall|i: int| 0 <= i < paths_view(out).len() ==> paths_view(out)[i].len()
                > depth,
            forall|i: int, j: int| 0 <= i < j < paths_view(out).len() ==> paths_view(out)[i]
                != paths_view(out)[j],
            done ==> depth == 0,
        decreases 2 * depth + (if done { 0int } else { 1int }),
    {
        let mut k: usize = 0;
        while k < subvols.len()
            invariant
                k <= subvols.len(),
                sv == paths_view(*subvols),
                rv == path_view(*root),
                forall|q: Seq<Seq<u8>>| #[trigger] paths_view(out).contains(q) == (plan_member(
                    q,
                    sv,
                    rv,
                ) && (q.len() > depth || (q.len() == depth && exists|j: int|
                    0 <= j < k && sv[j] == q))),
                forall|i: int, j: int| 0 <= i <= j < paths_view(out).len() ==> paths_view(
                    out,
                )[i].len() >= paths_view(out)[j].len(),
                forall|i: int| 0 <= i < paths_view(out).len() ==> paths_view(out)[i].len()
                    >= depth,
                forall|i: int, j: int| 0 <= i < j < paths_view(out).len() ==> paths_view(
                    out,
                )[i] != paths_view(out)[j],
            decreases subvols.len() - k,
        {
            proof {
                assert(sv[k as int] == path_view(subvols@[k as int]));
            }
            let candidate = &subvols[k];
            let ghost before = paths_view(out);
            if candidate.len() == depth && path_starts_with(candidate, root)
                && !contains_view(&out, candidate) {
                out.push(clone_path(candidate));
                proof {
                    let pv = paths_view(out);
                    assert(pv =~= before.push(path_view(subvols@[k as int])));
                    assert forall|i: int| 0 <= i < before.len() implies before[i] != path_view(
                        subvols@[k as int],
                    ) by {
                        if before[i] == path_view(subvols@[k as int]) {
                            assert(before.contains(path_view(subvols@[k as int])));
                        }
                    }
                    assert forall|q: Seq<Seq<u8>>| #[trigger] pv.contains(q) == (plan_member(
                        q,
                        sv,
                        rv,
                    ) && (q.len() > depth || (q.len() == depth && exists|j: int|
                        0 <= j <= k && sv[j] == q))) by {
                        if pv.contains(q) {
                            let idx = choose|idx: int| 0 <= idx < pv.len() && pv[idx] == q;
                            if idx < pv.len() - 1 {
                                assert(before[idx] == q);
                                assert(before.contains(q));
                            } else {
                                assert(q == sv[k as int]);
                            }
                        }
                        if plan_member(q, sv, rv) && (q.len() > depth || (q.len() == depth
                            && exists|j: int| 0 <= j <= k && sv[j] == q)) {
                            if q == sv[k as int] {
                                assert(pv[pv.len() - 1] == q);
                                assert(pv.contains(q));
                            } else {
                                let j = choose|j: int| 0 <= j <= k && sv[j] == q && q.len()
                                    == depth;
                                assert(before.contains(q) || q.len() > depth);
                                if before.contains(q) {
                                    let idx = choose|idx: int|
                                        0 <= idx < before.len() && before[idx] == q;
                                    assert(pv[idx] == q);
                                    assert(pv.contains(q));
                                }
                            }
                        }
                    }
                }
            } else {
                proof {
                    assert forall|q: Seq<Seq<u8>>| #[trigger] paths_view(out).contains(q)
                        == (plan_member(q, sv, rv) && (q.len() > depth || (q.len() == depth
                        && exists|j: int| 0 <= j <= k && sv[j] == q))) by {
                        if !paths_view(out).contains(q) && plan_member(q, sv, rv) && q.len()
                            == depth && exists|j: int| 0 <= j <= k && sv[j] == q {
                            let j = choose|j: int| 0 <= j <= k && sv[j] == q;
                            if j == k {
                                assert(q == path_view(subvols@[k as int]));
                            }
                        }
                    }
                }
            }
            k += 1;
        }
        proof {
            assert forall|q: Seq<Seq<u8>>| #[trigger] paths_view(out).contains(q)
                == (plan_member(q, sv, rv) && q.len() >= depth) by {
                if plan_member(q, sv, rv) && q.len() == depth {
                    let j = choose|j: int| 0 <= j < sv.len() && sv[j] == q;
                }
            }
        }
        if depth == 0 {
            done = true;
        } else {
            depth -= 1;
        }
    }
    proof {
        assert forall|i: int, j: int| 0 <= i <= j < paths_view(out).len()
            implies !is_strict_prefix(paths_view(out)[i], paths_view(out)[j]) by {
            assert(paths_view(out)[i].len() >= paths_view(out)[j].len());
        }
    }
    out
}

} // verus!
