//! The generation rotation state machine.
//!
//! Each managed subvolume has a clean template (`CLEAN`, maintained outside
//! this system), a live volume, and up to three generation snapshots:
//! `CURRENT` (work in progress), `PREVIOUS` (last completed generation) and
//! `PENULTIMATE` (the one before that).  A snapshot is delete-then-copy, so a
//! generation is always a whole copy of its source, never an in-place edit.
//! A reset rotates the generations, merges the new `CURRENT` with the clean
//! template, writes the readiness marker, and promotes `CURRENT` to the live
//! volume.  A `CURRENT` without the marker is the trace of an interrupted run
//! and is discarded; it never influences the outcome.

use vstd::prelude::*;

use crate::bytes::path_eq;
use crate::bytes::path_view;
use crate::bytes::paths_view;
use crate::fs::clone_entry;
use crate::fs::clone_fs;
use crate::fs::contains_path;
use crate::fs::lemma_lookup_push;
use crate::fs::lookup;
use crate::fs::Fs;
use crate::fs::FsEntry;
use crate::fs::FsEntryV;
use crate::fs::Node;
use crate::fs::NodeV;
use crate::merge::covered;
use crate::merge::lemma_merge_preserves_persistent;
use crate::merge::lemma_merge_replaces_disposable;
use crate::merge::merge_entries;
use crate::merge::merge_with_clean;
use crate::merge::shields;

verus! {

/// Why an operation failed.
#[derive(Clone, Copy, PartialEq, Eq, Structural, Debug)]
pub enum ResetError {
    /// The clean template is missing: there is nothing to reset from.
    CleanMissing,
    /// A snapshot source (the live volume, or the generation to restore) is missing.
    SourceMissing,
    /// An external command reported failure.
    CommandFailed,
}

/// A generation a restore can copy back onto the live volume.
#[derive(Clone, Copy, PartialEq, Eq, Structural, Debug)]
pub enum Generation {
    Previous,
    Penultimate,
}

/// Everything the rotation knows about one subvolume: the live volume, the
/// clean template, and the three rotating generations.  `None` means the
/// corresponding subvolume directory does not exist, a meaningful state (a
/// first run, or an interrupted one).
pub struct SubvolState {
    pub live: Option<Fs>,
    pub clean: Option<Fs>,
    pub current: Option<Fs>,
    pub previous: Option<Fs>,
    pub penultimate: Option<Fs>,
}

/// The mathematical value of a [`SubvolState`].
#[verifier::ext_equal]
pub struct StateV {
    pub live: Option<Seq<FsEntryV>>,
    pub clean: Option<Seq<FsEntryV>>,
    pub current: Option<Seq<FsEntryV>>,
    pub previous: Option<Seq<FsEntryV>>,
    pub penultimate: Option<Seq<FsEntryV>>,
}

/// The view of an optional subvolume.
pub open spec fn opt_fs_view(o: Option<Fs>) -> Option<Seq<FsEntryV>> {
    match o {
        Some(f) => Some(f@),
        None => None,
    }
}

impl View for SubvolState {
    type V = StateV;

    open spec fn view(&self) -> StateV {
        StateV {
            live: opt_fs_view(self.live),
            clean: opt_fs_view(self.clean),
            current: opt_fs_view(self.current),
            previous: opt_fs_view(self.previous),
            penultimate: opt_fs_view(self.penultimate),
        }
    }
}

/// The view of an operation's outcome.
pub open spec fn res_view(r: Result<SubvolState, ResetError>) -> Result<StateV, ResetError> {
    match r {
        Ok(s) => Ok(s@),
        Err(e) => Err(e),
    }
}

/// The name of the readiness marker file.
pub open spec fn marker_name() -> Seq<u8> {
    seq![46u8, 98u8, 111u8, 111u8, 116u8, 45u8, 114u8, 101u8, 97u8, 100u8, 121u8]
}

/// The path of the readiness marker file at a generation's root.
pub open spec fn marker_path() -> Seq<Seq<u8>> {
    seq![marker_name()]
}

/// The readiness marker file name, `.boot-ready`.
pub fn marker_file_name() -> (r: Vec<u8>)
    ensures
        r@ == marker_name(),
{
    let mut v: Vec<u8> = Vec::new();
    v.push(46);
    v.push(98);
    v.push(111);
    v.push(111);
    v.push(116);
    v.push(45);
    v.push(114);
    v.push(101);
    v.push(97);
    v.push(100);
    v.push(121);
    proof {
        assert(v@ =~= marker_name());
    }
    v
}

/// The readiness marker path.
pub fn marker_file_path() -> (r: Vec<Vec<u8>>)
    ensures
        path_view(r) == marker_path(),
{
    let mut p: Vec<Vec<u8>> = Vec::new();
    p.push(marker_file_name());
    proof {
        assert(path_view(p) =~= marker_path());
    }
    p
}

/// A generation's contents without any readiness marker entry.
pub open spec fn strip_marker(fs: Seq<FsEntryV>) -> Seq<FsEntryV>
    decreases fs.len(),
{
    if fs.len() == 0 {
        Seq::empty()
    } else {
        let rest = strip_marker(fs.drop_last());
        if fs.last().path == marker_path() {
            rest
        } else {
            rest.push(fs.last())
        }
    }
}

/// A generation's contents with a fresh, zero-byte readiness marker.
pub open spec fn with_marker(fs: Seq<FsEntryV>) -> Seq<FsEntryV> {
    strip_marker(fs).push(FsEntryV { path: marker_path(), node: NodeV::File(Seq::empty()) })
}

proof fn lemma_lookup_strip_marker(fs: Seq<FsEntryV>, p: Seq<Seq<u8>>)
    ensures
        lookup(strip_marker(fs), p) == if p == marker_path() {
            None::<NodeV>
        } else {
            lookup(fs, p)
        },
    decreases fs.len(),
{
    if fs.len() > 0 {
        lemma_lookup_strip_marker(fs.drop_last(), p);
        assert(fs =~= fs.drop_last().push(fs.last()));
        lemma_lookup_push(fs.drop_last(), fs.last(), p);
        if fs.last().path != marker_path() {
            lemma_lookup_push(strip_marker(fs.drop_last()), fs.last(), p);
        }
    }
}

/// Writing the marker changes what stands at the marker path and nothing else.
pub proof fn lemma_lookup_with_marker(fs: Seq<FsEntryV>, p: Seq<Seq<u8>>)
    ensures
        p == marker_path() ==> lookup(with_marker(fs), p) == Some(
            NodeV::File(Seq::<u8>::empty()),
        ),
        p != marker_path() ==> lookup(with_marker(fs), p) == lookup(fs, p),
{
    lemma_lookup_strip_marker(fs, p);
    lemma_lookup_push(
        strip_marker(fs),
        FsEntryV { path: marker_path(), node: NodeV::File(Seq::empty()) },
        p,
    );
}

/// Write a fresh readiness marker into a generation, replacing any stale one.
pub fn write_marker(fs: &Fs) -> (r: Fs)
    ensures
        r@ == with_marker(fs@),
{
    let mp = marker_file_path();
    let mut out: Vec<FsEntry> = Vec::new();
    let mut i: usize = 0;
    while i < fs.entries.len()
        invariant
            i <= fs.entries.len(),
            out@.map_values(|e: FsEntry| e@) == strip_marker(fs@.take(i as int)),
            path_view(mp) == marker_path(),
        decreases fs.entries.len() - i,
    {
        proof {
            assert(fs@[i as int] == fs.entries@[i as int]@);
            assert(fs@.take(i + 1).drop_last() =~= fs@.take(i as int));
            assert(fs@.take(i + 1).last() == fs@[i as int]);
        }
        if !path_eq(&fs.entries[i].path, &mp) {
            out.push(clone_entry(&fs.entries[i]));
        }
        proof {
            assert(out@.map_values(|e: FsEntry| e@) =~= strip_marker(fs@.take(i + 1)));
        }
        i += 1;
    }
    proof {
        assert(fs@.take(fs.entries@.len() as int) =~= fs@);
    }
    out.push(FsEntry { path: mp, node: Node::File(Vec::new()) });
    let r = Fs { entries: out };
    proof {
        assert(r@ =~= with_marker(fs@));
    }
    r
}

/// Does this generation carry the readiness marker?
pub fn is_ready(fs: &Fs) -> (r: bool)
    ensures
        r == (lookup(fs@, marker_path()) is Some),
{
    let mp = marker_file_path();
    contains_path(fs, &mp)
}

/// Step one of a reset: an existing `CURRENT` without the readiness marker is
/// the trace of an interrupted run and is discarded.
pub fn recover_current(current: &Option<Fs>) -> (r: Option<Fs>)
    ensures
        match *current {
            Some(ref c) => if lookup(c@, marker_path()) is Some {
                opt_fs_view(r) == Some(c@)
            } else {
                r is None
            },
            None => r is None,
        },
{
    match current {
        Some(c) => if is_ready(c) {
            Some(clone_fs(c))
        } else {
            None
        },
        None => None,
    }
}

/// A fresh copy of a subvolume's whole rotation state.
pub fn clone_state(s: &SubvolState) -> (r: SubvolState)
    ensures
        r@ == s@,
{
    let r = SubvolState {
        live: match &s.live {
            Some(f) => Some(clone_fs(f)),
            None => None,
        },
        clean: match &s.clean {
            Some(f) => Some(clone_fs(f)),
            None => None,
        },
        current: match &s.current {
            Some(f) => Some(clone_fs(f)),
            None => None,
        },
        previous: match &s.previous {
            Some(f) => Some(clone_fs(f)),
            None => None,
        },
        penultimate: match &s.penultimate {
            Some(f) => Some(clone_fs(f)),
            None => None,
        },
    };
    proof {
        assert(r@ =~= s@);
    }
    r
}

/// Check the outcome of an external command: success passes through, any
/// failure is fatal to the whole run.
pub fn require(ok: bool) -> (r: Result<(), ResetError>)
    ensures
        ok == (r is Ok),
        !ok ==> r == Err::<(), ResetError>(ResetError::CommandFailed),
{
    if ok {
        Ok(())
    } else {
        Err(ResetError::CommandFailed)
    }
}

/// The snapshot primitive: a fresh copy of the source, which must exist.
pub fn create_snapshot(source: &Option<Fs>) -> (r: Result<Fs, ResetError>)
    ensures
        match *source {
            Some(ref f) => match r {
                Ok(c) => c@ == f@,
                Err(_) => false,
            },
            None => r == Err::<Fs, ResetError>(ResetError::SourceMissing),
        },
{
    match source {
        Some(f) => Ok(clone_fs(f)),
        None => Err(ResetError::SourceMissing),
    }
}

/// What a reset does.  The clean template must exist; the live volume must
/// exist to be snapshotted.  The penultimate generation takes what the
/// previous generation held (seeded from the clean template on a first run),
/// the previous generation takes the live volume, and the new current
/// generation is the live volume merged with the clean template, carrying a
/// fresh readiness marker, promoted to the live volume.  A stale `CURRENT`
/// never enters the result.
pub open spec fn spec_reset(
    s: StateV,
    persist: Seq<Seq<Seq<u8>>>,
) -> Result<StateV, ResetError> {
    match s.clean {
        None => Err(ResetError::CleanMissing),
        Some(c) => match s.live {
            None => Err(ResetError::SourceMissing),
            Some(l) => {
                let boot_prev = match s.previous {
                    Some(p) => p,
                    None => c,
                };
                let cur = with_marker(merge_entries(l, c, persist));
                Ok(
                    StateV {
                        live: Some(cur),
                        clean: Some(c),
                        current: Some(cur),
                        previous: Some(l),
                        penultimate: Some(boot_prev),
                    },
                )
            },
        },
    }
}

/// What a snapshot-only run does: the same bootstrap and rotation as a reset,
/// but `CURRENT` and the live volume are left untouched.
pub open spec fn spec_snapshot_only(s: StateV) -> Result<StateV, ResetError> {
    match s.clean {
        None => Err(ResetError::CleanMissing),
        Some(c) => match s.live {
            None => Err(ResetError::SourceMissing),
            Some(l) => {
                let boot_prev = match s.previous {
                    Some(p) => p,
                    None => c,
                };
                Ok(
                    StateV {
                        live: s.live,
                        clean: s.clean,
                        current: s.current,
                        previous: Some(l),
                        penultimate: Some(boot_prev),
                    },
                )
            },
        },
    }
}

/// What a restore does: snapshot the named generation straight onto the live
/// volume; fatal if that generation does not exist.
pub open spec fn spec_restore(s: StateV, g: Generation) -> Result<StateV, ResetError> {
    let source = match g {
        Generation::Previous => s.previous,
        Generation::Penultimate => s.penultimate,
    };
    match source {
        None => Err(ResetError::SourceMissing),
        Some(v) => Ok(
            StateV {
                live: Some(v),
                clean: s.clean,
                current: s.current,
                previous: s.previous,
                penultimate: s.penultimate,
            },
        ),
    }
}

/// Perform a reset on the modeled subvolume.
pub fn reset(s: &SubvolState, persist: &Vec<Vec<Vec<u8>>>) -> (r: Result<
    SubvolState,
    ResetError,
>)
    ensures
        res_view(r) == spec_reset(s@, paths_view(*persist)),
{
    let clean = match &s.clean {
        Some(c) => c,
        None => {
            return Err(ResetError::CleanMissing);
        },
    };
    let live_now = match &s.live {
        Some(l) => l,
        None => {
            return Err(ResetError::SourceMissing);
        },
    };
    // Bootstrap and rotate: the penultimate generation takes what the previous
    // generation held, seeded from the clean template when no history exists.
    let penultimate = match &s.previous {
        Some(p) => clone_fs(p),
        None => clone_fs(clean),
    };
    // The previous generation takes the live volume, and the new current
    // generation starts as a snapshot of it.
    let previous = clone_fs(live_now);
    let current = clone_fs(&previous);
    // Merge the current generation with the clean template, keeping the
    // persistent paths, then record completion with the readiness marker.
    let merged = merge_with_clean(&current, clean, persist);
    let ready = write_marker(&merged);
    // Promote: the live volume becomes a snapshot of the finished current.
    let live_next = clone_fs(&ready);
    let out = SubvolState {
        live: Some(live_next),
        clean: Some(clone_fs(clean)),
        current: Some(ready),
        previous: Some(previous),
        penultimate: Some(penultimate),
    };
    proof {
        match spec_reset(s@, paths_view(*persist)) {
            Ok(e) => {
                assert(out@ =~= e);
            },
            Err(_) => {
                assert(false);
            },
        }
    }
    Ok(out)
}

/// Advance the rollback history without touching `CURRENT` or the live volume.
pub fn snapshot_only(s: &SubvolState) -> (r: Result<SubvolState, ResetError>)
    ensures
        res_view(r) == spec_snapshot_only(s@),
{
    let clean = match &s.clean {
        Some(c) => c,
        None => {
            return Err(ResetError::CleanMissing);
        },
    };
    let live_now = match &s.live {
        Some(l) => l,
        None => {
            return Err(ResetError::SourceMissing);
        },
    };
    let penultimate = match &s.previous {
        Some(p) => clone_fs(p),
        None => clone_fs(clean),
    };
    let previous = clone_fs(live_now);
    let out = SubvolState {
        live: Some(clone_fs(live_now)),
        clean: Some(clone_fs(clean)),
        current: match &s.current {
            Some(c) => Some(clone_fs(c)),
            None => None,
        },
        previous: Some(previous),
        penultimate: Some(penultimate),
    };
    proof {
        match spec_snapshot_only(s@) {
            Ok(e) => {
                assert(out@ =~= e);
            },
            Err(_) => {
                assert(false);
            },
        }
    }
    Ok(out)
}

/// Snapshot the named generation straight onto the live volume.
pub fn restore(s: &SubvolState, g: Generation) -> (r: Result<SubvolState, ResetError>)
    ensures
        res_view(r) == spec_restore(s@, g),
{
    let source = match g {
        Generation::Previous => &s.previous,
        Generation::Penultimate => &s.penultimate,
    };
    let restored = match source {
        Some(v) => clone_fs(v),
        None => {
            return Err(ResetError::SourceMissing);
        },
    };
    let out = SubvolState {
        live: Some(restored),
        clean: match &s.clean {
            Some(c) => Some(clone_fs(c)),
            None => None,
        },
        current: match &s.current {
            Some(c) => Some(clone_fs(c)),
            None => None,
        },
        previous: match &s.previous {
            Some(p) => Some(clone_fs(p)),
            None => None,
        },
        penultimate: match &s.penultimate {
            Some(p) => Some(clone_fs(p)),
            None => None,
        },
    };
    proof {
        match spec_restore(s@, g) {
            Ok(e) => {
                assert(out@ =~= e);
            },
            Err(_) => {
                assert(false);
            },
        }
    }
    Ok(out)
}

/// Rotation ordering: whenever a reset succeeds, the penultimate generation is
/// exactly what the previous generation was immediately before the rotation
/// (seeded from the clean template on a first run), and the previous
/// generation is exactly the live volume as the reset found it.
pub proof fn lemma_rotation_ordering(s: StateV, persist: Seq<Seq<Seq<u8>>>)
    requires
        s.clean is Some,
        s.live is Some,
    ensures
        spec_reset(s, persist) is Ok,
        match spec_reset(s, persist) {
            Ok(n) => {
                &&& n.previous == s.live
                &&& n.penultimate == if s.previous is Some {
                    s.previous
                } else {
                    s.clean
                }
            },
            Err(_) => false,
        },
{
}

/// Readiness gating: the outcome of a reset does not depend on any existing
/// `CURRENT`.  A run aborted after creating `CURRENT` but before writing the
/// readiness marker leaves a state whose next reset gives exactly the result
/// of a run that started without the stale `CURRENT`.
pub proof fn lemma_readiness_gating(s1: StateV, s2: StateV, persist: Seq<Seq<Seq<u8>>>)
    requires
        s1.live == s2.live,
        s1.clean == s2.clean,
        s1.previous == s2.previous,
        s1.penultimate == s2.penultimate,
    ensures
        spec_reset(s1, persist) == spec_reset(s2, persist),
{
    match (spec_reset(s1, persist), spec_reset(s2, persist)) {
        (Ok(a), Ok(b)) => {
            assert(a =~= b);
        },
        _ => {},
    }
}

/// Persistence idempotence: after a successful reset, every path at or below
/// a persistent path holds exactly what the live volume held before the call,
/// and every path unrelated to the persistent set holds exactly the clean
/// template's version.  (The readiness marker's own root entry is the one
/// path the reset always rewrites.)
pub proof fn lemma_persistence_idempotence(
    s: StateV,
    persist: Seq<Seq<Seq<u8>>>,
    p: Seq<Seq<u8>>,
)
    requires
        s.clean is Some,
        s.live is Some,
        p != marker_path(),
    ensures
        spec_reset(s, persist) is Ok,
        match (spec_reset(s, persist), s.live, s.clean) {
            (Ok(n), Some(l), Some(c)) => {
                &&& n.live is Some
                &&& covered(p, persist) ==> lookup(n.live.unwrap(), p) == lookup(l, p)
                &&& (!covered(p, persist) && !shields(p, persist)) ==> lookup(
                    n.live.unwrap(),
                    p,
                ) == lookup(c, p)
            },
            _ => false,
        },
{
    let l = s.live.unwrap();
    let c = s.clean.unwrap();
    lemma_lookup_with_marker(merge_entries(l, c, persist), p);
    if covered(p, persist) {
        lemma_merge_preserves_persistent(l, c, persist, p);
    }
    if !covered(p, persist) && !shields(p, persist) {
        lemma_merge_replaces_disposable(l, c, persist, p);
    }
}

/// Persistence idempotence across two consecutive resets: with the same
/// persistent-path set both times, whatever was written under a persistent
/// path between the two calls is still there, byte-identical, after the
/// second call, and every path unrelated to the persistent set is back to
/// exactly the clean template's version.
pub proof fn lemma_persistence_across_two_resets(
    s: StateV,
    interim_live: Seq<FsEntryV>,
    persist: Seq<Seq<Seq<u8>>>,
    q: Seq<Seq<u8>>,
)
    requires
        s.clean is Some,
        s.live is Some,
        q != marker_path(),
    ensures
        spec_reset(s, persist) is Ok,
        match spec_reset(s, persist) {
            Ok(n1) => {
                // Between the boots, arbitrary writes turn the live volume
                // into `interim_live`; the second reset sees that state.
                let s2 = StateV { live: Some(interim_live), ..n1 };
                &&& spec_reset(s2, persist) is Ok
                &&& match spec_reset(s2, persist) {
                    Ok(n2) => {
                        &&& n2.live is Some
                        &&& covered(q, persist) ==> lookup(n2.live.unwrap(), q) == lookup(
                            interim_live,
                            q,
                        )
                        &&& (!covered(q, persist) && !shields(q, persist)) ==> lookup(
                            n2.live.unwrap(),
                            q,
                        ) == lookup(s.clean.unwrap(), q)
                    },
                    Err(_) => false,
                }
            },
            Err(_) => false,
        },
{
    match spec_reset(s, persist) {
        Ok(n1) => {
            let s2 = StateV { live: Some(interim_live), ..n1 };
            lemma_persistence_idempotence(s2, persist, q);
        },
        Err(_) => {
            assert(false);
        },
    }
}

/// Restore determinism: a restore of the previous generation followed at once
/// by a restore of the penultimate generation leaves the live volume equal to
/// the penultimate generation, whatever the first restore did, because each
/// restore copies straight from its named generation.
pub proof fn lemma_restore_determinism(s: StateV)
    requires
        s.previous is Some,
        s.penultimate is Some,
    ensures
        spec_restore(s, Generation::Previous) is Ok,
        match spec_restore(s, Generation::Previous) {
            Ok(mid) => spec_restore(mid, Generation::Penultimate) is Ok && match spec_restore(
                mid,
                Generation::Penultimate,
            ) {
                Ok(n) => n.live == s.penultimate,
                Err(_) => false,
            },
            Err(_) => false,
        },
{
}

} // verus!
