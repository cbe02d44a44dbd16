//! Dispatch over the configured subvolumes.
//!
//! A run executes one operation, chosen by the mode, once per configured
//! subvolume.  Each subvolume owns a disjoint state, so the outcome for one
//! is a function of that subvolume's own entry alone; sequential and parallel
//! schedules therefore agree, which is what lets the unverified shell run the
//! operations concurrently when more than one subvolume is configured.

use vstd::prelude::*;

use crate::bytes::paths_view;
use crate::rotation::res_view;
use crate::rotation::reset;
use crate::rotation::restore;
use crate::rotation::snapshot_only;
use crate::rotation::spec_reset;
use crate::rotation::spec_restore;
use crate::rotation::spec_snapshot_only;
use crate::rotation::Generation;
use crate::rotation::ResetError;
use crate::rotation::StateV;
use crate::rotation::SubvolState;

verus! {

/// The operation a run performs.
#[derive(Clone, Copy, PartialEq, Eq, Structural, Debug)]
pub enum Mode {
    Reset,
    SnapshotOnly,
    RestorePrevious,
    RestorePenultimate,
    /// No per-subvolume work at all; only the outer mount bracket runs.
    Disabled,
}

/// One configured subvolume: its state and its persistent paths.
pub struct ManagedSubvol {
    pub state: SubvolState,
    pub persist: Vec<Vec<Vec<u8>>>,
}

/// The mathematical value of a [`ManagedSubvol`].
#[verifier::ext_equal]
pub struct ManagedSubvolV {
    pub state: StateV,
    pub persist: Seq<Seq<Seq<u8>>>,
}

impl View for ManagedSubvol {
    type V = ManagedSubvolV;

    open spec fn view(&self) -> ManagedSubvolV {
        ManagedSubvolV { state: self.state@, persist: paths_view(self.persist) }
    }
}

/// The outcome of the chosen operation on one subvolume.
pub open spec fn spec_apply(mode: Mode, m: ManagedSubvolV) -> Result<StateV, ResetError> {
    match mode {
        Mode::Reset => spec_reset(m.state, m.persist),
        Mode::SnapshotOnly => spec_snapshot_only(m.state),
        Mode::RestorePrevious => spec_restore(m.state, Generation::Previous),
        Mode::RestorePenultimate => spec_restore(m.state, Generation::Penultimate),
        Mode::Disabled => Ok(m.state),
    }
}

/// The outcome of a whole run: the chosen operation applied to each
/// subvolume's own entry, independently of every other entry.
pub open spec fn spec_dispatch(mode: Mode, v: Seq<ManagedSubvolV>) -> Seq<
    Result<StateV, ResetError>,
> {
    v.map_values(|m: ManagedSubvolV| spec_apply(mode, m))
}

/// Apply the chosen operation to one subvolume.
pub fn apply_mode(mode: Mode, m: &ManagedSubvol) -> (r: Result<SubvolState, ResetError>)
    ensures
        res_view(r) == spec_apply(mode, m@),
{
    match mode {
        Mode::Reset => reset(&m.state, &m.persist),
        Mode::SnapshotOnly => snapshot_only(&m.state),
        Mode::RestorePrevious => restore(&m.state, Generation::Previous),
        Mode::RestorePenultimate => restore(&m.state, Generation::Penultimate),
        Mode::Disabled => Ok(crate::rotation::clone_state(&m.state)),
    }
}

/// Run the chosen operation once per configured subvolume, in order.
pub fn run_dispatch(mode: Mode, vols: &Vec<ManagedSubvol>) -> (r: Vec<
    Result<SubvolState, ResetError>,
>)
    ensures
        r@.len() == vols@.len(),
        forall|i: int| 0 <= i < r@.len() ==> res_view(r@[i]) == spec_dispatch(
            mode,
            vols@.map_values(|m: ManagedSubvol| m@),
        )[i],
{
    let mut out: Vec<Result<SubvolState, ResetError>> = Vec::new();
    let mut i: usize = 0;
    while i < vols.len()
        invariant
            i <= vols.len(),
            out@.len() == i,
            forall|j: int| 0 <= j < i ==> res_view(out@[j]) == spec_apply(mode, vols@[j]@),
        decreases vols.len() - i,
    {
        out.push(apply_mode(mode, &vols[i]));
        i += 1;
    }
    proof {
        assert forall|i2: int| 0 <= i2 < out@.len() implies res_view(out@[i2]) == spec_dispatch(
            mode,
            vols@.map_values(|m: ManagedSubvol| m@),
        )[i2] by {
            assert(vols@.map_values(|m: ManagedSubvol| m@)[i2] == vols@[i2]@);
        }
    }
    out
}

/// Concurrent isolation: the outcome for a subvolume is a function of its own
/// entry alone, so two runs that hold the same entry anywhere give it the
/// same outcome — in particular, dispatching two independent subvolumes in
/// either order, or in parallel, leaves each in the same final state.
pub proof fn lemma_concurrent_isolation(
    mode: Mode,
    v1: Seq<ManagedSubvolV>,
    v2: Seq<ManagedSubvolV>,
    i: int,
    j: int,
)
    requires
        0 <= i < v1.len(),
        0 <= j < v2.len(),
        v1[i] == v2[j],
    ensures
        spec_dispatch(mode, v1)[i] == spec_dispatch(mode, v2)[j],
{
}

} // verus!
