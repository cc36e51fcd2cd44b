//! The order of steps by which a cached statistics file is refreshed.
//!
//! A refresh fetches the current statistics and puts them in the place of
//! the cache file. Readers of the cache file must never see half a file, and
//! a refresh that fails must leave the cache as it was. So the new content
//! is first written in full to a temporary file beside the cache file, and
//! the cache file is changed by one step only, the last: the temporary file
//! is renamed to the cache file, which replaces the old content at once.
//! Nothing is removed beforehand, so where any step fails, the rename
//! included, the old cache file is still there.
//!
//! The steps themselves (the network, the file system) are carried out by
//! the caller. This module decides which step comes next, given how the last
//! one went.

use vstd::prelude::*;

verus! {

/// Where the statistics of the RIPE NCC are published.
pub const RIPE_EXTENDED_LATEST_URL: &'static str =
    "https://ftp.ripe.net/pub/stats/ripencc/delegated-ripencc-extended-latest";

/// One step of a refresh.
#[derive(Debug, Clone, Copy, PartialEq, Eq, Structural)]
pub enum RefreshStep {
    /// Make sure that the directory of the cache file exists.
    CreateDirectory,
    /// Fetch the statistics.
    Download,
    /// Write what was fetched to the temporary file, all of it, and have it
    /// reach the disk.
    WriteTemporary,
    /// Rename the temporary file to the cache file, in the place of the
    /// cache file that may be there.
    Replace,
}

/// How far a refresh has come.
#[derive(Debug, Clone, Copy, PartialEq, Eq, Structural)]
pub enum RefreshState {
    /// The given step is to be carried out next.
    Pending(RefreshStep),
    /// Every step is done: the cache file holds the new content.
    Done,
    /// The given step failed, and the refresh ended there.
    Failed(RefreshStep),
}

/// Whether a step changes the cache file itself. Only the rename does.
pub open spec fn touches_cache(step: RefreshStep) -> bool {
    step == RefreshStep::Replace
}

/// The state after the pending step of `state` went as `succeeded` says.
///
/// Steps follow in their order, and a step that fails ends the refresh. A
/// refresh that has ended stays as it is.
pub open spec fn state_after(state: RefreshState, succeeded: bool) -> RefreshState {
    match state {
        RefreshState::Pending(step) => if !succeeded {
            RefreshState::Failed(step)
        } else {
            match step {
                RefreshStep::CreateDirectory => RefreshState::Pending(RefreshStep::Download),
                RefreshStep::Download => RefreshState::Pending(RefreshStep::WriteTemporary),
                RefreshStep::WriteTemporary => RefreshState::Pending(RefreshStep::Replace),
                RefreshStep::Replace => RefreshState::Done,
            }
        },
        RefreshState::Done => RefreshState::Done,
        RefreshState::Failed(step) => RefreshState::Failed(step),
    }
}

/// The state of a refresh whose steps so far went as `outcomes` say, in
/// order.
pub open spec fn state_of_run(outcomes: Seq<bool>) -> RefreshState
    decreases outcomes.len(),
{
    if outcomes.len() == 0 {
        RefreshState::Pending(RefreshStep::CreateDirectory)
    } else {
        state_after(state_of_run(outcomes.drop_last()), outcomes.last())
    }
}

/// Whether the `k`-th outcome of the run is the success of a step that
/// changes the cache file: after the first `k` outcomes such a step was
/// pending, and it succeeded.
pub open spec fn cache_changed_at(outcomes: Seq<bool>, k: int) -> bool {
    &&& 0 <= k < outcomes.len()
    &&& outcomes[k]
    &&& state_of_run(outcomes.take(k)) matches RefreshState::Pending(step) && touches_cache(step)
}

/// Whether in the run any step that changes the cache file has succeeded.
pub open spec fn cache_changed(outcomes: Seq<bool>) -> bool {
    exists|k: int| cache_changed_at(outcomes, k)
}

impl RefreshState {
    /// The state in which every refresh begins.
    pub fn start() -> (state: RefreshState)
        ensures
            state == state_of_run(Seq::<bool>::empty()),
    {
        RefreshState::Pending(RefreshStep::CreateDirectory)
    }

    /// The state that follows, given whether the pending step succeeded.
    pub fn next(self, succeeded: bool) -> (state: RefreshState)
        ensures
            state == state_after(self, succeeded),
    {
        match self {
            RefreshState::Pending(step) => {
                if !succeeded {
                    RefreshState::Failed(step)
                } else {
                    match step {
                        RefreshStep::CreateDirectory => RefreshState::Pending(
                            RefreshStep::Download,
                        ),
                        RefreshStep::Download => RefreshState::Pending(
                            RefreshStep::WriteTemporary,
                        ),
                        RefreshStep::WriteTemporary => RefreshState::Pending(RefreshStep::Replace),
                        RefreshStep::Replace => RefreshState::Done,
                    }
                }
            },
            RefreshState::Done => RefreshState::Done,
            RefreshState::Failed(step) => RefreshState::Failed(step),
        }
    }

    /// The step to carry out next, if the refresh has not ended.
    pub fn pending(self) -> (step: Option<RefreshStep>)
        ensures
            step == match self {
                RefreshState::Pending(s) => Some(s),
                _ => None::<RefreshStep>,
            },
    {
        match self {
            RefreshState::Pending(s) => Some(s),
            _ => None,
        }
    }
}

/// The cache file is replaced only on full success. In every run, a step
/// that changes the cache file has succeeded exactly if the refresh is done:
/// in any other state, pending or failed at whatever step, the cache file is
/// as it was before the refresh.
pub proof fn lemma_cache_changed_only_when_done(outcomes: Seq<bool>)
    ensures
        cache_changed(outcomes) <==> state_of_run(outcomes) == RefreshState::Done,
{
    if state_of_run(outcomes) == RefreshState::Done {
        lemma_run_shape(outcomes);
        lemma_three_successes(outcomes.take(3));
        assert(cache_changed_at(outcomes, 3));
    }
    if cache_changed(outcomes) {
        let k = choose|k: int| cache_changed_at(outcomes, k);
        lemma_run_shape(outcomes.take(k));
        assert(outcomes.take(k + 1).drop_last() == outcomes.take(k));
        assert(outcomes.take(k + 1).last() == outcomes[k]);
        assert(state_of_run(outcomes.take(k + 1)) == RefreshState::Done);
        lemma_done_stays_done(outcomes, k + 1);
    }
}

/// The cache file is touched only once the new content is safely in the
/// temporary file: whenever the step that changes the cache file is pending,
/// the directory was made, the statistics were fetched and the temporary
/// file was written, each with success.
pub proof fn lemma_cache_touched_only_after_write(outcomes: Seq<bool>)
    requires
        state_of_run(outcomes) matches RefreshState::Pending(step) && touches_cache(step),
    ensures
        outcomes.len() == 3,
        outcomes[0] && outcomes[1] && outcomes[2],
{
    lemma_run_shape(outcomes);
}

/// A refresh is done only if every one of its four steps succeeded.
pub proof fn lemma_done_means_every_step_succeeded(outcomes: Seq<bool>)
    requires
        state_of_run(outcomes) == RefreshState::Done,
    ensures
        outcomes.len() >= 4,
        outcomes[0] && outcomes[1] && outcomes[2] && outcomes[3],
{
    lemma_run_shape(outcomes);
}

/// A refresh in which any step failed, the rename included, is never done
/// and has not changed the cache file, however it is continued.
pub proof fn lemma_failure_leaves_cache_alone(outcomes: Seq<bool>, k: int)
    requires
        0 <= k < 4,
        k < outcomes.len(),
        !outcomes[k],
    ensures
        state_of_run(outcomes) is Failed,
        !cache_changed(outcomes),
{
    lemma_run_shape(outcomes);
    lemma_cache_changed_only_when_done(outcomes);
}

/// What the state tells of the run that led to it.
proof fn lemma_run_shape(outcomes: Seq<bool>)
    ensures
        match state_of_run(outcomes) {
            RefreshState::Pending(RefreshStep::CreateDirectory) => outcomes.len() == 0,
            RefreshState::Pending(RefreshStep::Download) => outcomes.len() == 1 && outcomes[0],
            RefreshState::Pending(RefreshStep::WriteTemporary) => outcomes.len() == 2
                && outcomes[0] && outcomes[1],
            RefreshState::Pending(RefreshStep::Replace) => outcomes.len() == 3 && outcomes[0]
                && outcomes[1] && outcomes[2],
            RefreshState::Done => outcomes.len() >= 4 && outcomes[0] && outcomes[1]
                && outcomes[2] && outcomes[3],
            RefreshState::Failed(RefreshStep::CreateDirectory) => outcomes.len() >= 1
                && !outcomes[0],
            RefreshState::Failed(RefreshStep::Download) => outcomes.len() >= 2 && outcomes[0]
                && !outcomes[1],
            RefreshState::Failed(RefreshStep::WriteTemporary) => outcomes.len() >= 3
                && outcomes[0] && outcomes[1] && !outcomes[2],
            RefreshState::Failed(RefreshStep::Replace) => outcomes.len() >= 4 && outcomes[0]
                && outcomes[1] && outcomes[2] && !outcomes[3],
        },
    decreases outcomes.len(),
{
    if outcomes.len() > 0 {
        let front = outcomes.drop_last();
        lemma_run_shape(front);
        assert(forall|i: int| 0 <= i < front.len() ==> front[i] == outcomes[i]);
    }
}

/// After three successes the rename is pending.
proof fn lemma_three_successes(outcomes: Seq<bool>)
    requires
        outcomes.len() == 3,
        outcomes[0] && outcomes[1] && outcomes[2],
    ensures
        state_of_run(outcomes) == RefreshState::Pending(RefreshStep::Replace),
{
    let two = outcomes.drop_last();
    let one = two.drop_last();
    let none = one.drop_last();
    assert(state_of_run(none) == RefreshState::Pending(RefreshStep::CreateDirectory));
    assert(one.last() == outcomes[0]);
    assert(state_of_run(one) == RefreshState::Pending(RefreshStep::Download));
    assert(two.last() == outcomes[1]);
    assert(state_of_run(two) == RefreshState::Pending(RefreshStep::WriteTemporary));
}

/// A refresh that is done after its first `k` outcomes is done after all of
/// them.
proof fn lemma_done_stays_done(outcomes: Seq<bool>, k: int)
    requires
        0 <= k <= outcomes.len(),
        state_of_run(outcomes.take(k)) == RefreshState::Done,
    ensures
        state_of_run(outcomes) == RefreshState::Done,
    decreases outcomes.len() - k,
{
    if k == outcomes.len() {
        assert(outcomes.take(k) == outcomes);
    } else {
        assert(outcomes.take(k + 1).drop_last() == outcomes.take(k));
        lemma_done_stays_done(outcomes, k + 1);
    }
}

} // verus!
