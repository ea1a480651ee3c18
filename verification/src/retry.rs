//! The retry rule for one segment, as a state machine without a clock.
//!
//! The caller makes the attempts and sleeps; the machine decides what comes
//! next after each attempt.

use vstd::prelude::*;
use crate::error::PipelineError;

verus! {

/// Seconds to wait before an attempt is repeated.
pub const BACKOFF_SECONDS: u64 = 1;

/// Where the fetch of one segment stands.
#[derive(Clone, Copy, Debug, PartialEq, Eq, Structural)]
pub enum RetryState {
    /// An attempt is due; the number counts the attempts that have failed.
    Attempting(u32),
    /// The segment was fetched.
    Succeeded,
    /// The retry budget is spent.
    Failed,
}

/// What the caller does after an attempt.
#[derive(Clone, Copy, Debug, PartialEq, Eq, Structural)]
pub enum RetryAction {
    /// Write the received bytes to the destination path.
    Store,
    /// Wait `BACKOFF_SECONDS`, then attempt again.
    Backoff,
    /// Report that the retries are exhausted; write nothing.
    GiveUp,
    /// Nothing: the machine had already stopped.
    Ignore,
}

/// The state after an attempt that was made in `state` and that fetched the
/// segment (`fetched`) or failed. A stopped machine stays as it is.
pub open spec fn next_state(state: RetryState, fetched: bool, max_retries: u32) -> RetryState {
    match state {
        RetryState::Attempting(failures) => if fetched {
            RetryState::Succeeded
        } else if failures < max_retries {
            RetryState::Attempting((failures + 1) as u32)
        } else {
            RetryState::Failed
        },
        stopped => stopped,
    }
}

/// The action that goes with that step.
pub open spec fn action_after(state: RetryState, fetched: bool, max_retries: u32) -> RetryAction {
    match state {
        RetryState::Attempting(failures) => if fetched {
            RetryAction::Store
        } else if failures < max_retries {
            RetryAction::Backoff
        } else {
            RetryAction::GiveUp
        },
        _ => RetryAction::Ignore,
    }
}

/// The state after the attempts whose outcomes are `outcomes`, in order,
/// starting in `state`.
pub open spec fn state_after(state: RetryState, outcomes: Seq<bool>, max_retries: u32) -> RetryState
    decreases outcomes.len(),
{
    if outcomes.len() == 0 {
        state
    } else {
        next_state(
            state_after(state, outcomes.drop_last(), max_retries),
            outcomes.last(),
            max_retries,
        )
    }
}

/// The state in which every fetch starts.
pub fn start() -> (state: RetryState)
    ensures
        state == RetryState::Attempting(0),
{
    RetryState::Attempting(0)
}

/// Whether an attempt is due in `state`.
pub fn is_attempting(state: RetryState) -> (b: bool)
    ensures
        b == (state is Attempting),
{
    match state {
        RetryState::Attempting(_) => true,
        _ => false,
    }
}

/// Takes the outcome of one attempt and says what state follows and what the
/// caller does now.
pub fn step(state: RetryState, fetched: bool, max_retries: u32) -> (r: (RetryState, RetryAction))
    ensures
        r.0 == next_state(state, fetched, max_retries),
        r.1 == action_after(state, fetched, max_retries),
{
    match state {
        RetryState::Attempting(failures) => {
            if fetched {
                (RetryState::Succeeded, RetryAction::Store)
            } else if failures < max_retries {
                (RetryState::Attempting(failures + 1), RetryAction::Backoff)
            } else {
                (RetryState::Failed, RetryAction::GiveUp)
            }
        },
        RetryState::Succeeded => (RetryState::Succeeded, RetryAction::Ignore),
        RetryState::Failed => (RetryState::Failed, RetryAction::Ignore),
    }
}

/// The error that a fetch of `url` ends with: none unless the machine has
/// failed, and then the exhausted retries with the last attempt's error.
pub fn failure_of(state: RetryState, url: &str, last_error: &str) -> (e: Option<PipelineError>)
    ensures
        state is Failed ==> (e matches Some(PipelineError::RetriesExhausted { url: u, last_error: l })
            && u@ == url@ && l@ == last_error@),
        !(state is Failed) ==> e is None,
{
    match state {
        RetryState::Failed => Some(
            PipelineError::RetriesExhausted {
                url: url.to_owned(),
                last_error: last_error.to_owned(),
            },
        ),
        _ => None,
    }
}

/// Runs the machine from the start over a recorded list of outcomes.
pub fn replay(outcomes: &Vec<bool>, max_retries: u32) -> (state: RetryState)
    ensures
        state == state_after(RetryState::Attempting(0), outcomes@, max_retries),
{
    let mut state = start();
    let mut i: usize = 0;
    while i < outcomes.len()
        invariant
            i <= outcomes@.len(),
            state == state_after(RetryState::Attempting(0), outcomes@.take(i as int), max_retries),
        decreases outcomes@.len() - i,
    {
        assert(outcomes@.take(i + 1).drop_last() =~= outcomes@.take(i as int));
        let (next, _) = step(state, outcomes[i], max_retries);
        state = next;
        i += 1;
    }
    assert(outcomes@.take(outcomes@.len() as int) =~= outcomes@);
    state
}

/// After nothing but failures the machine still attempts while the failures
/// are within the budget, and has failed once they exceed it.
pub proof fn lemma_after_failures(outcomes: Seq<bool>, max_retries: u32)
    requires
        forall|k: int| 0 <= k < outcomes.len() ==> !outcomes[k],
    ensures
        outcomes.len() <= max_retries ==> state_after(
            RetryState::Attempting(0),
            outcomes,
            max_retries,
        ) == RetryState::Attempting(outcomes.len() as u32),
        outcomes.len() > max_retries ==> state_after(
            RetryState::Attempting(0),
            outcomes,
            max_retries,
        ) == RetryState::Failed,
    decreases outcomes.len(),
{
    if outcomes.len() > 0 {
        let head = outcomes.drop_last();
        assert forall|k: int| 0 <= k < head.len() implies !head[k] by {
            assert(head[k] == outcomes[k]);
        }
        lemma_after_failures(head, max_retries);
    }
}

/// The retry bound: a fetch that fails `max_retries` times and then succeeds
/// is accepted, and the bytes of that last attempt are stored; one that fails
/// `max_retries + 1` times has failed, and nothing is stored for it.
pub proof fn lemma_retry_bound(outcomes: Seq<bool>, max_retries: u32)
    requires
        outcomes.len() == max_retries + 1,
        forall|k: int| 0 <= k < max_retries ==> !outcomes[k],
    ensures
        state_after(RetryState::Attempting(0), outcomes.drop_last(), max_retries)
            == RetryState::Attempting(max_retries),
        outcomes.last() ==> state_after(RetryState::Attempting(0), outcomes, max_retries)
            == RetryState::Succeeded && action_after(
            RetryState::Attempting(max_retries),
            true,
            max_retries,
        ) == RetryAction::Store,
        !outcomes.last() ==> state_after(RetryState::Attempting(0), outcomes, max_retries)
            == RetryState::Failed && action_after(
            RetryState::Attempting(max_retries),
            false,
            max_retries,
        ) == RetryAction::GiveUp,
{
    let head = outcomes.drop_last();
    assert forall|k: int| 0 <= k < head.len() implies !head[k] by {
        assert(head[k] == outcomes[k]);
    }
    lemma_after_failures(head, max_retries);
}

/// Bytes are stored on the step that reaches `Succeeded` and on no other: a
/// failed attempt never stores, and the step into `Failed` gives up.
pub proof fn lemma_store_only_on_success(state: RetryState, fetched: bool, max_retries: u32)
    ensures
        action_after(state, fetched, max_retries) == RetryAction::Store <==> (state is Attempting
            && next_state(state, fetched, max_retries) == RetryState::Succeeded),
        !fetched ==> action_after(state, fetched, max_retries) != RetryAction::Store,
        action_after(state, fetched, max_retries) == RetryAction::GiveUp <==> (state is Attempting
            && next_state(state, fetched, max_retries) == RetryState::Failed),
{
}

/// The machine never makes more than `max_retries + 1` attempts: once that
/// many outcomes are in, it has stopped.
pub proof fn lemma_attempts_bounded(outcomes: Seq<bool>, max_retries: u32)
    requires
        outcomes.len() > max_retries,
    ensures
        !(state_after(RetryState::Attempting(0), outcomes, max_retries) is Attempting),
{
    lemma_failures_counted(outcomes, max_retries);
}

/// While the machine still attempts, every outcome so far was a failure and
/// the state counts them.
pub proof fn lemma_failures_counted(outcomes: Seq<bool>, max_retries: u32)
    ensures
        state_after(RetryState::Attempting(0), outcomes, max_retries) matches RetryState::Attempting(
            failures,
        ) ==> failures == outcomes.len() && failures <= max_retries && forall|k: int|
            0 <= k < outcomes.len() ==> !outcomes[k],
    decreases outcomes.len(),
{
    if outcomes.len() > 0 {
        let head = outcomes.drop_last();
        lemma_failures_counted(head, max_retries);
        if state_after(RetryState::Attempting(0), outcomes, max_retries) is Attempting {
            assert forall|k: int| 0 <= k < outcomes.len() implies !outcomes[k] by {
                if k < head.len() {
                    assert(outcomes[k] == head[k]);
                }
            }
        }
    }
}

} // verus!
