//! Batches: which tasks run together, and when a run stops.
//!
//! Tasks are numbered from 0 in playlist order. A batch is a range of
//! consecutive tasks; the caller runs the tasks of one batch concurrently,
//! waits for all of them, and hands their results back before it asks for the
//! next batch.

use vstd::prelude::*;

verus! {

/// The tasks `start..end`, dispatched together.
#[derive(Clone, Copy, Debug, PartialEq, Eq, Structural)]
pub struct Batch {
    pub start: usize,
    pub end: usize,
}

/// What follows a finished batch.
#[derive(Clone, Copy, Debug, PartialEq, Eq, Structural)]
pub enum BatchVerdict {
    /// Every task succeeded; the next batch starts at `next`.
    Continue { next: usize },
    /// The task `failed` did not succeed; no further batch is dispatched.
    Abort { failed: usize },
}

/// How a whole run ends.
#[derive(Clone, Copy, Debug, PartialEq, Eq, Structural)]
pub enum RunOutcome {
    /// Every task of every batch succeeded.
    Completed,
    /// The task `failed` did not succeed. The tasks before `requested` were
    /// dispatched, no other was.
    Aborted { failed: usize, requested: usize },
}

/// Where the batch that starts at `from` ends: `batch_size` tasks further, or
/// at `total` where fewer are left.
pub open spec fn batch_end(total: int, batch_size: int, from: int) -> int {
    if total - from <= batch_size {
        total
    } else {
        from + batch_size
    }
}

/// The first task among `from..to` that did not succeed (`ok` is false), or
/// `to` where all did.
pub open spec fn first_failure(ok: Seq<bool>, from: int, to: int) -> int
    decreases to - from,
{
    if from >= to || !ok[from] {
        from
    } else {
        first_failure(ok, from + 1, to)
    }
}

/// The verdict on the batch that starts at `start` and whose tasks ended as
/// `results` says, in the batch's order.
pub open spec fn verdict_of(start: int, results: Seq<bool>) -> BatchVerdict {
    let failed = first_failure(results, 0, results.len() as int);
    if failed < results.len() {
        BatchVerdict::Abort { failed: (start + failed) as usize }
    } else {
        BatchVerdict::Continue { next: (start + results.len()) as usize }
    }
}

/// How a run ends that starts with the batch at `from`, where `ok[k]` says
/// whether task `k` succeeds once it is dispatched.
pub open spec fn outcome_from(ok: Seq<bool>, batch_size: int, from: int) -> RunOutcome
    decreases ok.len() - from,
{
    let end = batch_end(ok.len() as int, batch_size, from);
    let failed = first_failure(ok, from, end);
    if from >= ok.len() || batch_size <= 0 || from < 0 {
        RunOutcome::Completed
    } else if failed < end {
        RunOutcome::Aborted { failed: failed as usize, requested: end as usize }
    } else {
        outcome_from(ok, batch_size, end)
    }
}

/// The number of tasks that a run dispatches.
pub open spec fn requested(ok: Seq<bool>, batch_size: int) -> int {
    match outcome_from(ok, batch_size, 0) {
        RunOutcome::Completed => ok.len() as int,
        RunOutcome::Aborted { requested, .. } => requested as int,
    }
}

/// `first_failure` lies in the range, everything before it succeeded and it
/// did not.
pub proof fn lemma_first_failure(ok: Seq<bool>, from: int, to: int)
    requires
        from <= to,
    ensures
        from <= first_failure(ok, from, to) <= to,
        forall|k: int| from <= k < first_failure(ok, from, to) ==> ok[k],
        first_failure(ok, from, to) < to ==> !ok[first_failure(ok, from, to)],
    decreases to - from,
{
    if from >= to || !ok[from] {
    } else {
        lemma_first_failure(ok, from + 1, to);
    }
}

/// The batch that starts at `from`, or `None` where no task is left.
pub fn next_batch(total: usize, batch_size: usize, from: usize) -> (batch: Option<Batch>)
    requires
        batch_size > 0,
    ensures
        from >= total ==> batch is None,
        from < total ==> (batch matches Some(b) && b.start == from && b.end == batch_end(
            total as int,
            batch_size as int,
            from as int,
        )),
        batch matches Some(b) ==> b.start < b.end <= total && b.end - b.start <= batch_size,
{
    if from >= total {
        None
    } else if total - from <= batch_size {
        Some(Batch { start: from, end: total })
    } else {
        Some(Batch { start: from, end: from + batch_size })
    }
}

/// Finds the first task among `from..to` that did not succeed.
pub fn find_failure(ok: &Vec<bool>, from: usize, to: usize) -> (at: usize)
    requires
        from <= to <= ok@.len(),
    ensures
        at == first_failure(ok@, from as int, to as int),
        from <= at <= to,
{
    let mut i: usize = from;
    proof {
        lemma_first_failure(ok@, from as int, to as int);
    }
    while i < to && ok[i]
        invariant
            from <= i <= to <= ok@.len(),
            first_failure(ok@, from as int, to as int) == first_failure(ok@, i as int, to as int),
        decreases to - i,
    {
        i += 1;
    }
    i
}

/// Judges a finished batch that started at `start`: the run goes on where
/// every task succeeded, and stops at the first task in the batch's order that
/// did not.
pub fn judge_batch(start: usize, results: &Vec<bool>) -> (verdict: BatchVerdict)
    requires
        start + results@.len() <= usize::MAX,
    ensures
        verdict == verdict_of(start as int, results@),
{
    let failed = find_failure(results, 0, results.len());
    if failed < results.len() {
        BatchVerdict::Abort { failed: start + failed }
    } else {
        BatchVerdict::Continue { next: start + results.len() }
    }
}

/// Plays a whole run on known results: `ok[k]` says whether task `k` succeeds
/// once it is dispatched.
pub fn simulate(ok: &Vec<bool>, batch_size: usize) -> (outcome: RunOutcome)
    requires
        batch_size > 0,
    ensures
        outcome == outcome_from(ok@, batch_size as int, 0),
{
    let mut from: usize = 0;
    loop
        invariant
            batch_size > 0,
            from <= ok@.len(),
            outcome_from(ok@, batch_size as int, 0) == outcome_from(
                ok@,
                batch_size as int,
                from as int,
            ),
        decreases ok@.len() - from,
    {
        match next_batch(ok.len(), batch_size, from) {
            None => {
                return RunOutcome::Completed;
            },
            Some(batch) => {
                let failed = find_failure(ok, batch.start, batch.end);
                if failed < batch.end {
                    return RunOutcome::Aborted { failed, requested: batch.end };
                }
                from = batch.end;
            },
        }
    }
}

/// The number of the batch that holds `task`.
pub open spec fn batch_of(task: int, batch_size: int) -> int {
    task / batch_size
}

/// A run whose batch at `from`, the batch number `index`, comes no later than
/// the batch of a failing task `k` is aborted, in the batch of `k` at the
/// latest.
proof fn lemma_abort_from(ok: Seq<bool>, batch_size: int, k: int, from: int, index: int)
    requires
        batch_size > 0,
        ok.len() <= usize::MAX,
        0 <= k < ok.len(),
        !ok[k],
        0 <= index <= batch_of(k, batch_size),
        from == index * batch_size,
    ensures
        outcome_from(ok, batch_size, from) matches RunOutcome::Aborted { failed, requested }
            && from <= failed <= k && !ok[failed as int] && requested <= ok.len() && requested <= (
        batch_of(k, batch_size) + 1) * batch_size,
    decreases ok.len() - from,
{
    let last = batch_of(k, batch_size);
    assert(last * batch_size <= k < (last + 1) * batch_size) by (nonlinear_arith)
        requires
            last == k / batch_size,
            batch_size > 0,
            k >= 0,
    ;
    assert(index * batch_size <= last * batch_size && (index + 1) * batch_size <= (last + 1)
        * batch_size && (index + 1) * batch_size == index * batch_size + batch_size
        && index * batch_size >= 0) by (nonlinear_arith)
        requires
            0 <= index <= last,
            batch_size > 0,
    ;
    let end = batch_end(ok.len() as int, batch_size, from);
    lemma_first_failure(ok, from, end);
    let failed = first_failure(ok, from, end);
    if k < end {
        if failed > k {
            assert(ok[k]);
        }
    } else if failed < end {
    } else {
        assert(end == from + batch_size);
        assert(index + 1 <= last) by (nonlinear_arith)
            requires
                (index + 1) * batch_size <= k,
                k < (last + 1) * batch_size,
                batch_size > 0,
        ;
        lemma_abort_from(ok, batch_size, k, end, index + 1);
    }
}

/// Abort on failure: where task `k` does not succeed, the run is aborted at
/// `k` or at a failing task before it, and no task of a batch that comes after
/// the batch of `k` is ever dispatched.
pub proof fn lemma_abort_stops_later_batches(ok: Seq<bool>, batch_size: int, k: int)
    requires
        batch_size > 0,
        ok.len() <= usize::MAX,
        0 <= k < ok.len(),
        !ok[k],
    ensures
        outcome_from(ok, batch_size, 0) matches RunOutcome::Aborted { failed, requested: upto }
            && failed <= k && !ok[failed as int] && upto == requested(ok, batch_size),
        requested(ok, batch_size) <= ok.len(),
        forall|j: int|
            0 <= j && batch_of(j, batch_size) > batch_of(k, batch_size) ==> j >= requested(
                ok,
                batch_size,
            ),
{
    let last = batch_of(k, batch_size);
    assert(0 <= last) by (nonlinear_arith)
        requires
            last == k / batch_size,
            batch_size > 0,
            k >= 0,
    ;
    assert(0 * batch_size == 0) by (nonlinear_arith);
    lemma_abort_from(ok, batch_size, k, 0, 0);
    assert forall|j: int| 0 <= j && batch_of(j, batch_size) > last implies j >= requested(
        ok,
        batch_size,
    ) by {
        let own = batch_of(j, batch_size);
        assert(j >= (last + 1) * batch_size) by (nonlinear_arith)
            requires
                own == j / batch_size,
                own >= last + 1,
                batch_size > 0,
                j >= 0,
        ;
    }
}

/// A run in which every task succeeds is completed, and dispatches them all.
pub proof fn lemma_all_succeed(ok: Seq<bool>, batch_size: int, from: int)
    requires
        batch_size > 0,
        0 <= from,
        forall|k: int| 0 <= k < ok.len() ==> ok[k],
    ensures
        outcome_from(ok, batch_size, from) == RunOutcome::Completed,
    decreases ok.len() - from,
{
    if from < ok.len() {
        let end = batch_end(ok.len() as int, batch_size, from);
        lemma_first_failure(ok, from, end);
        lemma_all_succeed(ok, batch_size, end);
    }
}

} // verus!
