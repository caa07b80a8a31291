//! The verdict on an extraction, from the outcomes of its workers.

use vstd::prelude::*;

verus! {

/// How one worker ended.
#[derive(Clone, Copy, Debug, PartialEq, Eq, Structural)]
pub enum WorkerOutcome {
    /// The worker went through its whole chunk.
    Completed { extracted: usize, skipped: usize },
    /// The worker gave up on a hash of its chunk.
    Failed,
    /// The worker's thread ended without a result.
    Panicked,
}

/// The outcome of an extraction as a whole.
#[derive(Clone, Copy, Debug, PartialEq, Eq, Structural)]
pub struct ExtractionSummary {
    /// Whether every worker went through its whole chunk.
    pub success: bool,
    /// How many resources the completed workers extracted.
    pub extracted: usize,
    /// How many resources the completed workers left alone.
    pub skipped: usize,
    /// How many workers did not complete.
    pub failed: usize,
}

/// Every worker went through its whole chunk.
pub open spec fn all_completed(outcomes: Seq<WorkerOutcome>) -> bool {
    forall|i: int| 0 <= i < outcomes.len() ==> (#[trigger] outcomes[i]) is Completed
}

/// What one worker extracted; nothing is counted for one that did not
/// complete.
pub open spec fn extracted_by(outcome: WorkerOutcome) -> nat {
    match outcome {
        WorkerOutcome::Completed { extracted, skipped } => extracted as nat,
        _ => 0,
    }
}

/// What one worker left alone; nothing is counted for one that did not
/// complete.
pub open spec fn skipped_by(outcome: WorkerOutcome) -> nat {
    match outcome {
        WorkerOutcome::Completed { extracted, skipped } => skipped as nat,
        _ => 0,
    }
}

/// How many resources the workers extracted between them.
pub open spec fn total_extracted(outcomes: Seq<WorkerOutcome>) -> nat
    decreases outcomes.len(),
{
    if outcomes.len() == 0 {
        0
    } else {
        total_extracted(outcomes.drop_last()) + extracted_by(outcomes.last())
    }
}

/// How many resources the workers left alone between them.
pub open spec fn total_skipped(outcomes: Seq<WorkerOutcome>) -> nat
    decreases outcomes.len(),
{
    if outcomes.len() == 0 {
        0
    } else {
        total_skipped(outcomes.drop_last()) + skipped_by(outcomes.last())
    }
}

/// How many workers did not complete.
pub open spec fn total_failed(outcomes: Seq<WorkerOutcome>) -> nat
    decreases outcomes.len(),
{
    if outcomes.len() == 0 {
        0
    } else if outcomes.last() is Completed {
        total_failed(outcomes.drop_last())
    } else {
        total_failed(outcomes.drop_last()) + 1
    }
}

/// A count as far as a machine word can hold it.
pub open spec fn saturated(count: nat) -> usize {
    if count > usize::MAX {
        usize::MAX
    } else {
        count as usize
    }
}

/// No worker failed exactly when every worker completed.
pub proof fn lemma_failed_none_iff_all_completed(outcomes: Seq<WorkerOutcome>)
    ensures
        total_failed(outcomes) == 0 <==> all_completed(outcomes),
        total_failed(outcomes) <= outcomes.len(),
    decreases outcomes.len(),
{
    if outcomes.len() > 0 {
        let init = outcomes.drop_last();
        lemma_failed_none_iff_all_completed(init);
        if all_completed(outcomes) {
            assert forall|i: int| 0 <= i < init.len() implies (#[trigger] init[i]) is Completed by {
                assert(outcomes[i] is Completed);
            }
        }
        if total_failed(outcomes) == 0 {
            assert forall|i: int| 0 <= i < outcomes.len() implies (#[trigger] outcomes[i])
                is Completed by {
                if i < init.len() {
                    assert(init[i] is Completed);
                }
            }
        }
    }
}

/// All-or-nothing: one worker that did not complete makes the extraction a
/// failure, whatever the others achieved.
pub proof fn law_one_failure_fails_all(outcomes: Seq<WorkerOutcome>, failed: int)
    requires
        0 <= failed < outcomes.len(),
        !(outcomes[failed] is Completed),
    ensures
        !all_completed(outcomes),
{
}

fn add_saturating(count: usize, more: usize) -> (sum: usize)
    ensures
        sum == saturated((count + more) as nat),
{
    if count > usize::MAX - more {
        usize::MAX
    } else {
        count + more
    }
}

/// Sums up an extraction.
///
/// The extraction has succeeded exactly when every worker completed. The
/// counts are for the record: they do not change the verdict.
pub fn aggregate(outcomes: &Vec<WorkerOutcome>) -> (summary: ExtractionSummary)
    ensures
        summary.success == all_completed(outcomes@),
        summary.extracted == saturated(total_extracted(outcomes@)),
        summary.skipped == saturated(total_skipped(outcomes@)),
        summary.failed == total_failed(outcomes@),
{
    let mut extracted: usize = 0;
    let mut skipped: usize = 0;
    let mut failed: usize = 0;
    let mut i: usize = 0;
    while i < outcomes.len()
        invariant
            i <= outcomes.len(),
            extracted == saturated(total_extracted(outcomes@.take(i as int))),
            skipped == saturated(total_skipped(outcomes@.take(i as int))),
            failed == total_failed(outcomes@.take(i as int)),
            failed <= i,
        decreases outcomes.len() - i,
    {
        assert(outcomes@.take(i + 1).drop_last() =~= outcomes@.take(i as int));
        assert(outcomes@.take(i + 1).last() == outcomes@[i as int]);
        match outcomes[i] {
            WorkerOutcome::Completed { extracted: more, skipped: left } => {
                extracted = add_saturating(extracted, more);
                skipped = add_saturating(skipped, left);
            },
            _ => {
                failed = failed + 1;
            },
        }
        i = i + 1;
    }
    assert(outcomes@.take(i as int) =~= outcomes@);
    proof {
        lemma_failed_none_iff_all_completed(outcomes@);
    }
    ExtractionSummary { success: failed == 0, extracted, skipped, failed }
}

/// The status that an extraction reports to its caller: 0 for success, -1
/// for failure.
pub fn status_code(summary: &ExtractionSummary) -> (code: i32)
    ensures
        code == (if summary.success {
            0i32
        } else {
            -1i32
        }),
{
    if summary.success {
        0
    } else {
        -1
    }
}

} // verus!
