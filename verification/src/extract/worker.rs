//! One extraction worker, as a state machine.
//!
//! A worker goes through its chunk of hashes in order. For each hash it has
//! the caller look at two files' modification times, then, unless the output
//! is fresh, has the package file opened (once per file), the resource read
//! and the output written. The worker itself touches no file: it says what is
//! to be done next, and is told how that went.

use crate::extract::freshness::{fresh, is_fresh};
use crate::extract::partition_cache::{
    lemma_slot_of, lemma_with_keeps_wf, PartitionCache, PartitionCacheView,
};
use crate::extract::rpkg_extraction::{output_name, RpkgExtraction};
use crate::package::package_scan::{locate, PackageScan};
use crate::partition::{Partition, PartitionView};
use crate::resource_id::{parse_id, ResourceId};
use vstd::prelude::*;

verus! {

/// Why a worker gave up on its chunk.
#[derive(Clone, Copy, Debug, PartialEq, Eq, Structural)]
pub enum WorkerFailure {
    /// The hash is not the text of a resource identifier.
    InvalidHash,
    /// No partition holds the resource.
    NotFound,
    /// The package file could not be opened or parsed.
    PartitionUnreadable,
    /// The resource could not be read from its package.
    ResourceUnreadable,
    /// The output file could not be written.
    OutputUnwritable,
    /// The worker was told of something it had not asked for.
    UnexpectedEvent,
}

/// What is to be done for one hash: which resource to read, from which
/// package file, into which output file.
#[derive(Debug)]
pub struct ItemPlan {
    pub id: ResourceId,
    pub partition_file: String,
    pub output_file: String,
}

/// The mathematical form of an [`ItemPlan`].
pub struct ItemPlanView {
    pub id: ResourceId,
    pub partition_file: Seq<char>,
    pub output_file: Seq<char>,
}

impl View for ItemPlan {
    type V = ItemPlanView;

    open spec fn view(&self) -> ItemPlanView {
        ItemPlanView {
            id: self.id,
            partition_file: self.partition_file@,
            output_file: self.output_file@,
        }
    }
}

/// What a worker asks its caller to do next.
#[derive(Debug)]
pub enum WorkerAction {
    /// Look up when the output file and the package file were last modified.
    CheckFreshness { output_file: String, partition_file: String },
    /// Open and parse a package file that the worker has not opened yet.
    OpenPartition { partition_file: String },
    /// Read a resource through the handle in a slot of the worker's cache.
    ReadResource { slot: usize, id: ResourceId },
    /// Write the bytes just read to the output file.
    WriteOutput { output_file: String },
    /// The chunk is done.
    Finish { extracted: usize, skipped: usize },
    /// The worker has failed at the given hash; the rest of its chunk stays
    /// undone.
    Abort { reason: WorkerFailure, hash: String },
}

/// The mathematical form of a [`WorkerAction`].
pub enum WorkerActionView {
    CheckFreshness { output_file: Seq<char>, partition_file: Seq<char> },
    OpenPartition { partition_file: Seq<char> },
    ReadResource { slot: int, id: ResourceId },
    WriteOutput { output_file: Seq<char> },
    Finish { extracted: nat, skipped: nat },
    Abort { reason: WorkerFailure, hash: Seq<char> },
}

impl View for WorkerAction {
    type V = WorkerActionView;

    open spec fn view(&self) -> WorkerActionView {
        match self {
            WorkerAction::CheckFreshness { output_file, partition_file } => {
                WorkerActionView::CheckFreshness {
                    output_file: output_file@,
                    partition_file: partition_file@,
                }
            },
            WorkerAction::OpenPartition { partition_file } => WorkerActionView::OpenPartition {
                partition_file: partition_file@,
            },
            WorkerAction::ReadResource { slot, id } => WorkerActionView::ReadResource {
                slot: *slot as int,
                id: *id,
            },
            WorkerAction::WriteOutput { output_file } => WorkerActionView::WriteOutput {
                output_file: output_file@,
            },
            WorkerAction::Finish { extracted, skipped } => WorkerActionView::Finish {
                extracted: *extracted as nat,
                skipped: *skipped as nat,
            },
            WorkerAction::Abort { reason, hash } => WorkerActionView::Abort {
                reason: *reason,
                hash: hash@,
            },
        }
    }
}

impl WorkerActionView {
    /// The action touches a package file or an output file.
    pub open spec fn touches_files(self) -> bool {
        self is OpenPartition || self is ReadResource || self is WriteOutput
    }
}

/// What a worker is told after its caller did what was asked.
pub enum WorkerEvent<H> {
    /// The modification times of the output file and of the package file, in
    /// nanoseconds since the Unix epoch; `None` for a file that is missing or
    /// whose time cannot be read.
    Modified { output: Option<u128>, source: Option<u128> },
    /// The handle of the package file just opened, or `None` if that failed.
    Opened(Option<H>),
    /// Whether the resource was read.
    ResourceRead(bool),
    /// Whether the output file was written.
    OutputWritten(bool),
}

/// Where a worker stands with the hash it is working on.
enum Phase {
    Freshness(ItemPlan),
    Opening(ItemPlan),
    Reading(ItemPlan, usize),
    Writing(ItemPlan),
    Finished,
    Failed(WorkerFailure),
}

/// The mathematical form of a worker's standing.
pub enum PhaseView {
    /// Waiting for the modification times.
    Freshness(ItemPlanView),
    /// Waiting for the package file to be opened.
    Opening(ItemPlanView),
    /// Waiting for the resource to be read through the handle in a slot.
    Reading(ItemPlanView, int),
    /// Waiting for the output file to be written.
    Writing(ItemPlanView),
    /// Every hash of the chunk is done.
    Finished,
    /// The worker has given up.
    Failed(WorkerFailure),
}

impl View for Phase {
    type V = PhaseView;

    closed spec fn view(&self) -> PhaseView {
        match self {
            Phase::Freshness(plan) => PhaseView::Freshness(plan@),
            Phase::Opening(plan) => PhaseView::Opening(plan@),
            Phase::Reading(plan, slot) => PhaseView::Reading(plan@, *slot as int),
            Phase::Writing(plan) => PhaseView::Writing(plan@),
            Phase::Finished => PhaseView::Finished,
            Phase::Failed(reason) => PhaseView::Failed(*reason),
        }
    }
}

/// What is to be done for a hash: the hash has to be the text of an
/// identifier, and some partition has to hold the resource.
pub open spec fn plan_of(
    partitions: Seq<PartitionView>,
    hash: Seq<char>,
    resource_type: Seq<char>,
) -> Result<ItemPlanView, WorkerFailure> {
    match parse_id(hash) {
        Err(_) => Err(WorkerFailure::InvalidHash),
        Ok(id) => match locate(partitions, id) {
            None => Err(WorkerFailure::NotFound),
            Some(located) => Ok(
                ItemPlanView {
                    id,
                    partition_file: located.last_partition,
                    output_file: output_name(hash, resource_type),
                },
            ),
        },
    }
}

/// Plans the extraction of one hash.
pub fn plan_item(partitions: &Vec<Partition>, hash: &str, resource_type: &str) -> (r: Result<
    ItemPlan,
    WorkerFailure,
>)
    ensures
        match r {
            Ok(plan) => plan_of(partitions.deep_view(), hash@, resource_type@) == Ok::<
                ItemPlanView,
                WorkerFailure,
            >(plan@),
            Err(reason) => plan_of(partitions.deep_view(), hash@, resource_type@) == Err::<
                ItemPlanView,
                WorkerFailure,
            >(reason),
        },
{
    let id = match ResourceId::from_hex_string(hash) {
        Ok(id) => id,
        Err(_) => {
            return Err(WorkerFailure::InvalidHash);
        },
    };
    match PackageScan::get_resource_info(partitions, &id) {
        None => Err(WorkerFailure::NotFound),
        Some(located) => Ok(
            ItemPlan {
                id,
                partition_file: located.last_partition,
                output_file: RpkgExtraction::output_file_name(hash, resource_type),
            },
        ),
    }
}

/// The mathematical form of a [`Worker`].
pub struct WorkerView<H> {
    /// The partitions that resources are looked up in.
    pub partitions: Seq<PartitionView>,
    /// The hashes to extract, in order.
    pub chunk: Seq<Seq<char>>,
    /// The resource type that the output files are named after.
    pub resource_type: Seq<char>,
    /// How many hashes are done.
    pub position: int,
    /// Where the worker stands with the hash at `position`.
    pub phase: PhaseView,
    /// The package files opened so far.
    pub cache: PartitionCacheView<H>,
    /// How many resources were read and written.
    pub extracted: nat,
    /// How many resources were left alone because their output was fresh.
    pub skipped: nat,
}

impl<H> WorkerView<H> {
    /// The plan for the hash at `position`.
    pub open spec fn current_plan(self) -> Result<ItemPlanView, WorkerFailure> {
        plan_of(self.partitions, self.chunk[self.position], self.resource_type)
    }

    /// The same worker in another phase.
    pub open spec fn in_phase(self, phase: PhaseView) -> WorkerView<H> {
        WorkerView { phase, ..self }
    }

    /// The counts agree with the position, the cache is in order, and the
    /// phase fits the hash at `position`.
    pub open spec fn wf(self) -> bool {
        &&& self.cache.wf()
        &&& 0 <= self.position <= self.chunk.len()
        &&& self.extracted + self.skipped == self.position
        &&& match self.phase {
            PhaseView::Freshness(plan) => self.position < self.chunk.len() && self.current_plan()
                == Ok::<ItemPlanView, WorkerFailure>(plan),
            PhaseView::Opening(plan) => self.position < self.chunk.len() && self.current_plan()
                == Ok::<ItemPlanView, WorkerFailure>(plan) && self.cache.slot_of(
                plan.partition_file,
            ) is None,
            PhaseView::Reading(plan, slot) => self.position < self.chunk.len()
                && self.current_plan() == Ok::<ItemPlanView, WorkerFailure>(plan)
                && self.cache.slot_of(plan.partition_file) == Some(slot),
            PhaseView::Writing(plan) => self.position < self.chunk.len() && self.current_plan()
                == Ok::<ItemPlanView, WorkerFailure>(plan),
            PhaseView::Finished => self.position == self.chunk.len(),
            PhaseView::Failed(_) => self.position < self.chunk.len(),
        }
    }
}

/// Turning to the hash at `position`: the chunk is done if there is none,
/// the worker fails if the hash cannot be planned, and otherwise the two
/// modification times are asked for.
pub open spec fn advance_spec<H>(w: WorkerView<H>) -> (WorkerView<H>, WorkerActionView) {
    if w.position >= w.chunk.len() {
        (
            w.in_phase(PhaseView::Finished),
            WorkerActionView::Finish { extracted: w.extracted, skipped: w.skipped },
        )
    } else {
        match w.current_plan() {
            Ok(plan) => (
                w.in_phase(PhaseView::Freshness(plan)),
                WorkerActionView::CheckFreshness {
                    output_file: plan.output_file,
                    partition_file: plan.partition_file,
                },
            ),
            Err(reason) => fail_spec(w, reason),
        }
    }
}

/// Giving up at the hash at `position`.
pub open spec fn fail_spec<H>(w: WorkerView<H>, reason: WorkerFailure) -> (
    WorkerView<H>,
    WorkerActionView,
) {
    (
        w.in_phase(PhaseView::Failed(reason)),
        WorkerActionView::Abort { reason, hash: w.chunk[w.position] },
    )
}

/// A worker at the start of its chunk, and the first thing it asks for.
pub open spec fn start_spec<H>(
    partitions: Seq<PartitionView>,
    chunk: Seq<Seq<char>>,
    resource_type: Seq<char>,
) -> (WorkerView<H>, WorkerActionView) {
    advance_spec(
        WorkerView {
            partitions,
            chunk,
            resource_type,
            position: 0,
            phase: PhaseView::Finished,
            cache: PartitionCacheView { files: Seq::empty(), handles: Seq::empty() },
            extracted: 0,
            skipped: 0,
        },
    )
}

/// The worker after one more hash is done, skipped or extracted.
pub open spec fn item_done<H>(w: WorkerView<H>, extracted: bool) -> WorkerView<H> {
    WorkerView {
        position: w.position + 1,
        extracted: if extracted {
            w.extracted + 1
        } else {
            w.extracted
        },
        skipped: if extracted {
            w.skipped
        } else {
            w.skipped + 1
        },
        ..w
    }
}

/// One step of a worker: its next state and what it asks for, given its
/// state and what it was told.
///
/// - A fresh output is skipped, and the worker turns to the next hash.
/// - A stale or missing output has the resource read, through the cached
///   handle of its package file or, the first time, after that file has been
///   opened; what was read is then written.
/// - Anything that fails ends the work on the chunk, and so does an event
///   that does not answer what the worker asked for.
/// - A worker that is done or has failed stays as it is.
pub open spec fn step_spec<H>(w: WorkerView<H>, event: WorkerEvent<H>) -> (
    WorkerView<H>,
    WorkerActionView,
) {
    match w.phase {
        PhaseView::Finished => (
            w,
            WorkerActionView::Finish { extracted: w.extracted, skipped: w.skipped },
        ),
        PhaseView::Failed(reason) => (
            w,
            WorkerActionView::Abort { reason, hash: w.chunk[w.position] },
        ),
        PhaseView::Freshness(plan) => match event {
            WorkerEvent::Modified { output, source } => if fresh(output, source) {
                advance_spec(item_done(w, false))
            } else {
                match w.cache.slot_of(plan.partition_file) {
                    Some(slot) => (
                        w.in_phase(PhaseView::Reading(plan, slot)),
                        WorkerActionView::ReadResource { slot, id: plan.id },
                    ),
                    None => (
                        w.in_phase(PhaseView::Opening(plan)),
                        WorkerActionView::OpenPartition { partition_file: plan.partition_file },
                    ),
                }
            },
            _ => fail_spec(w, WorkerFailure::UnexpectedEvent),
        },
        PhaseView::Opening(plan) => match event {
            WorkerEvent::Opened(Some(handle)) => (
                WorkerView {
                    cache: w.cache.with(plan.partition_file, handle),
                    phase: PhaseView::Reading(plan, w.cache.files.len() as int),
                    ..w
                },
                WorkerActionView::ReadResource { slot: w.cache.files.len() as int, id: plan.id },
            ),
            WorkerEvent::Opened(None) => fail_spec(w, WorkerFailure::PartitionUnreadable),
            _ => fail_spec(w, WorkerFailure::UnexpectedEvent),
        },
        PhaseView::Reading(plan, slot) => match event {
            WorkerEvent::ResourceRead(true) => (
                w.in_phase(PhaseView::Writing(plan)),
                WorkerActionView::WriteOutput { output_file: plan.output_file },
            ),
            WorkerEvent::ResourceRead(false) => fail_spec(w, WorkerFailure::ResourceUnreadable),
            _ => fail_spec(w, WorkerFailure::UnexpectedEvent),
        },
        PhaseView::Writing(plan) => match event {
            WorkerEvent::OutputWritten(true) => advance_spec(item_done(w, true)),
            WorkerEvent::OutputWritten(false) => fail_spec(w, WorkerFailure::OutputUnwritable),
            _ => fail_spec(w, WorkerFailure::UnexpectedEvent),
        },
    }
}

/// Turning to the next hash keeps a worker in order.
pub proof fn lemma_advance_keeps_wf<H>(w: WorkerView<H>)
    requires
        w.cache.wf(),
        0 <= w.position <= w.chunk.len(),
        w.extracted + w.skipped == w.position,
    ensures
        advance_spec(w).0.wf(),
        !advance_spec(w).1.touches_files(),
        advance_spec(w).0.cache == w.cache,
        advance_spec(w).0.extracted == w.extracted,
        advance_spec(w).0.skipped == w.skipped,
        advance_spec(w).0.position == w.position,
{
}

/// Turning to the next hash touches no file and changes nothing but the
/// phase.
pub open spec fn turns_quietly<H>(w: WorkerView<H>) -> bool {
    &&& advance_spec(w).0.wf()
    &&& !advance_spec(w).1.touches_files()
    &&& advance_spec(w).0.cache == w.cache
    &&& advance_spec(w).0.extracted == w.extracted
    &&& advance_spec(w).0.skipped == w.skipped
    &&& advance_spec(w).0.position == w.position
}

/// What every step has in common: it keeps the worker in order, and where it
/// ends the work on a hash, the turn to the next hash is a quiet one.
proof fn lemma_step<H>(w: WorkerView<H>, event: WorkerEvent<H>)
    requires
        w.wf(),
    ensures
        step_spec(w, event).0.wf(),
        w.phase is Freshness ==> turns_quietly(item_done(w, false)),
        w.phase is Writing ==> turns_quietly(item_done(w, true)),
{
    match w.phase {
        PhaseView::Freshness(plan) => {
            lemma_advance_keeps_wf(item_done(w, false));
        },
        PhaseView::Opening(plan) => {
            match event {
                WorkerEvent::Opened(Some(handle)) => {
                    lemma_with_keeps_wf(w.cache, plan.partition_file, handle);
                    lemma_slot_of(
                        w.cache.with(plan.partition_file, handle),
                        plan.partition_file,
                        w.cache.files.len() as int,
                    );
                },
                _ => {},
            }
        },
        PhaseView::Writing(plan) => {
            lemma_advance_keeps_wf(item_done(w, true));
        },
        _ => {},
    }
}

/// Every step keeps a worker in order.
pub proof fn law_step_keeps_wf<H>(w: WorkerView<H>, event: WorkerEvent<H>)
    requires
        w.wf(),
    ensures
        step_spec(w, event).0.wf(),
{
    lemma_step(w, event);
}

/// A fresh output is left alone: the hash counts as skipped, nothing is
/// opened, read or written for it, and the worker turns to the next hash.
pub proof fn law_fresh_item_is_skipped<H>(
    w: WorkerView<H>,
    output: Option<u128>,
    source: Option<u128>,
)
    requires
        w.wf(),
        w.phase is Freshness,
        fresh(output, source),
    ensures
        ({
            let (next, action) = step_spec(w, WorkerEvent::Modified { output, source });
            &&& next.position == w.position + 1
            &&& next.skipped == w.skipped + 1
            &&& next.extracted == w.extracted
            &&& next.cache == w.cache
            &&& !action.touches_files()
        }),
{
    lemma_step(w, WorkerEvent::Modified { output, source });
}

/// A package file is opened at most once: a worker asks for a file to be
/// opened only while the file is not in its cache, and reads only through a
/// slot that holds the file of the resource.
pub proof fn law_opens_each_file_once<H>(w: WorkerView<H>, event: WorkerEvent<H>)
    requires
        w.wf(),
    ensures
        ({
            let (next, action) = step_spec(w, event);
            &&& action matches WorkerActionView::OpenPartition { partition_file }
                ==> !next.cache.files.contains(partition_file)
            &&& action matches WorkerActionView::ReadResource { slot, id } ==> {
                &&& 0 <= slot < next.cache.files.len()
                &&& next.current_plan() is Ok
                &&& next.cache.files[slot] == next.current_plan()->Ok_0.partition_file
                &&& next.current_plan()->Ok_0.id == id
            }
        }),
{
    lemma_step(w, event);
}

/// A worker that says it is done has dealt with every hash of its chunk.
pub proof fn law_finish_accounts_for_chunk<H>(w: WorkerView<H>, event: WorkerEvent<H>)
    requires
        w.wf(),
    ensures
        step_spec(w, event).1 matches WorkerActionView::Finish { extracted, skipped } ==> extracted
            + skipped == w.chunk.len(),
{
    lemma_step(w, event);
}

/// A package file that cannot be opened is not put into the cache: the worker
/// gives up, and its cache is as it was.
pub proof fn law_failed_open_is_not_cached<H>(w: WorkerView<H>)
    requires
        w.phase is Opening,
    ensures
        step_spec(w, WorkerEvent::Opened(None)).0.cache == w.cache,
        step_spec(w, WorkerEvent::Opened(None)).0.phase == PhaseView::Failed(
            WorkerFailure::PartitionUnreadable,
        ),
        step_spec(w, WorkerEvent::Opened(None)).1 is Abort,
{
}

/// A failure is final: a worker that has given up does nothing more, whatever
/// it is told, and what it has written stays written.
pub proof fn law_failure_is_final<H>(w: WorkerView<H>, event: WorkerEvent<H>)
    requires
        w.phase is Failed,
    ensures
        step_spec(w, event).0 == w,
        step_spec(w, event).1 is Abort,
{
}

/// What a worker is told when an output file is at least as new as its
/// package file.
pub open spec fn fresh_event<H>(times: (u128, u128)) -> WorkerEvent<H> {
    WorkerEvent::Modified { output: Some(times.0), source: Some(times.1) }
}

/// A worker and its last request after it was told, one answer after the
/// other, the modification times in `times`.
pub open spec fn run_checks<H>(
    begin: (WorkerView<H>, WorkerActionView),
    times: Seq<(u128, u128)>,
) -> (WorkerView<H>, WorkerActionView)
    decreases times.len(),
{
    if times.len() == 0 {
        begin
    } else {
        step_spec(run_checks(begin, times.drop_last()).0, fresh_event(times.last()))
    }
}

/// Freshness idempotence: a worker that finds every output at least as new
/// as its package file opens, reads and writes nothing, and extracts nothing.
/// If each hash of its chunk can be planned, one answer per hash brings it to
/// the end of the chunk with every hash skipped.
pub proof fn law_fresh_run_writes_nothing<H>(
    partitions: Seq<PartitionView>,
    chunk: Seq<Seq<char>>,
    resource_type: Seq<char>,
    times: Seq<(u128, u128)>,
)
    requires
        forall|i: int| 0 <= i < times.len() ==> (#[trigger] times[i]).0 >= times[i].1,
    ensures
        ({
            let (worker, action) = run_checks(
                start_spec::<H>(partitions, chunk, resource_type),
                times,
            );
            &&& worker.wf()
            &&& !action.touches_files()
            &&& worker.extracted == 0
            &&& worker.cache.files.len() == 0
            &&& (times.len() == chunk.len() && (forall|i: int|
                0 <= i < chunk.len() ==> (#[trigger] plan_of(
                    partitions,
                    chunk[i],
                    resource_type,
                )) is Ok) ==> action == WorkerActionView::Finish {
                extracted: 0,
                skipped: chunk.len(),
            })
        }),
{
    lemma_fresh_run::<H>(partitions, chunk, resource_type, times);
    if times.len() == chunk.len() && (forall|i: int|
        0 <= i < chunk.len() ==> (#[trigger] plan_of(partitions, chunk[i], resource_type)) is Ok) {
        lemma_fresh_run_progress::<H>(partitions, chunk, resource_type, times);
    }
}

/// What holds after any number of fresh answers.
proof fn lemma_fresh_run<H>(
    partitions: Seq<PartitionView>,
    chunk: Seq<Seq<char>>,
    resource_type: Seq<char>,
    times: Seq<(u128, u128)>,
)
    requires
        forall|i: int| 0 <= i < times.len() ==> (#[trigger] times[i]).0 >= times[i].1,
    ensures
        ({
            let (worker, action) = run_checks(
                start_spec::<H>(partitions, chunk, resource_type),
                times,
            );
            &&& worker.wf()
            &&& !action.touches_files()
            &&& worker.extracted == 0
            &&& worker.cache.files.len() == 0
            &&& worker.partitions == partitions
            &&& worker.chunk == chunk
            &&& worker.resource_type == resource_type
            &&& !(worker.phase is Opening || worker.phase is Reading || worker.phase is Writing)
        }),
    decreases times.len(),
{
    let first = WorkerView::<H> {
        partitions,
        chunk,
        resource_type,
        position: 0,
        phase: PhaseView::Finished,
        cache: PartitionCacheView { files: Seq::empty(), handles: Seq::empty() },
        extracted: 0,
        skipped: 0,
    };
    lemma_advance_keeps_wf(first);
    if times.len() > 0 {
        lemma_fresh_run::<H>(partitions, chunk, resource_type, times.drop_last());
        let before = run_checks(start_spec::<H>(partitions, chunk, resource_type), times.drop_last()).0;
        assert(times.last().0 >= times.last().1);
        if before.phase is Freshness {
            lemma_advance_keeps_wf(item_done(before, false));
        }
    }
}

/// With every hash plannable, each fresh answer moves the worker one hash on.
proof fn lemma_fresh_run_progress<H>(
    partitions: Seq<PartitionView>,
    chunk: Seq<Seq<char>>,
    resource_type: Seq<char>,
    times: Seq<(u128, u128)>,
)
    requires
        forall|i: int| 0 <= i < times.len() ==> (#[trigger] times[i]).0 >= times[i].1,
        forall|i: int|
            0 <= i < chunk.len() ==> (#[trigger] plan_of(partitions, chunk[i], resource_type)) is Ok,
        times.len() <= chunk.len(),
    ensures
        ({
            let (worker, action) = run_checks(
                start_spec::<H>(partitions, chunk, resource_type),
                times,
            );
            &&& worker.position == times.len()
            &&& worker.skipped == times.len()
            &&& times.len() < chunk.len() ==> worker.phase is Freshness
            &&& times.len() == chunk.len() ==> action == WorkerActionView::Finish {
                extracted: 0,
                skipped: chunk.len(),
            }
        }),
    decreases times.len(),
{
    lemma_fresh_run::<H>(partitions, chunk, resource_type, times);
    if times.len() > 0 {
        lemma_fresh_run_progress::<H>(partitions, chunk, resource_type, times.drop_last());
        lemma_fresh_run::<H>(partitions, chunk, resource_type, times.drop_last());
        let before = run_checks(start_spec::<H>(partitions, chunk, resource_type), times.drop_last()).0;
        assert(times.last().0 >= times.last().1);
        lemma_advance_keeps_wf(item_done(before, false));
        let next = item_done(before, false);
        if next.position < chunk.len() {
            assert(plan_of(partitions, chunk[next.position], resource_type) is Ok);
        }
    } else {
        if 0 < chunk.len() {
            assert(plan_of(partitions, chunk[0], resource_type) is Ok);
        }
    }
}

/// One worker of an extraction: its chunk, how far it has come, and the
/// package files it has opened.
pub struct Worker<'a, H> {
    partitions: &'a Vec<Partition>,
    chunk: Vec<String>,
    resource_type: String,
    position: usize,
    phase: Phase,
    cache: PartitionCache<H>,
    extracted: usize,
    skipped: usize,
}

impl<'a, H> View for Worker<'a, H> {
    type V = WorkerView<H>;

    closed spec fn view(&self) -> WorkerView<H> {
        WorkerView {
            partitions: self.partitions.deep_view(),
            chunk: self.chunk.deep_view(),
            resource_type: self.resource_type@,
            position: self.position as int,
            phase: self.phase@,
            cache: self.cache@,
            extracted: self.extracted as nat,
            skipped: self.skipped as nat,
        }
    }
}

impl<'a, H> Worker<'a, H> {
    /// What holds of every worker: see [`WorkerView::wf`].
    #[verifier::type_invariant]
    pub open spec fn well_formed(self) -> bool {
        self@.wf()
    }

    /// Turns to the hash at `position`.
    fn advance(
        partitions: &'a Vec<Partition>,
        chunk: Vec<String>,
        resource_type: String,
        position: usize,
        cache: PartitionCache<H>,
        extracted: usize,
        skipped: usize,
    ) -> (r: (Self, WorkerAction))
        requires
            position <= chunk.len(),
            extracted + skipped == position,
        ensures
            (r.0@, r.1@) == advance_spec(
                WorkerView {
                    partitions: partitions.deep_view(),
                    chunk: chunk.deep_view(),
                    resource_type: resource_type@,
                    position: position as int,
                    phase: PhaseView::Finished,
                    cache: cache@,
                    extracted: extracted as nat,
                    skipped: skipped as nat,
                },
            ),
            r.0@.wf(),
    {
        proof {
            use_type_invariant(&cache);
        }
        if position >= chunk.len() {
            let action = WorkerAction::Finish { extracted, skipped };
            (
                Worker {
                    partitions,
                    chunk,
                    resource_type,
                    position,
                    phase: Phase::Finished,
                    cache,
                    extracted,
                    skipped,
                },
                action,
            )
        } else {
            assert(chunk.deep_view()[position as int] == chunk@[position as int]@);
            match plan_item(partitions, chunk[position].as_str(), resource_type.as_str()) {
                Ok(plan) => {
                    let action = WorkerAction::CheckFreshness {
                        output_file: plan.output_file.clone(),
                        partition_file: plan.partition_file.clone(),
                    };
                    (
                        Worker {
                            partitions,
                            chunk,
                            resource_type,
                            position,
                            phase: Phase::Freshness(plan),
                            cache,
                            extracted,
                            skipped,
                        },
                        action,
                    )
                },
                Err(reason) => Self::fail(
                    partitions,
                    chunk,
                    resource_type,
                    position,
                    cache,
                    extracted,
                    skipped,
                    reason,
                ),
            }
        }
    }

    /// Gives up at the hash at `position`.
    fn fail(
        partitions: &'a Vec<Partition>,
        chunk: Vec<String>,
        resource_type: String,
        position: usize,
        cache: PartitionCache<H>,
        extracted: usize,
        skipped: usize,
        reason: WorkerFailure,
    ) -> (r: (Self, WorkerAction))
        requires
            position < chunk.len(),
            extracted + skipped == position,
        ensures
            (r.0@, r.1@) == fail_spec(
                WorkerView {
                    partitions: partitions.deep_view(),
                    chunk: chunk.deep_view(),
                    resource_type: resource_type@,
                    position: position as int,
                    phase: PhaseView::Finished,
                    cache: cache@,
                    extracted: extracted as nat,
                    skipped: skipped as nat,
                },
                reason,
            ),
            r.0@.wf(),
    {
        proof {
            use_type_invariant(&cache);
        }
        assert(chunk.deep_view()[position as int] == chunk@[position as int]@);
        let action = WorkerAction::Abort { reason, hash: chunk[position].clone() };
        (
            Worker {
                partitions,
                chunk,
                resource_type,
                position,
                phase: Phase::Failed(reason),
                cache,
                extracted,
                skipped,
            },
            action,
        )
    }

    /// A worker for a chunk of hashes, and the first thing it asks for.
    pub fn start(partitions: &'a Vec<Partition>, chunk: Vec<String>, resource_type: String) -> (r: (
        Self,
        WorkerAction,
    ))
        ensures
            (r.0@, r.1@) == start_spec::<H>(
                partitions.deep_view(),
                chunk.deep_view(),
                resource_type@,
            ),
            r.0@.wf(),
    {
        let cache = PartitionCache::<H>::new();
        assert(cache@.files =~= Seq::empty() && cache@.handles =~= Seq::empty());
        Self::advance(partitions, chunk, resource_type, 0, cache, 0, 0)
    }

    /// Takes what the caller reports and says what is to be done next.
    pub fn step(self, event: WorkerEvent<H>) -> (r: (Self, WorkerAction))
        ensures
            (r.0@, r.1@) == step_spec(self@, event),
            self@.wf(),
            r.0@.wf(),
    {
        proof {
            use_type_invariant(&self);
        }
        let ghost before = self@;
        let Worker {
            partitions,
            chunk,
            resource_type,
            position,
            phase,
            cache,
            extracted,
            skipped,
        } = self;
        assert(before.chunk.len() == chunk.len());
        match phase {
            Phase::Finished => {
                let action = WorkerAction::Finish { extracted, skipped };
                (
                    Worker {
                        partitions,
                        chunk,
                        resource_type,
                        position,
                        phase: Phase::Finished,
                        cache,
                        extracted,
                        skipped,
                    },
                    action,
                )
            },
            Phase::Failed(reason) => {
                assert(chunk.deep_view()[position as int] == chunk@[position as int]@);
                let action = WorkerAction::Abort { reason, hash: chunk[position].clone() };
                (
                    Worker {
                        partitions,
                        chunk,
                        resource_type,
                        position,
                        phase: Phase::Failed(reason),
                        cache,
                        extracted,
                        skipped,
                    },
                    action,
                )
            },
            Phase::Freshness(plan) => match event {
                WorkerEvent::Modified { output, source } => {
                    if is_fresh(output, source) {
                        Self::advance(
                            partitions,
                            chunk,
                            resource_type,
                            position + 1,
                            cache,
                            extracted,
                            skipped + 1,
                        )
                    } else {
                        match cache.find(&plan.partition_file) {
                            Some(slot) => {
                                let action = WorkerAction::ReadResource { slot, id: plan.id };
                                (
                                    Worker {
                                        partitions,
                                        chunk,
                                        resource_type,
                                        position,
                                        phase: Phase::Reading(plan, slot),
                                        cache,
                                        extracted,
                                        skipped,
                                    },
                                    action,
                                )
                            },
                            None => {
                                let action = WorkerAction::OpenPartition {
                                    partition_file: plan.partition_file.clone(),
                                };
                                (
                                    Worker {
                                        partitions,
                                        chunk,
                                        resource_type,
                                        position,
                                        phase: Phase::Opening(plan),
                                        cache,
                                        extracted,
                                        skipped,
                                    },
                                    action,
                                )
                            },
                        }
                    }
                },
                _ => Self::fail(
                    partitions,
                    chunk,
                    resource_type,
                    position,
                    cache,
                    extracted,
                    skipped,
                    WorkerFailure::UnexpectedEvent,
                ),
            },
            Phase::Opening(plan) => match event {
                WorkerEvent::Opened(Some(handle)) => {
                    let (cache, slot) = cache.insert(plan.partition_file.clone(), handle);
                    proof {
                        lemma_slot_of(cache@, plan@.partition_file, slot as int);
                    }
                    let action = WorkerAction::ReadResource { slot, id: plan.id };
                    (
                        Worker {
                            partitions,
                            chunk,
                            resource_type,
                            position,
                            phase: Phase::Reading(plan, slot),
                            cache,
                            extracted,
                            skipped,
                        },
                        action,
                    )
                },
                WorkerEvent::Opened(None) => Self::fail(
                    partitions,
                    chunk,
                    resource_type,
                    position,
                    cache,
                    extracted,
                    skipped,
                    WorkerFailure::PartitionUnreadable,
                ),
                _ => Self::fail(
                    partitions,
                    chunk,
                    resource_type,
                    position,
                    cache,
                    extracted,
                    skipped,
                    WorkerFailure::UnexpectedEvent,
                ),
            },
            Phase::Reading(plan, slot) => match event {
                WorkerEvent::ResourceRead(true) => {
                    let action = WorkerAction::WriteOutput {
                        output_file: plan.output_file.clone(),
                    };
                    (
                        Worker {
                            partitions,
                            chunk,
                            resource_type,
                            position,
                            phase: Phase::Writing(plan),
                            cache,
                            extracted,
                            skipped,
                        },
                        action,
                    )
                },
                WorkerEvent::ResourceRead(false) => Self::fail(
                    partitions,
                    chunk,
                    resource_type,
                    position,
                    cache,
                    extracted,
                    skipped,
                    WorkerFailure::ResourceUnreadable,
                ),
                _ => Self::fail(
                    partitions,
                    chunk,
                    resource_type,
                    position,
                    cache,
                    extracted,
                    skipped,
                    WorkerFailure::UnexpectedEvent,
                ),
            },
            Phase::Writing(plan) => match event {
                WorkerEvent::OutputWritten(true) => Self::advance(
                    partitions,
                    chunk,
                    resource_type,
                    position + 1,
                    cache,
                    extracted + 1,
                    skipped,
                ),
                WorkerEvent::OutputWritten(false) => Self::fail(
                    partitions,
                    chunk,
                    resource_type,
                    position,
                    cache,
                    extracted,
                    skipped,
                    WorkerFailure::OutputUnwritable,
                ),
                _ => Self::fail(
                    partitions,
                    chunk,
                    resource_type,
                    position,
                    cache,
                    extracted,
                    skipped,
                    WorkerFailure::UnexpectedEvent,
                ),
            },
        }
    }

    /// The handle in a slot of the worker's cache, if the slot is in use.
    pub fn handle(&self, slot: usize) -> (found: Option<&H>)
        ensures
            match found {
                Some(handle) => slot < self@.cache.handles.len() && *handle
                    == self@.cache.handles[slot as int],
                None => slot >= self@.cache.handles.len(),
            },
    {
        self.cache.handle(slot)
    }

    /// How many hashes of the chunk are done.
    pub fn position(&self) -> (position: usize)
        ensures
            position == self@.position,
    {
        self.position
    }

    /// How many resources were read and written so far.
    pub fn extracted(&self) -> (extracted: usize)
        ensures
            extracted == self@.extracted,
    {
        self.extracted
    }

    /// How many resources were left alone so far.
    pub fn skipped(&self) -> (skipped: usize)
        ensures
            skipped == self@.skipped,
    {
        self.skipped
    }
}

} // verus!
