use glacier2obj::extract::chunks::split_into_chunks;
use glacier2obj::extract::summary::{aggregate, status_code, WorkerOutcome};
use glacier2obj::extract::worker::{
    plan_item, Worker, WorkerAction, WorkerEvent, WorkerFailure,
};
use glacier2obj::partition::{Partition, PartitionKind, PatchId, PatchLayer, ResourceMetadata};
use glacier2obj::resource_id::ResourceId;
use std::collections::{HashMap, HashSet};

fn info(id: u64) -> ResourceMetadata {
    ResourceMetadata {
        id: ResourceId::new(id),
        data_type: "ALOC".to_string(),
        data_offset: id,
        data_size: 8,
        references: vec![],
    }
}

fn hash(id: u64) -> String {
    format!("{:016X}", id)
}

/// Two partitions: ids below 100 in the base of chunk0, ids from 100 on in
/// patch 1 of chunk1.
fn partitions(ids: impl Iterator<Item = u64>) -> Vec<Partition> {
    let mut low = vec![];
    let mut high = vec![];
    for id in ids {
        if id < 100 {
            low.push(info(id));
        } else {
            high.push(info(id));
        }
    }
    vec![
        Partition {
            kind: PartitionKind::Standard,
            index: 0,
            layers: vec![PatchLayer { patch: PatchId::Base, upserts: low, deletes: vec![] }],
        },
        Partition {
            kind: PartitionKind::Standard,
            index: 1,
            layers: vec![PatchLayer { patch: PatchId::Patch(1), upserts: high, deletes: vec![] }],
        },
    ]
}

/// A stand-in for the disk: when each file was modified, which package files
/// cannot be opened, which resources cannot be read, which outputs cannot be
/// written, and what was opened and written.
#[derive(Default)]
struct Disk {
    modified: HashMap<String, u128>,
    broken_packages: HashSet<String>,
    unreadable: HashSet<u64>,
    unwritable: HashSet<String>,
    now: u128,
    opened: Vec<String>,
    written: Vec<String>,
}

fn run_worker(parts: &Vec<Partition>, chunk: Vec<String>, kind: &str, disk: &mut Disk) -> WorkerOutcome {
    let (mut worker, mut action) = Worker::<String>::start(parts, chunk, kind.to_string());
    let mut steps = 0;
    loop {
        steps += 1;
        assert!(steps < 100_000);
        let event = match action {
            WorkerAction::CheckFreshness { output_file, partition_file } => WorkerEvent::Modified {
                output: disk.modified.get(&output_file).copied(),
                source: disk.modified.get(&partition_file).copied(),
            },
            WorkerAction::OpenPartition { partition_file } => {
                disk.opened.push(partition_file.clone());
                if disk.broken_packages.contains(&partition_file) {
                    WorkerEvent::Opened(None)
                } else {
                    WorkerEvent::Opened(Some(partition_file))
                }
            }
            WorkerAction::ReadResource { slot, id } => {
                assert!(worker.handle(slot).is_some());
                WorkerEvent::ResourceRead(!disk.unreadable.contains(&id.value))
            }
            WorkerAction::WriteOutput { output_file } => {
                if disk.unwritable.contains(&output_file) {
                    WorkerEvent::OutputWritten(false)
                } else {
                    disk.now += 1;
                    disk.modified.insert(output_file.clone(), disk.now);
                    disk.written.push(output_file);
                    WorkerEvent::OutputWritten(true)
                }
            }
            WorkerAction::Finish { extracted, skipped } => {
                return WorkerOutcome::Completed { extracted, skipped };
            }
            WorkerAction::Abort { .. } => return WorkerOutcome::Failed,
        };
        let (next, asked) = worker.step(event);
        worker = next;
        action = asked;
    }
}

fn disk_with_packages() -> Disk {
    let mut disk = Disk::default();
    disk.now = 1_000;
    disk.modified.insert("chunk0.rpkg".to_string(), 500);
    disk.modified.insert("chunk1patch1.rpkg".to_string(), 600);
    disk
}

#[test]
fn plan_names_the_package_and_the_output() {
    let parts = partitions([7u64, 150].into_iter());
    let plan = plan_item(&parts, &hash(150), "PRIM").unwrap();
    assert_eq!(plan.id, ResourceId::new(150));
    assert_eq!(plan.partition_file, "chunk1patch1.rpkg");
    assert_eq!(plan.output_file, format!("{}.PRIM", hash(150)));
    assert_eq!(plan_item(&parts, "xyz", "PRIM").unwrap_err(), WorkerFailure::InvalidHash);
    assert_eq!(plan_item(&parts, &hash(8), "PRIM").unwrap_err(), WorkerFailure::NotFound);
}

#[test]
fn empty_chunk_finishes_at_once() {
    let parts = partitions([1u64].into_iter());
    let (_, action) = Worker::<()>::start(&parts, vec![], "ALOC".to_string());
    assert!(matches!(action, WorkerAction::Finish { extracted: 0, skipped: 0 }));
}

#[test]
fn first_run_extracts_everything_and_opens_each_package_once() {
    let ids = [1u64, 150, 2, 151, 3];
    let parts = partitions(ids.into_iter());
    let mut disk = disk_with_packages();
    let chunk: Vec<String> = ids.iter().map(|id| hash(*id)).collect();
    let outcome = run_worker(&parts, chunk, "ALOC", &mut disk);
    assert_eq!(outcome, WorkerOutcome::Completed { extracted: 5, skipped: 0 });
    assert_eq!(disk.opened, vec!["chunk0.rpkg", "chunk1patch1.rpkg"]);
    let expected: Vec<String> = ids.iter().map(|id| format!("{}.ALOC", hash(*id))).collect();
    assert_eq!(disk.written, expected);
}

#[test]
fn second_run_skips_every_identifier() {
    let ids: Vec<u64> = (1..=40).chain(100..=140).collect();
    let parts = partitions(ids.iter().copied());
    let mut disk = disk_with_packages();
    let chunk: Vec<String> = ids.iter().map(|id| hash(*id)).collect();
    let first = run_worker(&parts, chunk.clone(), "ALOC", &mut disk);
    assert_eq!(first, WorkerOutcome::Completed { extracted: ids.len(), skipped: 0 });
    disk.opened.clear();
    disk.written.clear();
    let second = run_worker(&parts, chunk, "ALOC", &mut disk);
    assert_eq!(second, WorkerOutcome::Completed { extracted: 0, skipped: ids.len() });
    assert!(disk.opened.is_empty());
    assert!(disk.written.is_empty());
}

#[test]
fn second_run_skips_with_an_unknown_type_too() {
    let ids = [1u64, 2, 3];
    let parts = partitions(ids.into_iter());
    let mut disk = disk_with_packages();
    let chunk: Vec<String> = ids.iter().map(|id| hash(*id)).collect();
    run_worker(&parts, chunk.clone(), "TEXT", &mut disk);
    assert_eq!(disk.written[0], format!("{}.AIRG", hash(1)));
    disk.written.clear();
    let second = run_worker(&parts, chunk, "TEXT", &mut disk);
    assert_eq!(second, WorkerOutcome::Completed { extracted: 0, skipped: 3 });
    assert!(disk.written.is_empty());
}

#[test]
fn a_newer_package_makes_its_outputs_stale() {
    let ids = [1u64, 150];
    let parts = partitions(ids.into_iter());
    let mut disk = disk_with_packages();
    let chunk: Vec<String> = ids.iter().map(|id| hash(*id)).collect();
    run_worker(&parts, chunk.clone(), "ALOC", &mut disk);
    disk.written.clear();
    disk.now += 10;
    let now = disk.now;
    disk.modified.insert("chunk1patch1.rpkg".to_string(), now);
    let again = run_worker(&parts, chunk, "ALOC", &mut disk);
    assert_eq!(again, WorkerOutcome::Completed { extracted: 1, skipped: 1 });
    assert_eq!(disk.written, vec![format!("{}.ALOC", hash(150))]);
}

#[test]
fn an_output_as_old_as_its_package_is_fresh() {
    let parts = partitions([1u64].into_iter());
    let mut disk = disk_with_packages();
    disk.modified.insert(format!("{}.ALOC", hash(1)), 500);
    let outcome = run_worker(&parts, vec![hash(1)], "ALOC", &mut disk);
    assert_eq!(outcome, WorkerOutcome::Completed { extracted: 0, skipped: 1 });
}

#[test]
fn a_missing_package_time_means_not_fresh() {
    let parts = partitions([1u64].into_iter());
    let mut disk = Disk::default();
    disk.modified.insert(format!("{}.ALOC", hash(1)), 500);
    let outcome = run_worker(&parts, vec![hash(1)], "ALOC", &mut disk);
    assert_eq!(outcome, WorkerOutcome::Completed { extracted: 1, skipped: 0 });
}

#[test]
fn each_failure_stops_the_worker_and_keeps_what_was_written() {
    let ids = [1u64, 2, 150, 3];
    let parts = partitions(ids.into_iter());
    let chunk: Vec<String> = ids.iter().map(|id| hash(*id)).collect();

    let mut disk = disk_with_packages();
    disk.broken_packages.insert("chunk1patch1.rpkg".to_string());
    assert_eq!(run_worker(&parts, chunk.clone(), "ALOC", &mut disk), WorkerOutcome::Failed);
    assert_eq!(disk.written.len(), 2);

    let mut disk = disk_with_packages();
    disk.unreadable.insert(2);
    assert_eq!(run_worker(&parts, chunk.clone(), "ALOC", &mut disk), WorkerOutcome::Failed);
    assert_eq!(disk.written, vec![format!("{}.ALOC", hash(1))]);

    let mut disk = disk_with_packages();
    disk.unwritable.insert(format!("{}.ALOC", hash(150)));
    assert_eq!(run_worker(&parts, chunk.clone(), "ALOC", &mut disk), WorkerOutcome::Failed);
    assert_eq!(disk.written.len(), 2);

    let mut disk = disk_with_packages();
    let mut bad = chunk.clone();
    bad[1] = "no hash".to_string();
    assert_eq!(run_worker(&parts, bad, "ALOC", &mut disk), WorkerOutcome::Failed);
    assert_eq!(disk.written.len(), 1);
}

#[test]
fn abort_names_the_reason_and_the_hash() {
    let parts = partitions([1u64].into_iter());
    let (worker, action) = Worker::<()>::start(&parts, vec![hash(9)], "ALOC".to_string());
    match action {
        WorkerAction::Abort { reason, hash: failed } => {
            assert_eq!(reason, WorkerFailure::NotFound);
            assert_eq!(failed, hash(9));
        }
        other => panic!("unexpected action {:?}", other),
    }
    let (_, again) = worker.step(WorkerEvent::OutputWritten(true));
    assert!(matches!(again, WorkerAction::Abort { reason: WorkerFailure::NotFound, .. }));

    let (_, action) = Worker::<()>::start(&parts, vec!["zz".to_string()], "ALOC".to_string());
    assert!(matches!(action, WorkerAction::Abort { reason: WorkerFailure::InvalidHash, .. }));
}

#[test]
fn an_event_that_was_not_asked_for_fails_the_worker() {
    let parts = partitions([1u64].into_iter());
    let (worker, action) = Worker::<()>::start(&parts, vec![hash(1)], "ALOC".to_string());
    assert!(matches!(action, WorkerAction::CheckFreshness { .. }));
    let (worker, action) = worker.step(WorkerEvent::ResourceRead(true));
    assert!(matches!(action, WorkerAction::Abort { reason: WorkerFailure::UnexpectedEvent, .. }));
    assert_eq!(worker.position(), 0);
    assert_eq!(worker.extracted(), 0);
    assert_eq!(worker.skipped(), 0);
}

#[test]
fn the_steps_of_one_extraction() {
    let parts = partitions([1u64].into_iter());
    let (worker, action) = Worker::<u8>::start(&parts, vec![hash(1)], "NAVP".to_string());
    match action {
        WorkerAction::CheckFreshness { output_file, partition_file } => {
            assert_eq!(output_file, format!("{}.NAVP", hash(1)));
            assert_eq!(partition_file, "chunk0.rpkg");
        }
        other => panic!("unexpected action {:?}", other),
    }
    let (worker, action) = worker.step(WorkerEvent::Modified { output: None, source: Some(5) });
    match action {
        WorkerAction::OpenPartition { partition_file } => assert_eq!(partition_file, "chunk0.rpkg"),
        other => panic!("unexpected action {:?}", other),
    }
    assert!(worker.handle(0).is_none());
    let (worker, action) = worker.step(WorkerEvent::Opened(Some(42)));
    match action {
        WorkerAction::ReadResource { slot, id } => {
            assert_eq!(slot, 0);
            assert_eq!(id, ResourceId::new(1));
        }
        other => panic!("unexpected action {:?}", other),
    }
    assert_eq!(worker.handle(0), Some(&42));
    let (worker, action) = worker.step(WorkerEvent::ResourceRead(true));
    match action {
        WorkerAction::WriteOutput { output_file } => {
            assert_eq!(output_file, format!("{}.NAVP", hash(1)))
        }
        other => panic!("unexpected action {:?}", other),
    }
    let (worker, action) = worker.step(WorkerEvent::OutputWritten(true));
    assert!(matches!(action, WorkerAction::Finish { extracted: 1, skipped: 0 }));
    assert_eq!(worker.position(), 1);
    let (_, action) = worker.step(WorkerEvent::OutputWritten(true));
    assert!(matches!(action, WorkerAction::Finish { extracted: 1, skipped: 0 }));
}

#[test]
fn one_failure_among_a_thousand_fails_the_extraction() {
    let ids: Vec<u64> = (1..=1000).collect();
    // The last identifier is in no partition.
    let parts = partitions(ids.iter().copied().filter(|id| *id != 1000));
    let needed: Vec<String> = ids.iter().map(|id| hash(*id)).collect();
    let mut disk = disk_with_packages();
    let chunks = split_into_chunks(needed, 10);
    assert_eq!(chunks.len(), 10);
    let mut outcomes = vec![];
    for chunk in chunks {
        outcomes.push(run_worker(&parts, chunk, "ALOC", &mut disk));
    }
    let summary = aggregate(&outcomes);
    assert_eq!(disk.written.len(), 999);
    assert!(!summary.success);
    assert_eq!(summary.failed, 1);
    assert_eq!(summary.extracted, 900);
    assert_eq!(status_code(&summary), -1);
}

#[test]
fn a_thousand_good_identifiers_succeed() {
    let ids: Vec<u64> = (1..=1000).collect();
    let parts = partitions(ids.iter().copied());
    let needed: Vec<String> = ids.iter().map(|id| hash(*id)).collect();
    let mut disk = disk_with_packages();
    let mut outcomes = vec![];
    for chunk in split_into_chunks(needed, 10) {
        outcomes.push(run_worker(&parts, chunk, "ALOC", &mut disk));
    }
    let summary = aggregate(&outcomes);
    assert!(summary.success);
    assert_eq!(summary.extracted, 1000);
    assert_eq!(status_code(&summary), 0);
    let distinct: HashSet<&String> = disk.written.iter().collect();
    assert_eq!(distinct.len(), 1000);
}
