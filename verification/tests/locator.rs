use glacier2obj::package::package_scan::PackageScan;
use glacier2obj::partition::{Partition, PartitionKind, PatchId, PatchLayer, ResourceMetadata};
use glacier2obj::resource_id::ResourceId;

fn info(id: u64, data_type: &str, data_offset: u64) -> ResourceMetadata {
    ResourceMetadata {
        id: ResourceId::new(id),
        data_type: data_type.to_string(),
        data_offset,
        data_size: 64,
        references: vec![],
    }
}

fn layer(patch: PatchId, upserts: Vec<ResourceMetadata>, deletes: Vec<u64>) -> PatchLayer {
    PatchLayer {
        patch,
        upserts,
        deletes: deletes.into_iter().map(ResourceId::new).collect(),
    }
}

fn chunk(index: usize, layers: Vec<PatchLayer>) -> Partition {
    Partition { kind: PartitionKind::Standard, index, layers }
}

const ID: u64 = 0x00AA_BBCC_DDEE_FF01;

#[test]
fn priority_beats_patch_level() {
    let a = chunk(0, vec![layer(PatchId::Patch(2), vec![info(ID, "ALOC", 200)], vec![])]);
    let b = chunk(1, vec![layer(PatchId::Patch(5), vec![info(ID, "ALOC", 500)], vec![])]);
    let found = PackageScan::get_resource_info(&vec![a, b], &ResourceId::new(ID)).unwrap();
    assert_eq!(found.last_occurrence.data_offset, 200);
    assert_eq!(found.last_partition, "chunk0patch2.rpkg");
}

#[test]
fn lower_priority_answers_when_higher_has_nothing() {
    let a = chunk(0, vec![layer(PatchId::Base, vec![info(ID + 1, "ALOC", 1)], vec![])]);
    let b = chunk(1, vec![layer(PatchId::Patch(5), vec![info(ID, "ALOC", 500)], vec![])]);
    let found = PackageScan::get_resource_info(&vec![a, b], &ResourceId::new(ID)).unwrap();
    assert_eq!(found.last_occurrence.data_offset, 500);
    assert_eq!(found.last_partition, "chunk1patch5.rpkg");
}

#[test]
fn lower_priority_answers_when_higher_deleted_it() {
    let a = chunk(
        0,
        vec![
            layer(PatchId::Base, vec![info(ID, "ALOC", 1)], vec![]),
            layer(PatchId::Patch(1), vec![], vec![ID]),
        ],
    );
    let b = chunk(1, vec![layer(PatchId::Base, vec![info(ID, "ALOC", 7)], vec![])]);
    let found = PackageScan::get_resource_info(&vec![a, b], &ResourceId::new(ID)).unwrap();
    assert_eq!(found.last_occurrence.data_offset, 7);
    assert_eq!(found.last_partition, "chunk1.rpkg");
}

#[test]
fn delete_after_upsert_gives_nothing() {
    let p = chunk(
        0,
        vec![
            layer(PatchId::Patch(1), vec![info(ID, "ALOC", 100)], vec![]),
            layer(PatchId::Patch(3), vec![], vec![ID]),
        ],
    );
    assert!(PackageScan::get_resource_info(&vec![p], &ResourceId::new(ID)).is_none());
}

#[test]
fn upsert_after_delete_gives_the_later_upsert() {
    let p = chunk(
        0,
        vec![
            layer(PatchId::Patch(1), vec![info(ID, "ALOC", 100)], vec![]),
            layer(PatchId::Patch(3), vec![], vec![ID]),
            layer(PatchId::Patch(5), vec![info(ID, "ALOC", 500)], vec![]),
        ],
    );
    let found = PackageScan::get_resource_info(&vec![p], &ResourceId::new(ID)).unwrap();
    assert_eq!(found.last_occurrence.data_offset, 500);
    assert_eq!(found.last_partition, "chunk0patch5.rpkg");
}

#[test]
fn layers_are_walked_by_patch_level_not_by_position() {
    let p = chunk(
        0,
        vec![
            layer(PatchId::Patch(12), vec![info(ID, "ALOC", 1200)], vec![]),
            layer(PatchId::Patch(3), vec![], vec![ID]),
            layer(PatchId::Base, vec![info(ID, "ALOC", 1)], vec![]),
            layer(PatchId::Patch(2), vec![info(ID, "ALOC", 200)], vec![]),
        ],
    );
    let found = PackageScan::get_resource_info(&vec![p], &ResourceId::new(ID)).unwrap();
    assert_eq!(found.last_occurrence.data_offset, 1200);
    assert_eq!(found.last_partition, "chunk0patch12.rpkg");
}

#[test]
fn delete_in_a_late_position_but_early_patch_does_not_shadow() {
    let p = chunk(
        0,
        vec![
            layer(PatchId::Patch(4), vec![info(ID, "ALOC", 400)], vec![]),
            layer(PatchId::Patch(1), vec![], vec![ID]),
        ],
    );
    let found = PackageScan::get_resource_info(&vec![p], &ResourceId::new(ID)).unwrap();
    assert_eq!(found.last_occurrence.data_offset, 400);
}

#[test]
fn a_layer_that_removes_and_brings_a_resource_brings_it() {
    let p = chunk(
        0,
        vec![
            layer(PatchId::Base, vec![info(ID, "ALOC", 1)], vec![]),
            layer(PatchId::Patch(1), vec![info(ID, "ALOC", 100)], vec![ID]),
        ],
    );
    let found = PackageScan::get_resource_info(&vec![p], &ResourceId::new(ID)).unwrap();
    assert_eq!(found.last_occurrence.data_offset, 100);
    assert_eq!(found.last_partition, "chunk0patch1.rpkg");
}

#[test]
fn base_comes_before_patch_zero() {
    let p = chunk(
        0,
        vec![
            layer(PatchId::Patch(0), vec![], vec![ID]),
            layer(PatchId::Base, vec![info(ID, "ALOC", 1)], vec![]),
        ],
    );
    assert!(PackageScan::get_resource_info(&vec![p], &ResourceId::new(ID)).is_none());
}

#[test]
fn unknown_resource_is_not_found() {
    let p = chunk(0, vec![layer(PatchId::Base, vec![info(ID, "ALOC", 1)], vec![])]);
    assert!(PackageScan::get_resource_info(&vec![p], &ResourceId::new(ID + 1)).is_none());
    assert!(PackageScan::get_resource_info(&vec![], &ResourceId::new(ID)).is_none());
}

#[test]
fn found_metadata_is_returned_whole() {
    let mut entry = info(ID, "PRIM", 4096);
    entry.data_size = 77;
    entry.references = vec![ResourceId::new(1), ResourceId::new(2)];
    let p = chunk(3, vec![layer(PatchId::Base, vec![entry], vec![])]);
    let found = PackageScan::get_resource_info(&vec![p], &ResourceId::new(ID)).unwrap();
    assert_eq!(found.last_occurrence.id, ResourceId::new(ID));
    assert_eq!(found.last_occurrence.data_type, "PRIM");
    assert_eq!(found.last_occurrence.data_offset, 4096);
    assert_eq!(found.last_occurrence.data_size, 77);
    assert_eq!(
        found.last_occurrence.references,
        vec![ResourceId::new(1), ResourceId::new(2)]
    );
    assert_eq!(found.last_partition, "chunk3.rpkg");
}

#[test]
fn package_files_are_named_after_kind_index_and_patch() {
    let names = |kind: PartitionKind, index: usize| {
        let p = Partition { kind, index, layers: vec![] };
        (p.file_name(PatchId::Base), p.file_name(PatchId::Patch(7)))
    };
    assert_eq!(
        names(PartitionKind::Standard, 0),
        ("chunk0.rpkg".to_string(), "chunk0patch7.rpkg".to_string())
    );
    assert_eq!(
        names(PartitionKind::Addon, 21),
        ("chunk21.rpkg".to_string(), "chunk21patch7.rpkg".to_string())
    );
    assert_eq!(
        names(PartitionKind::Dlc, 12),
        ("dlc12.rpkg".to_string(), "dlc12patch7.rpkg".to_string())
    );
    assert_eq!(
        names(PartitionKind::LanguageStandard("jp".to_string()), 5),
        ("chunk5langjp.rpkg".to_string(), "chunk5langjppatch7.rpkg".to_string())
    );
    assert_eq!(
        names(PartitionKind::LanguageDlc("fr".to_string()), 105),
        ("dlc105langfr.rpkg".to_string(), "dlc105langfrpatch7.rpkg".to_string())
    );
    let p = Partition { kind: PartitionKind::Standard, index: 0, layers: vec![] };
    assert_eq!(p.file_name(PatchId::Patch(0)), "chunk0patch0.rpkg");
    assert_eq!(p.file_name(PatchId::Patch(301)), "chunk0patch301.rpkg");
}

#[test]
fn latest_resource_agrees_with_the_walk() {
    let p = chunk(
        0,
        vec![
            layer(PatchId::Patch(12), vec![info(ID, "ALOC", 1200)], vec![]),
            layer(PatchId::Patch(3), vec![], vec![ID]),
            layer(PatchId::Base, vec![info(ID, "ALOC", 1)], vec![]),
        ],
    );
    let (patch, latest) = p.latest_resource(&ResourceId::new(ID)).unwrap();
    assert_eq!(patch, PatchId::Patch(12));
    assert_eq!(latest.data_offset, 1200);
    let walked = PackageScan::resolve_in_partition(&p, &ResourceId::new(ID)).unwrap();
    assert_eq!(walked.last_occurrence.data_offset, 1200);

    let q = chunk(
        0,
        vec![
            layer(PatchId::Patch(1), vec![], vec![ID]),
            layer(PatchId::Base, vec![info(ID, "ALOC", 1)], vec![]),
        ],
    );
    assert!(q.latest_resource(&ResourceId::new(ID)).is_none());
    assert!(PackageScan::resolve_in_partition(&q, &ResourceId::new(ID)).is_none());
}
