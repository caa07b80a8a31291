use glacier2obj::extract::freshness::is_fresh;
use glacier2obj::extract::rpkg_extraction::{ExtractionError, RpkgExtraction};
use glacier2obj::text::same_text;
use glacier2obj::extract::summary::{aggregate, status_code, ExtractionSummary, WorkerOutcome};
use glacier2obj::json_serde::entities_json::MeshHashes;
use glacier2obj::partition::{Partition, PartitionKind, PatchId, PatchLayer, ResourceMetadata};
use glacier2obj::resource_id::ResourceId;

fn info(id: u64, data_type: &str, references: Vec<u64>) -> ResourceMetadata {
    ResourceMetadata {
        id: ResourceId::new(id),
        data_type: data_type.to_string(),
        data_offset: id,
        data_size: 16,
        references: references.into_iter().map(ResourceId::new).collect(),
    }
}

fn layer(patch: PatchId, upserts: Vec<ResourceMetadata>, deletes: Vec<u64>) -> PatchLayer {
    PatchLayer { patch, upserts, deletes: deletes.into_iter().map(ResourceId::new).collect() }
}

fn chunk(index: usize, layers: Vec<PatchLayer>) -> Partition {
    Partition { kind: PartitionKind::Standard, index, layers }
}

fn mesh(aloc: &str, prim: &str) -> MeshHashes {
    MeshHashes { aloc_hash: aloc.to_string(), prim_hash: prim.to_string() }
}

#[test]
fn aloc_gives_the_aloc_extension() {
    assert_eq!(RpkgExtraction::file_extension("ALOC"), ".ALOC");
    assert_eq!(
        RpkgExtraction::output_file_name("00AABBCCDDEEFF01", "ALOC"),
        "00AABBCCDDEEFF01.ALOC"
    );
}

#[test]
fn each_known_type_has_its_extension() {
    assert_eq!(RpkgExtraction::file_extension("PRIM"), ".PRIM");
    assert_eq!(RpkgExtraction::file_extension("NAVP"), ".NAVP");
    assert_eq!(RpkgExtraction::file_extension("AIRG"), ".AIRG");
}

#[test]
fn unknown_type_falls_back_to_airg() {
    assert_eq!(RpkgExtraction::file_extension("TEXT"), ".AIRG");
    assert_eq!(RpkgExtraction::file_extension(""), ".AIRG");
    assert_eq!(RpkgExtraction::file_extension("aloc"), ".AIRG");
    assert_eq!(RpkgExtraction::file_extension("ALOC "), ".AIRG");
    assert_eq!(RpkgExtraction::output_file_name("00AA", "MATI"), "00AA.AIRG");
}

#[test]
fn output_name_keeps_the_hash_as_written() {
    assert_eq!(RpkgExtraction::output_file_name("0x00aa", "PRIM"), "0x00aa.PRIM");
    assert_eq!(RpkgExtraction::output_file_name("", "NAVP"), ".NAVP");
}

#[test]
fn same_text_compares_whole_texts() {
    assert!(same_text("ALOC", "ALOC"));
    assert!(same_text("", ""));
    assert!(!same_text("ALOC", "ALO"));
    assert!(!same_text("ALOC", "PRIM"));
}

#[test]
fn endpoints_are_the_published_ones() {
    assert_eq!(
        RpkgExtraction::HASH_LIST_VERSION_ENDPOINT,
        "https://github.com/glacier-modding/Hitman-Hashes/releases/latest/download/version"
    );
    assert_eq!(
        RpkgExtraction::HASH_LIST_ENDPOINT,
        "https://github.com/glacier-modding/Hitman-Hashes/releases/latest/download/hash_list.sml"
    );
}

#[test]
fn output_is_fresh_when_not_older_than_its_source() {
    assert!(is_fresh(Some(10), Some(10)));
    assert!(is_fresh(Some(11), Some(10)));
    assert!(is_fresh(Some(u128::MAX), Some(0)));
    assert!(!is_fresh(Some(9), Some(10)));
}

#[test]
fn missing_files_are_never_fresh() {
    assert!(!is_fresh(None, Some(10)));
    assert!(!is_fresh(Some(10), None));
    assert!(!is_fresh(None, None));
}

#[test]
fn all_completed_is_success() {
    let outcomes = vec![
        WorkerOutcome::Completed { extracted: 3, skipped: 1 },
        WorkerOutcome::Completed { extracted: 0, skipped: 4 },
    ];
    let summary = aggregate(&outcomes);
    assert_eq!(
        summary,
        ExtractionSummary { success: true, extracted: 3, skipped: 5, failed: 0 }
    );
    assert_eq!(status_code(&summary), 0);
}

#[test]
fn no_workers_is_success() {
    let summary = aggregate(&vec![]);
    assert_eq!(
        summary,
        ExtractionSummary { success: true, extracted: 0, skipped: 0, failed: 0 }
    );
    assert_eq!(status_code(&summary), 0);
}

#[test]
fn one_failure_makes_the_whole_a_failure() {
    let mut outcomes = vec![WorkerOutcome::Completed { extracted: 100, skipped: 0 }; 9];
    outcomes.push(WorkerOutcome::Failed);
    let summary = aggregate(&outcomes);
    assert!(!summary.success);
    assert_eq!(summary.extracted, 900);
    assert_eq!(summary.failed, 1);
    assert_eq!(status_code(&summary), -1);
}

#[test]
fn a_panicked_worker_counts_as_failed() {
    let outcomes = vec![
        WorkerOutcome::Completed { extracted: 1, skipped: 2 },
        WorkerOutcome::Panicked,
        WorkerOutcome::Failed,
    ];
    let summary = aggregate(&outcomes);
    assert_eq!(
        summary,
        ExtractionSummary { success: false, extracted: 1, skipped: 2, failed: 2 }
    );
    assert_eq!(status_code(&summary), -1);
}

#[test]
fn counts_stop_at_the_largest_number() {
    let outcomes = vec![
        WorkerOutcome::Completed { extracted: usize::MAX, skipped: usize::MAX - 1 },
        WorkerOutcome::Completed { extracted: 5, skipped: 1 },
        WorkerOutcome::Completed { extracted: 5, skipped: 0 },
    ];
    let summary = aggregate(&outcomes);
    assert!(summary.success);
    assert_eq!(summary.extracted, usize::MAX);
    assert_eq!(summary.skipped, usize::MAX);
}

#[test]
fn needed_hashes_follow_the_type() {
    let scene = vec![mesh("00A1", "00B1"), mesh("00A2", "00B2")];
    assert_eq!(
        RpkgExtraction::get_needed_aloc_or_prim_hashes_from_scene(&scene, "ALOC".to_string()),
        vec!["00A1", "00A2"]
    );
    assert_eq!(
        RpkgExtraction::get_needed_aloc_or_prim_hashes_from_scene(&scene, "PRIM".to_string()),
        vec!["00B1", "00B2"]
    );
    assert_eq!(
        RpkgExtraction::get_needed_aloc_or_prim_hashes_from_scene(&scene, "NAVP".to_string()),
        vec!["00B1", "00B2"]
    );
}

#[test]
fn needed_hashes_are_listed_once() {
    let scene = vec![
        mesh("00A1", "00B1"),
        mesh("00A2", "00B1"),
        mesh("00A1", "00B3"),
        mesh("00A1", "00B1"),
    ];
    assert_eq!(
        RpkgExtraction::get_needed_aloc_or_prim_hashes_from_scene(&scene, "ALOC".to_string()),
        vec!["00A1", "00A2"]
    );
    assert_eq!(
        RpkgExtraction::get_needed_aloc_or_prim_hashes_from_scene(&scene, "PRIM".to_string()),
        vec!["00B1", "00B3"]
    );
    assert!(
        RpkgExtraction::get_needed_aloc_or_prim_hashes_from_scene(&vec![], "ALOC".to_string())
            .is_empty()
    );
}

#[test]
fn latest_resource_comes_from_the_first_holder() {
    let partitions = vec![
        chunk(0, vec![layer(PatchId::Base, vec![info(7, "TEMP", vec![])], vec![])]),
        chunk(
            1,
            vec![
                layer(PatchId::Base, vec![info(1, "ALOC", vec![])], vec![]),
                layer(PatchId::Patch(2), vec![info(1, "ALOC", vec![9])], vec![]),
            ],
        ),
        chunk(2, vec![layer(PatchId::Patch(9), vec![info(1, "PRIM", vec![])], vec![])]),
    ];
    let found = RpkgExtraction::extract_latest_resource(ResourceId::new(1), &partitions).unwrap();
    assert_eq!(found.partition, 1);
    assert_eq!(found.patch, PatchId::Patch(2));
    assert_eq!(found.info.data_type, "ALOC");
    assert_eq!(found.info.references, vec![ResourceId::new(9)]);
    assert_eq!(
        RpkgExtraction::extract_latest_resource(ResourceId::new(2), &partitions).unwrap_err(),
        ExtractionError::NotFound
    );
}

#[test]
fn references_are_given_as_hex_text() {
    let partitions = vec![chunk(
        0,
        vec![
            layer(PatchId::Base, vec![info(0x10, "TEMP", vec![1])], vec![]),
            layer(
                PatchId::Patch(1),
                vec![info(0x10, "TEMP", vec![0xAB, 0x00FF_FFFF_FFFF_FFFF, 0xAB])],
                vec![],
            ),
        ],
    )];
    assert_eq!(
        RpkgExtraction::get_all_referenced_hashes_by_hash_from_rpkg_files(
            "0000000000000010".to_string(),
            &partitions
        ),
        Ok(vec![
            "00000000000000AB".to_string(),
            "00FFFFFFFFFFFFFF".to_string(),
            "00000000000000AB".to_string()
        ])
    );
}

#[test]
fn references_of_a_bad_or_unknown_hash() {
    let partitions = vec![chunk(
        0,
        vec![
            layer(PatchId::Base, vec![info(0x10, "TEMP", vec![1])], vec![]),
            layer(PatchId::Patch(1), vec![], vec![0x10]),
        ],
    )];
    assert_eq!(
        RpkgExtraction::get_all_referenced_hashes_by_hash_from_rpkg_files(
            "not a hash".to_string(),
            &partitions
        ),
        Err(ExtractionError::InvalidHash)
    );
    assert_eq!(
        RpkgExtraction::get_all_referenced_hashes_by_hash_from_rpkg_files(
            "0000000000000010".to_string(),
            &partitions
        ),
        Err(ExtractionError::NotFound)
    );
    assert_eq!(
        RpkgExtraction::get_all_referenced_hashes_by_hash_from_rpkg_files(
            "0000000000000011".to_string(),
            &partitions
        ),
        Err(ExtractionError::NotFound)
    );
}

#[test]
fn hashes_by_type_list_what_is_currently_held() {
    let partitions = vec![
        chunk(
            0,
            vec![
                layer(
                    PatchId::Base,
                    vec![info(1, "ALOC", vec![]), info(2, "ALOC", vec![]), info(3, "PRIM", vec![])],
                    vec![],
                ),
                // 2 is removed, 3 becomes an ALOC, 1 is brought again.
                layer(
                    PatchId::Patch(1),
                    vec![info(3, "ALOC", vec![]), info(1, "ALOC", vec![])],
                    vec![2],
                ),
            ],
        ),
        chunk(
            1,
            vec![layer(
                PatchId::Base,
                vec![info(1, "ALOC", vec![]), info(4, "ALOC", vec![]), info(5, "PRIM", vec![])],
                vec![],
            )],
        ),
    ];
    let mut alocs = RpkgExtraction::get_all_resources_hashes_by_type_from_rpkg_files(
        &partitions,
        "ALOC".to_string(),
    );
    alocs.sort();
    assert_eq!(
        alocs,
        vec!["0000000000000001", "0000000000000003", "0000000000000004"]
    );
    let prims = RpkgExtraction::get_all_resources_hashes_by_type_from_rpkg_files(
        &partitions,
        "PRIM".to_string(),
    );
    assert_eq!(prims, vec!["0000000000000005"]);
    assert!(RpkgExtraction::get_all_resources_hashes_by_type_from_rpkg_files(
        &partitions,
        "NAVP".to_string()
    )
    .is_empty());
}

#[test]
fn a_resource_held_by_two_partitions_with_different_types_is_in_both_lists() {
    let partitions = vec![
        chunk(0, vec![layer(PatchId::Base, vec![info(1, "ALOC", vec![])], vec![])]),
        chunk(1, vec![layer(PatchId::Base, vec![info(1, "PRIM", vec![])], vec![])]),
    ];
    assert_eq!(
        RpkgExtraction::get_all_resources_hashes_by_type_from_rpkg_files(
            &partitions,
            "ALOC".to_string()
        ),
        vec!["0000000000000001"]
    );
    assert_eq!(
        RpkgExtraction::get_all_resources_hashes_by_type_from_rpkg_files(
            &partitions,
            "PRIM".to_string()
        ),
        vec!["0000000000000001"]
    );
    assert_eq!(
        RpkgExtraction::latest_ids_of_type(&partitions, &"ALOC".to_string()),
        vec![ResourceId::new(1)]
    );
    assert_eq!(
        RpkgExtraction::hex_strings(&vec![ResourceId::new(0xAB), ResourceId::new(0)]),
        vec!["00000000000000AB", "0000000000000000"]
    );
}
