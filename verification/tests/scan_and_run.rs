use glacier2obj::package::package_scan::{
    GameVersion, InvalidGameVersion, MissingPaths, PackageScan,
};
use glacier2obj::partition::{Partition, PartitionKind, PatchId, PatchLayer};
use glacier2obj::{decide_run, has_required_arguments, run_status, RunDecision, REQUIRED_ARGUMENTS};

#[test]
fn three_game_versions_are_known() {
    assert_eq!(PackageScan::game_version("HM2016"), Ok(GameVersion::HM2016));
    assert_eq!(PackageScan::game_version("HM2"), Ok(GameVersion::HM2));
    assert_eq!(PackageScan::game_version("HM3"), Ok(GameVersion::HM3));
    assert_eq!(PackageScan::game_version("H2016"), Err(InvalidGameVersion));
    assert_eq!(PackageScan::game_version("hm3"), Err(InvalidGameVersion));
    assert_eq!(PackageScan::game_version(""), Err(InvalidGameVersion));
}

#[test]
fn runtime_folder_joins_with_backslashes() {
    assert_eq!(
        PackageScan::runtime_folder("D:\\Game\\Retail", Some(".."), Some("Runtime")),
        Ok("D:\\Game\\Retail\\..\\Runtime".to_string())
    );
    assert_eq!(PackageScan::runtime_folder("", Some(""), Some("")), Ok("\\\\".to_string()));
}

#[test]
fn runtime_folder_needs_both_paths() {
    assert_eq!(
        PackageScan::runtime_folder("R", None, Some("Runtime")),
        Err(MissingPaths { project_path: false, runtime_path: true })
    );
    assert_eq!(
        PackageScan::runtime_folder("R", Some(".."), None),
        Err(MissingPaths { project_path: true, runtime_path: false })
    );
    assert_eq!(
        PackageScan::runtime_folder("R", None, None),
        Err(MissingPaths { project_path: false, runtime_path: false })
    );
}

#[test]
fn patch_level_cap_drops_higher_patches() {
    assert_eq!(PackageScan::MAX_PATCH_LEVEL, 301);
    let layer = |patch| PatchLayer { patch, upserts: vec![], deletes: vec![] };
    let partition = Partition {
        kind: PartitionKind::Dlc,
        index: 4,
        layers: vec![
            layer(PatchId::Patch(302)),
            layer(PatchId::Base),
            layer(PatchId::Patch(301)),
            layer(PatchId::Patch(usize::MAX)),
            layer(PatchId::Patch(0)),
        ],
    };
    let capped = PackageScan::cap_patch_level(partition, PackageScan::MAX_PATCH_LEVEL);
    assert_eq!(capped.index, 4);
    assert!(matches!(capped.kind, PartitionKind::Dlc));
    let patches: Vec<PatchId> = capped.layers.iter().map(|l| l.patch).collect();
    assert_eq!(patches, vec![PatchId::Base, PatchId::Patch(301), PatchId::Patch(0)]);
}

#[test]
fn a_run_needs_seven_arguments() {
    assert_eq!(REQUIRED_ARGUMENTS, 7);
    assert!(!has_required_arguments(0));
    assert!(!has_required_arguments(6));
    assert!(has_required_arguments(7));
    assert!(has_required_arguments(8));
}

#[test]
fn a_scene_that_needs_nothing_ends_the_run_well() {
    assert_eq!(decide_run(0, "ALOC"), RunDecision::NothingToExtract);
    assert_eq!(decide_run(0, "TEXT"), RunDecision::NothingToExtract);
    assert_eq!(run_status(RunDecision::NothingToExtract), Some(0));
}

#[test]
fn only_aloc_and_prim_are_extracted_by_a_run() {
    assert_eq!(decide_run(12, "ALOC"), RunDecision::Extract);
    assert_eq!(decide_run(1, "PRIM"), RunDecision::Extract);
    assert_eq!(decide_run(1, "NAVP"), RunDecision::InvalidOutputType);
    assert_eq!(decide_run(1, "aloc"), RunDecision::InvalidOutputType);
    assert_eq!(run_status(RunDecision::InvalidOutputType), Some(-1));
    assert_eq!(run_status(RunDecision::Extract), None);
}
