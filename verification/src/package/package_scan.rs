//! The resource locator: which package of which partition holds a resource.

use crate::partition::{
    key_at_most, lemma_find_upsert_at, lemma_latest_upsert_at, lemma_no_event_no_upsert,
    lemma_patches_with_removal, lemma_patches_with_upsert, package_file_name,
    patches_with_removal, patches_with_upsert, Partition, PartitionView, PatchId, PatchLayer,
    PatchLayerView, ResourceMetadata, ResourceMetadataView,
};
use crate::text::same_text;
use crate::resource_id::ResourceId;
use itertools::Itertools;
use vstd::prelude::*;

verus! {

/// A located resource: its metadata as of the layer that currently holds it,
/// and the name of that layer's package file.
#[derive(Debug)]
pub struct ResourceInfoAndPartition {
    pub last_occurrence: ResourceMetadata,
    pub last_partition: String,
}

/// The mathematical form of a [`ResourceInfoAndPartition`].
pub struct ResourceInfoAndPartitionView {
    pub last_occurrence: ResourceMetadataView,
    pub last_partition: Seq<char>,
}

impl View for ResourceInfoAndPartition {
    type V = ResourceInfoAndPartitionView;

    open spec fn view(&self) -> ResourceInfoAndPartitionView {
        ResourceInfoAndPartitionView {
            last_occurrence: self.last_occurrence@,
            last_partition: self.last_partition@,
        }
    }
}

impl ResourceInfoAndPartition {
    /// Pairs a resource's metadata with the name of the file that holds it.
    pub fn new(last_occurrence: ResourceMetadata, last_partition: String) -> (located: Self)
        ensures
            located@ == (ResourceInfoAndPartitionView {
                last_occurrence: last_occurrence@,
                last_partition: last_partition@,
            }),
    {
        Self { last_occurrence, last_partition }
    }
}

/// What one partition gives for `id`: what it currently holds, with the file
/// of the layer that brought it.
pub open spec fn resolve_in(partition: PartitionView, id: ResourceId) -> Option<
    ResourceInfoAndPartitionView,
> {
    match partition.latest_upsert(id) {
        Some((patch, info)) => Some(
            ResourceInfoAndPartitionView {
                last_occurrence: info,
                last_partition: package_file_name(partition.kind, partition.index, patch),
            },
        ),
        None => None,
    }
}

/// What the partitions give for `id`: the answer of the first partition, in
/// the order given, that holds the resource.
pub open spec fn locate(partitions: Seq<PartitionView>, id: ResourceId) -> Option<
    ResourceInfoAndPartitionView,
>
    decreases partitions.len(),
{
    if partitions.len() == 0 {
        None
    } else {
        match resolve_in(partitions[0], id) {
            Some(found) => Some(found),
            None => locate(partitions.drop_first(), id),
        }
    }
}

/// The partition at `k` holds `id`, and no partition before it does.
pub open spec fn is_first_holder(partitions: Seq<PartitionView>, id: ResourceId, k: int) -> bool {
    &&& 0 <= k < partitions.len()
    &&& partitions[k].latest_upsert(id) is Some
    &&& forall|j: int| 0 <= j < k ==> (#[trigger] partitions[j]).latest_upsert(id) is None
}

/// No partition holds `id`.
pub open spec fn no_holder(partitions: Seq<PartitionView>, id: ResourceId) -> bool {
    forall|k: int| 0 <= k < partitions.len() ==> (#[trigger] partitions[k]).latest_upsert(id) is None
}

/// Resolution priority: the first partition that holds a resource decides.
/// What a later partition has for it, in however high a patch, changes
/// nothing.
pub proof fn law_first_holder_decides(partitions: Seq<PartitionView>, id: ResourceId, k: int)
    requires
        is_first_holder(partitions, id, k),
    ensures
        locate(partitions, id) == resolve_in(partitions[k], id),
        locate(partitions, id) is Some,
    decreases partitions.len(),
{
    if k > 0 {
        let rest = partitions.drop_first();
        assert(partitions[0].latest_upsert(id) is None);
        assert(rest[k - 1] == partitions[k]);
        assert forall|j: int| 0 <= j < k - 1 implies (#[trigger] rest[j]).latest_upsert(id) is None by {
            assert(rest[j] == partitions[j + 1]);
        }
        law_first_holder_decides(rest, id, k - 1);
    }
}

/// A resource that no partition holds is not found.
pub proof fn law_no_holder_not_found(partitions: Seq<PartitionView>, id: ResourceId)
    requires
        no_holder(partitions, id),
    ensures
        locate(partitions, id) is None,
    decreases partitions.len(),
{
    if partitions.len() > 0 {
        let rest = partitions.drop_first();
        assert(partitions[0].latest_upsert(id) is None);
        assert forall|j: int| 0 <= j < rest.len() implies (#[trigger] rest[j]).latest_upsert(id) is None by {
            assert(rest[j] == partitions[j + 1]);
        }
        law_no_holder_not_found(rest, id);
    }
}

/// Partitions of lower priority never override: once the partitions given
/// find a resource, more partitions behind them change nothing.
pub proof fn law_lower_priority_never_overrides(
    partitions: Seq<PartitionView>,
    more: Seq<PartitionView>,
    id: ResourceId,
)
    requires
        locate(partitions, id) is Some,
    ensures
        locate(partitions + more, id) == locate(partitions, id),
    decreases partitions.len(),
{
    if partitions.len() > 0 {
        assert((partitions + more)[0] == partitions[0]);
        if resolve_in(partitions[0], id) is None {
            assert((partitions + more).drop_first() =~= partitions.drop_first() + more);
            law_lower_priority_never_overrides(partitions.drop_first(), more, id);
        }
    }
}

/// What a walk over layers leaves behind for `id`, the layers taken in the
/// order given: a layer that removes the resource clears what was found so
/// far, and a layer that brings it replaces what was found so far.
pub open spec fn walk(partition: PartitionView, id: ResourceId, events: Seq<PatchId>) -> Option<
    (PatchId, ResourceMetadataView),
>
    decreases events.len(),
{
    if events.len() == 0 {
        None
    } else {
        let found = if partition.has_removal(events.last(), id) {
            None
        } else {
            walk(partition, id, events.drop_last())
        };
        match partition.upsert_at(events.last(), id) {
            Some(info) => Some((events.last(), info)),
            None => found,
        }
    }
}

/// The walk and the latest event agree: a walk in ascending order over the
/// layers that mention a resource ends with what the partition holds for it,
/// which is what the latest of those layers brings.
pub proof fn law_walk_ends_at_latest(partition: PartitionView, id: ResourceId, events: Seq<PatchId>)
    requires
        forall|i: int, j: int|
            0 <= i <= j < events.len() ==> (#[trigger] events[i]).at_most(#[trigger] events[j]),
        forall|p: PatchId| events.contains(p) <==> partition.has_event(p, id),
    ensures
        walk(partition, id, events) == partition.latest_upsert(id),
{
    if events.len() == 0 {
        assert forall|p: PatchId| !partition.has_event(p, id) by {
            assert(!events.contains(p));
        }
        lemma_no_event_no_upsert(partition, id);
    } else {
        let latest = events.last();
        assert(events.contains(latest));
        assert forall|q: PatchId| #[trigger] partition.has_event(q, id) implies q.at_most(
            latest,
        ) by {
            assert(events.contains(q));
            let i = choose|i: int| 0 <= i < events.len() && events[i] == q;
            assert(events[i].at_most(events[events.len() - 1]));
        }
        lemma_latest_upsert_at(partition, id, latest);
        lemma_find_upsert_at(partition.layers, latest, id);
    }
}

/// Delete shadowing: where the latest layer that mentions a resource only
/// removes it, the partition holds nothing for the resource, whatever earlier
/// layers brought.
pub proof fn law_delete_shadows(partition: PartitionView, id: ResourceId, patch: PatchId)
    requires
        partition.is_latest_event(patch, id),
        !partition.has_upsert(patch, id),
    ensures
        partition.latest_upsert(id) is None,
        resolve_in(partition, id) is None,
{
    lemma_latest_upsert_at(partition, id, patch);
    lemma_find_upsert_at(partition.layers, patch, id);
}

/// An upsert after a delete restores: where the latest layer that mentions a
/// resource brings it, the partition holds that layer's metadata, whatever
/// earlier layers removed.
pub proof fn law_latest_upsert_wins(partition: PartitionView, id: ResourceId, patch: PatchId)
    requires
        partition.is_latest_event(patch, id),
        partition.has_upsert(patch, id),
    ensures
        partition.latest_upsert(id) is Some,
        partition.latest_upsert(id)->Some_0.0 == patch,
        Some(partition.latest_upsert(id)->Some_0.1) == partition.upsert_at(patch, id),
        partition.latest_upsert(id)->Some_0.1.id == id,
        resolve_in(partition, id) is Some,
        resolve_in(partition, id)->Some_0.last_partition == package_file_name(
            partition.kind,
            partition.index,
            patch,
        ),
{
    lemma_latest_upsert_at(partition, id, patch);
    lemma_find_upsert_at(partition.layers, patch, id);
}

/// The sort keys of the patch ids of two lists, the first list first.
pub open spec fn occurrence_keys(changes: Seq<PatchId>, deletions: Seq<PatchId>) -> Seq<
    (u8, usize),
> {
    (changes + deletions).map_values(|p: PatchId| p.sort_key())
}

/// Calls `Itertools::sorted` of itertools.
///
/// The claim: the result holds the same items as the input, each as often as
/// the input does, in ascending order. The items are pairs of integers, which
/// std orders by the first part and then by the second.
#[verifier::external_body]
fn sorted_keys(keys: &Vec<(u8, usize)>) -> (sorted: Vec<(u8, usize)>)
    ensures
        sorted@.to_multiset() == keys@.to_multiset(),
        forall|i: int, j: int|
            0 <= i <= j < sorted@.len() ==> key_at_most(#[trigger] sorted@[i], #[trigger] sorted@[j]),
{
    keys.iter().copied().sorted().collect()
}

fn collect_keys(changes: &Vec<PatchId>, deletions: &Vec<PatchId>) -> (keys: Vec<(u8, usize)>)
    ensures
        keys@ == occurrence_keys(changes@, deletions@),
{
    let mut keys: Vec<(u8, usize)> = Vec::new();
    let mut i: usize = 0;
    while i < changes.len()
        invariant
            i <= changes.len(),
            keys@ == changes@.take(i as int).map_values(|p: PatchId| p.sort_key()),
        decreases changes.len() - i,
    {
        keys.push(changes[i].key());
        assert(keys@ =~= changes@.take(i + 1).map_values(|p: PatchId| p.sort_key()));
        i = i + 1;
    }
    assert(changes@.take(i as int) =~= changes@);
    let mut j: usize = 0;
    while j < deletions.len()
        invariant
            j <= deletions.len(),
            keys@ == (changes@ + deletions@.take(j as int)).map_values(|p: PatchId| p.sort_key()),
        decreases deletions.len() - j,
    {
        keys.push(deletions[j].key());
        assert(keys@ =~= (changes@ + deletions@.take(j + 1)).map_values(
            |p: PatchId| p.sort_key(),
        ));
        j = j + 1;
    }
    assert(deletions@.take(j as int) =~= deletions@);
    keys
}

fn contains_patch(patches: &Vec<PatchId>, patch: PatchId) -> (found: bool)
    ensures
        found == patches@.contains(patch),
{
    let mut i: usize = 0;
    while i < patches.len()
        invariant
            i <= patches.len(),
            forall|j: int| 0 <= j < i ==> patches@[j] != patch,
        decreases patches.len() - i,
    {
        if patches[i] == patch {
            return true;
        }
        i = i + 1;
    }
    false
}

/// The mathematical form of what a walk over a partition's events holds.
pub open spec fn held_view(held: Option<(PatchId, &ResourceMetadata)>) -> Option<
    (PatchId, ResourceMetadataView),
> {
    match held {
        Some((patch, info)) => Some((patch, info@)),
        None => None,
    }
}

/// Every sorted key is the key of a listed patch id, and the key of every
/// listed patch id is among the sorted keys.
proof fn lemma_sorted_keys_cover(
    changes: Seq<PatchId>,
    deletions: Seq<PatchId>,
    sorted: Seq<(u8, usize)>,
)
    requires
        sorted.to_multiset() == occurrence_keys(changes, deletions).to_multiset(),
    ensures
        forall|i: int|
            0 <= i < sorted.len() ==> {
                let p = PatchId::of_sort_key(#[trigger] sorted[i]);
                p.sort_key() == sorted[i] && (changes.contains(p) || deletions.contains(p))
            },
        forall|q: PatchId|
            changes.contains(q) || deletions.contains(q) ==> sorted.contains(#[trigger] q.sort_key()),
{
    let all = changes + deletions;
    let keys = occurrence_keys(changes, deletions);
    sorted.to_multiset_ensures();
    keys.to_multiset_ensures();
    assert forall|i: int| 0 <= i < sorted.len() implies {
        let p = PatchId::of_sort_key(#[trigger] sorted[i]);
        p.sort_key() == sorted[i] && (changes.contains(p) || deletions.contains(p))
    } by {
        assert(sorted.contains(sorted[i]));
        assert(sorted.to_multiset().count(sorted[i]) > 0);
        assert(keys.to_multiset().count(sorted[i]) > 0);
        assert(keys.contains(sorted[i]));
        let j = choose|j: int| 0 <= j < keys.len() && keys[j] == sorted[i];
        assert(PatchId::of_sort_key(all[j].sort_key()) == all[j]);
        if j < changes.len() {
            assert(changes[j] == all[j]);
        } else {
            assert(deletions[j - changes.len()] == all[j]);
        }
    }
    assert forall|q: PatchId| changes.contains(q) || deletions.contains(q) implies sorted.contains(
        #[trigger] q.sort_key(),
    ) by {
        if changes.contains(q) {
            let j = choose|j: int| 0 <= j < changes.len() && changes[j] == q;
            assert(keys[j] == q.sort_key());
        } else {
            let j = choose|j: int| 0 <= j < deletions.len() && deletions[j] == q;
            assert(keys[changes.len() + j] == q.sort_key());
        }
        assert(keys.contains(q.sort_key()));
        assert(keys.to_multiset().count(q.sort_key()) > 0);
        assert(sorted.to_multiset().count(q.sort_key()) > 0);
    }
}

/// The order of sort keys is the order of the patch ids they stand for.
proof fn lemma_key_order(a: PatchId, b: PatchId)
    ensures
        key_at_most(a.sort_key(), b.sort_key()) == a.at_most(b),
{
}

/// The versions of the game, each with its own form of package definitions.
#[derive(Clone, Copy, Debug, PartialEq, Eq, Structural)]
pub enum GameVersion {
    HM2016,
    HM2,
    HM3,
}

/// The configuration file of a game lacks the project path, the runtime
/// path, or both; each flag says whether that path is there.
#[derive(Clone, Copy, Debug, PartialEq, Eq, Structural)]
pub struct MissingPaths {
    pub project_path: bool,
    pub runtime_path: bool,
}

/// A game version is none of the three known ones.
#[derive(Clone, Copy, Debug, PartialEq, Eq, Structural)]
pub struct InvalidGameVersion;

/// The game version that a tag names.
pub open spec fn game_version_of(tag: Seq<char>) -> Option<GameVersion> {
    if tag == "HM2016"@ {
        Some(GameVersion::HM2016)
    } else if tag == "HM2"@ {
        Some(GameVersion::HM2)
    } else if tag == "HM3"@ {
        Some(GameVersion::HM3)
    } else {
        None
    }
}

/// The runtime folder of a game: the retail folder, the project path and the
/// runtime path, with a backslash between each two.
pub open spec fn runtime_folder_of(
    retail_folder: Seq<char>,
    project_path: Seq<char>,
    runtime_path: Seq<char>,
) -> Seq<char> {
    retail_folder + seq!['\\'] + project_path + seq!['\\'] + runtime_path
}

/// A layer is within a patch level if it is the base or a patch with at most
/// that number.
pub open spec fn within_patch_level(patch: PatchId, max_patch_level: usize) -> bool {
    match patch {
        PatchId::Base => true,
        PatchId::Patch(n) => n <= max_patch_level,
    }
}

/// The layers that are within a patch level, in their order.
pub open spec fn layers_within(layers: Seq<PatchLayerView>, max_patch_level: usize) -> Seq<
    PatchLayerView,
>
    decreases layers.len(),
{
    if layers.len() == 0 {
        Seq::empty()
    } else if within_patch_level(layers.last().patch, max_patch_level) {
        layers_within(layers.drop_last(), max_patch_level).push(layers.last())
    } else {
        layers_within(layers.drop_last(), max_patch_level)
    }
}

/// The scanner of mounted partitions.
#[derive(Clone, Copy)]
pub struct PackageScan;

impl PackageScan {
    /// The highest patch level that is mounted.
    pub const MAX_PATCH_LEVEL: usize = 301;

    /// The game version that a tag names: `HM2016`, `HM2` or `HM3`. Any
    /// other tag is refused.
    pub fn game_version(tag: &str) -> (r: Result<GameVersion, InvalidGameVersion>)
        ensures
            match r {
                Ok(version) => game_version_of(tag@) == Some(version),
                Err(_) => game_version_of(tag@) is None,
            },
    {
        if same_text(tag, "HM2016") {
            Ok(GameVersion::HM2016)
        } else if same_text(tag, "HM2") {
            Ok(GameVersion::HM2)
        } else if same_text(tag, "HM3") {
            Ok(GameVersion::HM3)
        } else {
            Err(InvalidGameVersion)
        }
    }

    /// The runtime folder of a game, from its retail folder and the two
    /// paths that the configuration file of that folder gives.
    pub fn runtime_folder(
        retail_folder: &str,
        project_path: Option<&str>,
        runtime_path: Option<&str>,
    ) -> (r: Result<String, MissingPaths>)
        ensures
            match r {
                Ok(folder) => project_path is Some && runtime_path is Some && folder@
                    == runtime_folder_of(
                    retail_folder@,
                    project_path->Some_0@,
                    runtime_path->Some_0@,
                ),
                Err(missing) => (project_path is None || runtime_path is None) && missing == (
                MissingPaths {
                    project_path: project_path is Some,
                    runtime_path: runtime_path is Some,
                }),
            },
    {
        match (project_path, runtime_path) {
            (Some(project), Some(runtime)) => {
                proof {
                    reveal_strlit("\\");
                }
                let mut folder = retail_folder.to_owned();
                folder.append("\\");
                folder.append(project);
                folder.append("\\");
                folder.append(runtime);
                assert("\\"@ =~= seq!['\\']);
                Ok(folder)
            },
            _ => Err(
                MissingPaths {
                    project_path: project_path.is_some(),
                    runtime_path: runtime_path.is_some(),
                },
            ),
        }
    }

    /// A partition without the layers above a patch level.
    pub fn cap_patch_level(partition: Partition, max_patch_level: usize) -> (capped: Partition)
        ensures
            capped@.kind == partition@.kind,
            capped@.index == partition@.index,
            capped@.layers == layers_within(partition@.layers, max_patch_level),
    {
        let Partition { kind, index, layers } = partition;
        let mut kept: Vec<PatchLayer> = Vec::new();
        let ghost all = layers.deep_view();
        let ghost raw = layers@;
        assert(kept.deep_view() =~= layers_within(all.take(0), max_patch_level));
        for layer in it: layers
            invariant
                it.seq() == raw,
                all == Seq::new(raw.len(), |i: int| raw[i]@),
                kept.deep_view() == layers_within(all.take(it.index() as int), max_patch_level),
        {
            let ghost before = kept.deep_view();
            let ghost k = it.index() as int;
            assert(all.take(k + 1).drop_last() =~= all.take(k));
            assert(all.take(k + 1).last() == layer@);
            let keep = match layer.patch {
                PatchId::Base => true,
                PatchId::Patch(n) => n <= max_patch_level,
            };
            if keep {
                kept.push(layer);
                assert(kept.deep_view() =~= before.push(layer@));
            }
        }
        assert(all.take(all.len() as int) =~= all);
        Partition { kind, index, layers: kept }
    }

    /// What one partition currently holds for `rrid`.
    ///
    /// The layers that mention the resource are walked in ascending patch
    /// order. A layer that removes the resource clears what was found so far;
    /// a layer that brings it replaces what was found so far.
    pub fn resolve_in_partition(partition: &Partition, rrid: &ResourceId) -> (found: Option<
        ResourceInfoAndPartition,
    >)
        ensures
            match found {
                Some(located) => resolve_in(partition@, *rrid) == Some(located@),
                None => resolve_in(partition@, *rrid) is None,
            },
    {
        let changes = partition.resource_patch_indices(rrid);
        let deletions = partition.resource_removal_indices(rrid);
        let keys = collect_keys(&changes, &deletions);
        let occurrences = sorted_keys(&keys);
        let mut last_occurrence: Option<(PatchId, &ResourceMetadata)> = None;
        let mut k: usize = 0;
        proof {
            lemma_sorted_keys_cover(changes@, deletions@, occurrences@);
        }
        while k < occurrences.len()
            invariant
                k <= occurrences.len(),
                changes@ == patches_with_upsert(partition@.layers, *rrid),
                deletions@ == patches_with_removal(partition@.layers, *rrid),
                forall|i: int|
                    0 <= i < occurrences@.len() ==> {
                        let p = PatchId::of_sort_key(#[trigger] occurrences@[i]);
                        changes@.contains(p) || deletions@.contains(p)
                    },
                k == 0 ==> last_occurrence is None,
                k > 0 ==> held_view(last_occurrence) == partition@.outcome_at(
                    PatchId::of_sort_key(occurrences@[k - 1]),
                    *rrid,
                ),
            decreases occurrences.len() - k,
        {
            let occurrence = PatchId::from_key(occurrences[k]);
            proof {
                lemma_find_upsert_at(partition@.layers, occurrence, *rrid);
                lemma_patches_with_upsert(partition@.layers, *rrid, occurrence);
            }
            if contains_patch(&deletions, occurrence) {
                last_occurrence = None;
            }
            if contains_patch(&changes, occurrence) {
                if let Some(info) = partition.resource_info_from(rrid, occurrence) {
                    last_occurrence = Some((occurrence, info));
                }
            }
            k = k + 1;
        }
        proof {
            if occurrences@.len() == 0 {
                assert forall|p: PatchId| !partition@.has_event(p, *rrid) by {
                    lemma_patches_with_upsert(partition@.layers, *rrid, p);
                    lemma_patches_with_removal(partition@.layers, *rrid, p);
                    if changes@.contains(p) || deletions@.contains(p) {
                        assert(occurrences@.contains(p.sort_key()));
                    }
                }
                lemma_no_event_no_upsert(partition@, *rrid);
            } else {
                let latest = PatchId::of_sort_key(occurrences@[k - 1]);
                lemma_patches_with_upsert(partition@.layers, *rrid, latest);
                lemma_patches_with_removal(partition@.layers, *rrid, latest);
                assert(partition@.has_event(latest, *rrid));
                assert forall|q: PatchId| #[trigger]
                    partition@.has_event(q, *rrid) implies q.at_most(latest) by {
                    lemma_patches_with_upsert(partition@.layers, *rrid, q);
                    lemma_patches_with_removal(partition@.layers, *rrid, q);
                    assert(occurrences@.contains(q.sort_key()));
                    let i = choose|i: int|
                        0 <= i < occurrences@.len() && occurrences@[i] == q.sort_key();
                    assert(key_at_most(occurrences@[i], occurrences@[k - 1]));
                    lemma_key_order(q, latest);
                }
                lemma_latest_upsert_at(partition@, *rrid, latest);
            }
        }
        match last_occurrence {
            Some((patch, info)) => Some(
                ResourceInfoAndPartition::new(info.clone(), partition.file_name(patch)),
            ),
            None => None,
        }
    }

    /// Finds the package that currently holds a resource.
    ///
    /// The partitions are asked in the order given, and the first one that
    /// holds the resource decides: a later partition is never looked at, even
    /// if it has the resource in a higher patch.
    pub fn get_resource_info(partitions: &Vec<Partition>, rrid: &ResourceId) -> (found: Option<
        ResourceInfoAndPartition,
    >)
        ensures
            match found {
                Some(located) => locate(partitions.deep_view(), *rrid) == Some(located@),
                None => locate(partitions.deep_view(), *rrid) is None,
            },
    {
        let mut i: usize = 0;
        assert(partitions.deep_view().skip(0) =~= partitions.deep_view());
        while i < partitions.len()
            invariant
                i <= partitions.len(),
                locate(partitions.deep_view(), *rrid) == locate(
                    partitions.deep_view().skip(i as int),
                    *rrid,
                ),
            decreases partitions.len() - i,
        {
            assert(partitions.deep_view().skip(i as int)[0] == partitions[i as int]@);
            let found = Self::resolve_in_partition(&partitions[i], rrid);
            if found.is_some() {
                return found;
            }
            assert(partitions.deep_view().skip(i as int).drop_first() =~= partitions.deep_view().skip(
                i + 1,
            ));
            i = i + 1;
        }
        None
    }
}

} // verus!
