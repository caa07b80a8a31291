//! What to extract, and where each resource is to be found.

use crate::json_serde::entities_json::{MeshHashes, MeshHashesView};
use crate::package::package_scan::{is_first_holder, no_holder};
use crate::partition::{
    lemma_latest_appears, Partition, PartitionView, PatchId, PatchLayerView, ResourceMetadata,
};
use crate::resource_id::{hex16, law_hex_text_is_unique, parse_id, ResourceId};
use crate::text::same_text;
use vstd::prelude::*;

verus! {

/// The extraction of resources from mounted partitions.
#[derive(Clone, Copy)]
pub struct RpkgExtraction;

/// The extension of the output files of a resource type, with its dot. The
/// types `ALOC`, `PRIM` and `NAVP` have their own; every other type gets that
/// of `AIRG`.
pub open spec fn extension_of(resource_type: Seq<char>) -> Seq<char> {
    if resource_type == "ALOC"@ {
        ".ALOC"@
    } else if resource_type == "PRIM"@ {
        ".PRIM"@
    } else if resource_type == "NAVP"@ {
        ".NAVP"@
    } else {
        ".AIRG"@
    }
}

/// The name of the output file of a resource: the hash as the caller wrote
/// it, and the extension of the resource type.
pub open spec fn output_name(hash: Seq<char>, resource_type: Seq<char>) -> Seq<char> {
    hash + extension_of(resource_type)
}

impl RpkgExtraction {
    /// Where the version number of the newest hash list is published.
    pub const HASH_LIST_VERSION_ENDPOINT: &'static str =
        "https://github.com/glacier-modding/Hitman-Hashes/releases/latest/download/version";

    /// Where the newest hash list is published.
    pub const HASH_LIST_ENDPOINT: &'static str =
        "https://github.com/glacier-modding/Hitman-Hashes/releases/latest/download/hash_list.sml";

    /// The extension of the output files of a resource type, with its dot.
    pub fn file_extension(resource_type: &str) -> (extension: String)
        ensures
            extension@ == extension_of(resource_type@),
    {
        if same_text(resource_type, "ALOC") {
            ".ALOC".to_owned()
        } else if same_text(resource_type, "PRIM") {
            ".PRIM".to_owned()
        } else if same_text(resource_type, "NAVP") {
            ".NAVP".to_owned()
        } else {
            ".AIRG".to_owned()
        }
    }

    /// The name of the output file of a resource.
    pub fn output_file_name(hash: &str, resource_type: &str) -> (name: String)
        ensures
            name@ == output_name(hash@, resource_type@),
    {
        let mut name = hash.to_owned();
        let extension = Self::file_extension(resource_type);
        name.append(extension.as_str());
        name
    }
}

/// Each hash has an output file of its own: for one resource type, two
/// hashes with the same output name are the same hash.
pub proof fn law_output_names_distinct(a: Seq<char>, b: Seq<char>, resource_type: Seq<char>)
    requires
        output_name(a, resource_type) == output_name(b, resource_type),
    ensures
        a == b,
{
    let extension = extension_of(resource_type);
    assert(a.len() == b.len()) by {
        assert((a + extension).len() == (b + extension).len());
    }
    assert forall|i: int| 0 <= i < a.len() implies a[i] == b[i] by {
        assert((a + extension)[i] == a[i]);
        assert((b + extension)[i] == b[i]);
    }
    assert(a =~= b);
}

/// Why a resource could not be looked up.
#[derive(Clone, Copy, Debug, PartialEq, Eq, Structural)]
pub enum ExtractionError {
    /// The hash is not the text of a resource identifier.
    InvalidHash,
    /// No partition holds the resource.
    NotFound,
}

/// Where the current version of a resource is: in which partition, in which
/// layer of it, and with what metadata.
#[derive(Debug)]
pub struct LatestResource {
    /// The position of the partition among the mounted partitions.
    pub partition: usize,
    /// The layer that brought the current version.
    pub patch: PatchId,
    /// The metadata of the current version.
    pub info: ResourceMetadata,
}

/// The hash of a mesh that an extraction of the given type needs: the hash
/// of its collision shape for `ALOC`, that of its render mesh otherwise.
pub open spec fn needed_hash(mesh: MeshHashesView, resource_type: Seq<char>) -> Seq<char> {
    if resource_type == "ALOC"@ {
        mesh.aloc_hash
    } else {
        mesh.prim_hash
    }
}

/// The hashes that the meshes need, each once, in the order in which they
/// first occur.
pub open spec fn needed_hashes(meshes: Seq<MeshHashesView>, resource_type: Seq<char>) -> Seq<
    Seq<char>,
>
    decreases meshes.len(),
{
    if meshes.len() == 0 {
        Seq::empty()
    } else {
        let before = needed_hashes(meshes.drop_last(), resource_type);
        let hash = needed_hash(meshes.last(), resource_type);
        if before.contains(hash) {
            before
        } else {
            before.push(hash)
        }
    }
}

/// The needed hashes are a set: none is listed twice, and a hash is listed
/// exactly if some mesh needs it.
pub proof fn lemma_needed_hashes(meshes: Seq<MeshHashesView>, resource_type: Seq<char>)
    ensures
        needed_hashes(meshes, resource_type).no_duplicates(),
        forall|hash: Seq<char>|
            needed_hashes(meshes, resource_type).contains(hash) <==> exists|i: int|
                0 <= i < meshes.len() && hash == needed_hash(#[trigger] meshes[i], resource_type),
    decreases meshes.len(),
{
    if meshes.len() > 0 {
        let init = meshes.drop_last();
        lemma_needed_hashes(init, resource_type);
        let before = needed_hashes(init, resource_type);
        let last = needed_hash(meshes.last(), resource_type);
        let all = needed_hashes(meshes, resource_type);
        assert forall|hash: Seq<char>| all.contains(hash) <==> exists|i: int|
            0 <= i < meshes.len() && hash == needed_hash(
                #[trigger] meshes[i],
                resource_type,
            ) by {
            if all.contains(hash) {
                if before.contains(hash) {
                    let i = choose|i: int|
                        0 <= i < init.len() && hash == needed_hash(
                            #[trigger] init[i],
                            resource_type,
                        );
                    assert(meshes[i] == init[i]);
                } else {
                    let k = choose|k: int| 0 <= k < all.len() && all[k] == hash;
                    if k < before.len() {
                        assert(before[k] == hash);
                    }
                    assert(hash == needed_hash(meshes[meshes.len() - 1], resource_type));
                }
            }
            if exists|i: int|
                0 <= i < meshes.len() && hash == needed_hash(#[trigger] meshes[i], resource_type) {
                let i = choose|i: int|
                    0 <= i < meshes.len() && hash == needed_hash(
                        #[trigger] meshes[i],
                        resource_type,
                    );
                if i < init.len() {
                    assert(init[i] == meshes[i]);
                    assert(before.contains(hash));
                    let k = choose|k: int| 0 <= k < before.len() && before[k] == hash;
                    assert(all[k] == hash);
                } else {
                    if before.contains(hash) {
                    } else {
                        assert(all[before.len() as int] == hash);
                    }
                }
            }
        }
        if !before.contains(last) {
            assert forall|i: int, j: int| 0 <= i < all.len() && 0 <= j < all.len() && i != j implies all[i]
                != all[j] by {
                if i < before.len() && j < before.len() {
                    assert(before[i] != before[j]);
                } else if i < before.len() {
                    assert(before.contains(before[i]));
                } else {
                    assert(before.contains(before[j]));
                }
            }
        }
    }
}

/// The text forms of a list of identifiers.
pub open spec fn hex_texts(ids: Seq<ResourceId>) -> Seq<Seq<char>> {
    ids.map_values(|id: ResourceId| hex16(id.value))
}

/// The partition currently holds the resource, and as one of the given type.
pub open spec fn holds_of_type(
    partition: PartitionView,
    resource_type: Seq<char>,
    id: ResourceId,
) -> bool {
    partition.latest_upsert(id) is Some && partition.latest_upsert(id)->Some_0.1.data_type
        == resource_type
}

/// Some partition currently holds the resource as one of the given type.
pub open spec fn held_of_type(
    partitions: Seq<PartitionView>,
    resource_type: Seq<char>,
    id: ResourceId,
) -> bool {
    exists|k: int|
        0 <= k < partitions.len() && holds_of_type(#[trigger] partitions[k], resource_type, id)
}

/// The layer lists `id` among the first `count` resources it brings.
pub open spec fn listed_in(layer: PatchLayerView, count: int, id: ResourceId) -> bool {
    exists|j: int| 0 <= j < count && j < layer.upserts.len() && (#[trigger] layer.upserts[j]).id == id
}

/// One of the first `count` layers lists `id` among the resources it brings.
pub open spec fn listed_before(layers: Seq<PatchLayerView>, count: int, id: ResourceId) -> bool {
    exists|i: int|
        0 <= i < count && i < layers.len() && listed_in(
            #[trigger] layers[i],
            layers[i].upserts.len() as int,
            id,
        )
}

fn contains_id(ids: &Vec<ResourceId>, id: ResourceId) -> (found: bool)
    ensures
        found == ids@.contains(id),
{
    let mut i: usize = 0;
    while i < ids.len()
        invariant
            i <= ids.len(),
            forall|j: int| 0 <= j < i ==> ids@[j] != id,
        decreases ids.len() - i,
    {
        if ids[i].value == id.value {
            return true;
        }
        i = i + 1;
    }
    false
}

fn contains_text(texts: &Vec<String>, text: &String) -> (found: bool)
    ensures
        found == texts.deep_view().contains(text@),
{
    let mut i: usize = 0;
    while i < texts.len()
        invariant
            i <= texts.len(),
            forall|j: int| 0 <= j < i ==> texts.deep_view()[j] != text@,
        decreases texts.len() - i,
    {
        if texts[i] == *text {
            assert(texts.deep_view()[i as int] == text@);
            return true;
        }
        i = i + 1;
    }
    false
}

/// Adds to `ids` the resources of one layer that the partition currently
/// holds as resources of the given type.
fn collect_from_layer(
    partition: &Partition,
    layer: usize,
    resource_type: &String,
    ids: Vec<ResourceId>,
) -> (out: Vec<ResourceId>)
    requires
        layer < partition.layers.len(),
        ids@.no_duplicates(),
    ensures
        out@.no_duplicates(),
        forall|id: ResourceId|
            out@.contains(id) <==> ids@.contains(id) || (holds_of_type(
                partition@,
                resource_type@,
                id,
            ) && listed_in(
                partition@.layers[layer as int],
                partition@.layers[layer as int].upserts.len() as int,
                id,
            )),
{
    let mut out = ids;
    let upserts = &partition.layers[layer].upserts;
    let ghost view = partition@.layers[layer as int];
    assert(view == partition.layers[layer as int]@);
    assert(view.upserts == upserts.deep_view());
    let mut j: usize = 0;
    while j < upserts.len()
        invariant
            j <= upserts.len(),
            view.upserts == upserts.deep_view(),
            out@.no_duplicates(),
            forall|id: ResourceId|
                out@.contains(id) <==> ids@.contains(id) || (holds_of_type(
                    partition@,
                    resource_type@,
                    id,
                ) && listed_in(view, j as int, id)),
        decreases upserts.len() - j,
    {
        let id = upserts[j].id;
        assert(view.upserts[j as int] == upserts[j as int]@);
        let ghost before = out@;
        let held = match partition.latest_resource(&id) {
            Some((_, info)) => info.data_type == *resource_type,
            None => false,
        };
        if held && !contains_id(&out, id) {
            out.push(id);
            assert forall|a: int, b: int| 0 <= a < out@.len() && 0 <= b < out@.len() && a != b implies out@[a]
                != out@[b] by {
                if a < before.len() && b < before.len() {
                    assert(before[a] != before[b]);
                } else if a < before.len() {
                    assert(before.contains(before[a]));
                } else {
                    assert(before.contains(before[b]));
                }
            }
        }
        assert forall|other: ResourceId|
            out@.contains(other) <==> ids@.contains(other) || (holds_of_type(
                partition@,
                resource_type@,
                other,
            ) && listed_in(view, j + 1, other)) by {
            if out@.contains(other) {
                let k = choose|k: int| 0 <= k < out@.len() && out@[k] == other;
                if k < before.len() {
                    assert(before[k] == other);
                    assert(before.contains(other));
                    if !ids@.contains(other) {
                        let w = choose|w: int|
                            0 <= w < j && w < view.upserts.len() && (#[trigger] view.upserts[w]).id
                                == other;
                        assert(view.upserts[w].id == other);
                    }
                } else {
                    assert(other == id);
                    assert(view.upserts[j as int].id == other);
                }
            }
            if ids@.contains(other) || (holds_of_type(partition@, resource_type@, other)
                && listed_in(view, j + 1, other)) {
                if ids@.contains(other) || (holds_of_type(partition@, resource_type@, other)
                    && listed_in(view, j as int, other)) {
                    assert(before.contains(other));
                    let k = choose|k: int| 0 <= k < before.len() && before[k] == other;
                    assert(out@[k] == other);
                } else {
                    let w = choose|w: int|
                        0 <= w < j + 1 && w < view.upserts.len() && (#[trigger] view.upserts[w]).id
                            == other;
                    assert(w == j);
                    assert(other == id);
                    if before.contains(id) {
                        let k = choose|k: int| 0 <= k < before.len() && before[k] == id;
                        assert(out@[k] == id);
                    } else {
                        assert(out@[before.len() as int] == id);
                    }
                }
            }
        }
        j = j + 1;
    }
    out
}

/// Adds to `ids` the resources that a partition currently holds as resources
/// of the given type.
fn collect_from_partition(partition: &Partition, resource_type: &String, ids: Vec<ResourceId>) -> (out:
    Vec<ResourceId>)
    requires
        ids@.no_duplicates(),
    ensures
        out@.no_duplicates(),
        forall|id: ResourceId|
            out@.contains(id) <==> ids@.contains(id) || holds_of_type(
                partition@,
                resource_type@,
                id,
            ),
{
    let mut out = ids;
    let mut i: usize = 0;
    while i < partition.layers.len()
        invariant
            i <= partition.layers.len(),
            out@.no_duplicates(),
            forall|id: ResourceId|
                out@.contains(id) <==> ids@.contains(id) || (holds_of_type(
                    partition@,
                    resource_type@,
                    id,
                ) && listed_before(partition@.layers, i as int, id)),
        decreases partition.layers.len() - i,
    {
        let ghost before = out@;
        out = collect_from_layer(partition, i, resource_type, out);
        assert forall|id: ResourceId|
            out@.contains(id) <==> ids@.contains(id) || (holds_of_type(
                partition@,
                resource_type@,
                id,
            ) && listed_before(partition@.layers, i + 1, id)) by {
            let layers = partition@.layers;
            if listed_before(layers, i + 1, id) {
                let w = choose|w: int|
                    0 <= w < i + 1 && w < layers.len() && listed_in(
                        #[trigger] layers[w],
                        layers[w].upserts.len() as int,
                        id,
                    );
                if w < i {
                    assert(listed_before(layers, i as int, id));
                }
            }
            if listed_before(layers, i as int, id) {
                let w = choose|w: int|
                    0 <= w < i && w < layers.len() && listed_in(
                        #[trigger] layers[w],
                        layers[w].upserts.len() as int,
                        id,
                    );
                assert(listed_in(layers[w], layers[w].upserts.len() as int, id));
                assert(listed_before(layers, i + 1, id));
            }
            if listed_in(layers[i as int], layers[i as int].upserts.len() as int, id) {
                assert(listed_before(layers, i + 1, id));
            }
        }
        i = i + 1;
    }
    proof {
        assert forall|id: ResourceId|
            holds_of_type(partition@, resource_type@, id) implies listed_before(
            partition@.layers,
            i as int,
            id,
        ) by {
            lemma_latest_appears(partition@, id);
            let layers = partition@.layers;
            let (a, b) = choose|a: int, b: int|
                0 <= a < layers.len() && 0 <= b < layers[a].upserts.len() && (
                #[trigger] layers[a].upserts[b]).id == id;
            assert(listed_in(layers[a], layers[a].upserts.len() as int, id));
        }
    }
    out
}

impl RpkgExtraction {
    /// The hashes of the resources that a scene needs: those of the
    /// collision shapes of its meshes for the type `ALOC`, those of the render
    /// meshes for any other type. Each hash is listed once, where it first
    /// occurs.
    pub fn get_needed_aloc_or_prim_hashes_from_scene(
        scene_meshes: &Vec<MeshHashes>,
        aloc_or_prim_type: String,
    ) -> (needed: Vec<String>)
        ensures
            needed.deep_view() == needed_hashes(scene_meshes.deep_view(), aloc_or_prim_type@),
            needed.deep_view().no_duplicates(),
    {
        let wants_aloc = same_text(aloc_or_prim_type.as_str(), "ALOC");
        let mut needed: Vec<String> = Vec::new();
        let mut i: usize = 0;
        assert(needed.deep_view() =~= Seq::<Seq<char>>::empty());
        while i < scene_meshes.len()
            invariant
                i <= scene_meshes.len(),
                wants_aloc == (aloc_or_prim_type@ == "ALOC"@),
                needed.deep_view() == needed_hashes(
                    scene_meshes.deep_view().take(i as int),
                    aloc_or_prim_type@,
                ),
            decreases scene_meshes.len() - i,
        {
            let ghost meshes = scene_meshes.deep_view();
            assert(meshes.take(i + 1).drop_last() =~= meshes.take(i as int));
            assert(meshes.take(i + 1).last() == scene_meshes[i as int]@);
            let hash = if wants_aloc {
                &scene_meshes[i].aloc_hash
            } else {
                &scene_meshes[i].prim_hash
            };
            if !contains_text(&needed, hash) {
                let ghost before = needed.deep_view();
                needed.push(hash.clone());
                assert(needed.deep_view() =~= before.push(hash@));
            }
            i = i + 1;
        }
        assert(scene_meshes.deep_view().take(i as int) =~= scene_meshes.deep_view());
        proof {
            lemma_needed_hashes(scene_meshes.deep_view(), aloc_or_prim_type@);
        }
        needed
    }

    /// Finds the current version of a resource: the first partition, in
    /// the order given, that holds the resource, and what it holds.
    pub fn extract_latest_resource(resource_id: ResourceId, partitions: &Vec<Partition>) -> (r:
        Result<LatestResource, ExtractionError>)
        ensures
            match r {
                Ok(found) => is_first_holder(
                    partitions.deep_view(),
                    resource_id,
                    found.partition as int,
                ) && partitions.deep_view()[found.partition as int].latest_upsert(resource_id)
                    == Some((found.patch, found.info@)),
                Err(reason) => reason == ExtractionError::NotFound && no_holder(
                    partitions.deep_view(),
                    resource_id,
                ),
            },
    {
        let mut i: usize = 0;
        while i < partitions.len()
            invariant
                i <= partitions.len(),
                forall|j: int|
                    0 <= j < i ==> (#[trigger] partitions.deep_view()[j]).latest_upsert(resource_id)
                        is None,
            decreases partitions.len() - i,
        {
            assert(partitions.deep_view()[i as int] == partitions[i as int]@);
            if let Some((patch, info)) = partitions[i].latest_resource(&resource_id) {
                return Ok(LatestResource { partition: i, patch, info: info.clone() });
            }
            i = i + 1;
        }
        Err(ExtractionError::NotFound)
    }

    /// The hashes of the resources that the current version of a resource
    /// depends on, in the order in which it lists them.
    pub fn get_all_referenced_hashes_by_hash_from_rpkg_files(
        resource_hash: String,
        partitions: &Vec<Partition>,
    ) -> (r: Result<Vec<String>, ExtractionError>)
        ensures
            match r {
                Ok(hashes) => parse_id(resource_hash@) is Ok && exists|k: int|
                    is_first_holder(partitions.deep_view(), parse_id(resource_hash@)->Ok_0, k)
                        && hashes.deep_view() == hex_texts(
                        (#[trigger] partitions.deep_view()[k]).latest_upsert(
                            parse_id(resource_hash@)->Ok_0,
                        )->Some_0.1.references,
                    ),
                Err(ExtractionError::InvalidHash) => parse_id(resource_hash@) is Err,
                Err(ExtractionError::NotFound) => parse_id(resource_hash@) is Ok && no_holder(
                    partitions.deep_view(),
                    parse_id(resource_hash@)->Ok_0,
                ),
            },
    {
        let rrid = match ResourceId::from_hex_string(resource_hash.as_str()) {
            Ok(id) => id,
            Err(_) => {
                return Err(ExtractionError::InvalidHash);
            },
        };
        let found = match Self::extract_latest_resource(rrid, partitions) {
            Ok(found) => found,
            Err(_) => {
                return Err(ExtractionError::NotFound);
            },
        };
        let hashes = Self::hex_strings(&found.info.references);
        assert(partitions.deep_view()[found.partition as int].latest_upsert(rrid)->Some_0.1.references
            == found.info.references@);
        Ok(hashes)
    }

    /// The text forms of a list of identifiers.
    pub fn hex_strings(ids: &Vec<ResourceId>) -> (texts: Vec<String>)
        ensures
            texts.deep_view() == hex_texts(ids@),
    {
        let mut texts: Vec<String> = Vec::new();
        let mut i: usize = 0;
        assert(texts.deep_view() =~= hex_texts(ids@.take(0)));
        while i < ids.len()
            invariant
                i <= ids.len(),
                texts.deep_view() == hex_texts(ids@.take(i as int)),
            decreases ids.len() - i,
        {
            let ghost before = texts.deep_view();
            texts.push(ids[i].to_hex_string());
            assert(texts.deep_view() =~= before.push(hex16(ids@[i as int].value)));
            assert(texts.deep_view() =~= hex_texts(ids@.take(i + 1)));
            i = i + 1;
        }
        assert(ids@.take(i as int) =~= ids@);
        texts
    }

    /// The resources that some partition currently holds as resources of
    /// the given type, each once.
    pub fn latest_ids_of_type(partitions: &Vec<Partition>, resource_type: &String) -> (ids: Vec<
        ResourceId,
    >)
        ensures
            ids@.no_duplicates(),
            forall|id: ResourceId|
                ids@.contains(id) <==> held_of_type(partitions.deep_view(), resource_type@, id),
    {
        let mut ids: Vec<ResourceId> = Vec::new();
        let mut k: usize = 0;
        while k < partitions.len()
            invariant
                k <= partitions.len(),
                ids@.no_duplicates(),
                forall|id: ResourceId|
                    ids@.contains(id) <==> held_of_type(
                        partitions.deep_view().take(k as int),
                        resource_type@,
                        id,
                    ),
            decreases partitions.len() - k,
        {
            let ghost before = ids@;
            let ghost parts = partitions.deep_view();
            assert(parts[k as int] == partitions[k as int]@);
            ids = collect_from_partition(&partitions[k], resource_type, ids);
            assert forall|id: ResourceId|
                ids@.contains(id) <==> held_of_type(parts.take(k + 1), resource_type@, id) by {
                if held_of_type(parts.take(k + 1), resource_type@, id) {
                    let w = choose|w: int|
                        0 <= w < parts.take(k + 1).len() && holds_of_type(
                            #[trigger] parts.take(k + 1)[w],
                            resource_type@,
                            id,
                        );
                    if w < k {
                        assert(holds_of_type(parts.take(k as int)[w], resource_type@, id));
                    }
                }
                if held_of_type(parts.take(k as int), resource_type@, id) {
                    let w = choose|w: int|
                        0 <= w < parts.take(k as int).len() && holds_of_type(
                            #[trigger] parts.take(k as int)[w],
                            resource_type@,
                            id,
                        );
                    assert(holds_of_type(parts.take(k + 1)[w], resource_type@, id));
                }
                if holds_of_type(parts[k as int], resource_type@, id) {
                    assert(holds_of_type(parts.take(k + 1)[k as int], resource_type@, id));
                }
            }
            k = k + 1;
        }
        assert(partitions.deep_view().take(k as int) =~= partitions.deep_view());
        ids
    }

    /// The hashes of all resources of a type: of every resource that some
    /// partition currently holds as a resource of that type, each once.
    pub fn get_all_resources_hashes_by_type_from_rpkg_files(
        partitions: &Vec<Partition>,
        resource_type: String,
    ) -> (hashes: Vec<String>)
        ensures
            hashes.deep_view().no_duplicates(),
            forall|text: Seq<char>|
                hashes.deep_view().contains(text) <==> exists|id: ResourceId|
                    #[trigger] held_of_type(partitions.deep_view(), resource_type@, id) && text
                        == hex16(id.value),
    {
        let ids = Self::latest_ids_of_type(partitions, &resource_type);
        let hashes = Self::hex_strings(&ids);
        proof {
            let texts = hashes.deep_view();
            assert forall|a: int, b: int| 0 <= a < texts.len() && 0 <= b < texts.len() && a
                != b implies texts[a] != texts[b] by {
                if texts[a] == texts[b] {
                    law_hex_text_is_unique(ids@[a].value, ids@[b].value);
                }
            }
            assert forall|text: Seq<char>|
                texts.contains(text) <==> exists|id: ResourceId|
                    #[trigger] held_of_type(partitions.deep_view(), resource_type@, id) && text
                        == hex16(id.value) by {
                if texts.contains(text) {
                    let a = choose|a: int| 0 <= a < texts.len() && texts[a] == text;
                    assert(ids@.contains(ids@[a]));
                    assert(held_of_type(partitions.deep_view(), resource_type@, ids@[a]));
                }
                if exists|id: ResourceId|
                    #[trigger] held_of_type(partitions.deep_view(), resource_type@, id) && text
                        == hex16(id.value) {
                    let id = choose|id: ResourceId|
                        #[trigger] held_of_type(partitions.deep_view(), resource_type@, id) && text
                            == hex16(id.value);
                    assert(ids@.contains(id));
                    let a = choose|a: int| 0 <= a < ids@.len() && ids@[a] == id;
                    assert(texts[a] == text);
                }
            }
        }
        hashes
    }
}

} // verus!
