//! Partitions, their patch layers and the events the layers hold.
//!
//! A partition is a base package and any number of patch packages. Each
//! package is a layer: it may bring a resource (an upsert, with the resource's
//! metadata) or mark one as removed (a delete). What a partition currently
//! holds for an identifier is decided by the layer with the highest patch
//! index that mentions the identifier at all.

use crate::resource_id::ResourceId;
use rpkg_rs::resource::pdefs::{PartitionId, PartitionType};
use rpkg_rs::resource::resource_partition::PatchId as PackagePatchId;
use vstd::prelude::*;

verus! {

/// The place of a layer in its partition: the base package, or a numbered
/// patch. The base comes before every patch, patches go by their number.
#[derive(Clone, Copy, Debug, PartialEq, Eq, Hash, Structural)]
pub enum PatchId {
    Base,
    Patch(usize),
}

impl PatchId {
    /// A pair of integers that orders as the patch ids do.
    pub open spec fn sort_key(self) -> (u8, usize) {
        match self {
            PatchId::Base => (0u8, 0usize),
            PatchId::Patch(n) => (1u8, n),
        }
    }

    /// The patch id that a sort key stands for. A key whose first part is 0
    /// stands for the base, whatever its second part.
    pub open spec fn of_sort_key(key: (u8, usize)) -> PatchId {
        if key.0 == 0 {
            PatchId::Base
        } else {
            PatchId::Patch(key.1)
        }
    }

    /// `self` is applied before `other`, or is the same layer.
    pub open spec fn at_most(self, other: PatchId) -> bool {
        match (self, other) {
            (PatchId::Base, _) => true,
            (PatchId::Patch(_), PatchId::Base) => false,
            (PatchId::Patch(a), PatchId::Patch(b)) => a <= b,
        }
    }

    /// The sort key of this patch id.
    pub fn key(&self) -> (k: (u8, usize))
        ensures
            k == self.sort_key(),
    {
        match self {
            PatchId::Base => (0, 0),
            PatchId::Patch(n) => (1, *n),
        }
    }

    /// Whether `self` is applied before `other`, or is the same layer.
    pub fn not_after(&self, other: &PatchId) -> (r: bool)
        ensures
            r == self.at_most(*other),
    {
        match (self, other) {
            (PatchId::Base, _) => true,
            (PatchId::Patch(_), PatchId::Base) => false,
            (PatchId::Patch(a), PatchId::Patch(b)) => *a <= *b,
        }
    }

    /// The patch id that a sort key stands for.
    pub fn from_key(key: (u8, usize)) -> (p: PatchId)
        ensures
            p == PatchId::of_sort_key(key),
    {
        if key.0 == 0 {
            PatchId::Base
        } else {
            PatchId::Patch(key.1)
        }
    }
}

/// The lexicographic order of sort keys.
pub open spec fn key_at_most(a: (u8, usize), b: (u8, usize)) -> bool {
    a.0 < b.0 || (a.0 == b.0 && a.1 <= b.1)
}

/// What kind of partition a package belongs to. The kind and the index
/// together name the partition's files.
#[derive(Debug)]
pub enum PartitionKind {
    Standard,
    Addon,
    Dlc,
    LanguageStandard(String),
    LanguageDlc(String),
}

/// The mathematical form of a [`PartitionKind`].
pub enum PartitionKindView {
    Standard,
    Addon,
    Dlc,
    LanguageStandard(Seq<char>),
    LanguageDlc(Seq<char>),
}

impl View for PartitionKind {
    type V = PartitionKindView;

    open spec fn view(&self) -> PartitionKindView {
        match self {
            PartitionKind::Standard => PartitionKindView::Standard,
            PartitionKind::Addon => PartitionKindView::Addon,
            PartitionKind::Dlc => PartitionKindView::Dlc,
            PartitionKind::LanguageStandard(lang) => PartitionKindView::LanguageStandard(lang@),
            PartitionKind::LanguageDlc(lang) => PartitionKindView::LanguageDlc(lang@),
        }
    }
}

/// What a layer records about one resource.
#[derive(Debug)]
pub struct ResourceMetadata {
    /// The resource this entry is about.
    pub id: ResourceId,
    /// The resource's logical type, such as `ALOC` or `PRIM`.
    pub data_type: String,
    /// Where the resource's bytes start in the package file.
    pub data_offset: u64,
    /// How many bytes the resource has once unpacked.
    pub data_size: u32,
    /// The resources this one depends on.
    pub references: Vec<ResourceId>,
}

/// The mathematical form of a [`ResourceMetadata`].
pub struct ResourceMetadataView {
    pub id: ResourceId,
    pub data_type: Seq<char>,
    pub data_offset: u64,
    pub data_size: u32,
    pub references: Seq<ResourceId>,
}

impl View for ResourceMetadata {
    type V = ResourceMetadataView;

    open spec fn view(&self) -> ResourceMetadataView {
        ResourceMetadataView {
            id: self.id,
            data_type: self.data_type@,
            data_offset: self.data_offset,
            data_size: self.data_size,
            references: self.references@,
        }
    }
}

impl DeepView for ResourceMetadata {
    type V = ResourceMetadataView;

    open spec fn deep_view(&self) -> ResourceMetadataView {
        self@
    }
}

impl Clone for ResourceMetadata {
    fn clone(&self) -> (copy: ResourceMetadata)
        ensures
            copy@ == self@,
    {
        let mut references: Vec<ResourceId> = Vec::new();
        let mut i: usize = 0;
        while i < self.references.len()
            invariant
                i <= self.references.len(),
                references@ == self.references@.take(i as int),
            decreases self.references.len() - i,
        {
            references.push(self.references[i]);
            assert(self.references@.take(i + 1) =~= self.references@.take(i as int).push(
                self.references@[i as int],
            ));
            i = i + 1;
        }
        assert(references@ =~= self.references@);
        ResourceMetadata {
            id: self.id,
            data_type: self.data_type.clone(),
            data_offset: self.data_offset,
            data_size: self.data_size,
            references,
        }
    }
}

/// One package of a partition: the resources it brings and the ones it
/// removes.
#[derive(Debug)]
pub struct PatchLayer {
    pub patch: PatchId,
    pub upserts: Vec<ResourceMetadata>,
    pub deletes: Vec<ResourceId>,
}

/// The mathematical form of a [`PatchLayer`].
pub struct PatchLayerView {
    pub patch: PatchId,
    pub upserts: Seq<ResourceMetadataView>,
    pub deletes: Seq<ResourceId>,
}

impl View for PatchLayer {
    type V = PatchLayerView;

    open spec fn view(&self) -> PatchLayerView {
        PatchLayerView {
            patch: self.patch,
            upserts: self.upserts.deep_view(),
            deletes: self.deletes@,
        }
    }
}

impl DeepView for PatchLayer {
    type V = PatchLayerView;

    open spec fn deep_view(&self) -> PatchLayerView {
        self@
    }
}

/// A partition: its name parts and its layers, in no particular order.
#[derive(Debug)]
pub struct Partition {
    pub kind: PartitionKind,
    pub index: usize,
    pub layers: Vec<PatchLayer>,
}

/// The mathematical form of a [`Partition`].
pub struct PartitionView {
    pub kind: PartitionKindView,
    pub index: usize,
    pub layers: Seq<PatchLayerView>,
}

impl View for Partition {
    type V = PartitionView;

    open spec fn view(&self) -> PartitionView {
        PartitionView { kind: self.kind@, index: self.index, layers: self.layers.deep_view() }
    }
}

impl DeepView for Partition {
    type V = PartitionView;

    open spec fn deep_view(&self) -> PartitionView {
        self@
    }
}

/// A number in decimal, without sign or padding.
pub open spec fn decimal(n: nat) -> Seq<char>
    decreases n,
{
    if n < 10 {
        seq![('0' as int + n) as char]
    } else {
        decimal(n / 10).push(('0' as int + n % 10) as char)
    }
}

/// The name of a partition: `chunk` or `dlc`, the index, and for a language
/// partition `lang` and the language.
pub open spec fn partition_name(kind: PartitionKindView, index: usize) -> Seq<char> {
    match kind {
        PartitionKindView::Standard => "chunk"@ + decimal(index as nat),
        PartitionKindView::Addon => "chunk"@ + decimal(index as nat),
        PartitionKindView::Dlc => "dlc"@ + decimal(index as nat),
        PartitionKindView::LanguageStandard(lang) => "chunk"@ + decimal(index as nat) + "lang"@
            + lang,
        PartitionKindView::LanguageDlc(lang) => "dlc"@ + decimal(index as nat) + "lang"@ + lang,
    }
}

/// The name of the package file of one layer of a partition.
pub open spec fn package_file_name(kind: PartitionKindView, index: usize, patch: PatchId) -> Seq<
    char,
> {
    match patch {
        PatchId::Base => partition_name(kind, index) + ".rpkg"@,
        PatchId::Patch(n) => partition_name(kind, index) + "patch"@ + decimal(n as nat)
            + ".rpkg"@,
    }
}

/// Calls `PartitionId::to_filename` of rpkg-rs.
///
/// The claim: the file of the base package is named by the partition's name
/// and `.rpkg`; the file of patch `n` has `patch` and `n` in decimal between
/// the two. The partition's name is `chunk` (standard and addon partitions)
/// or `dlc`, then the index in decimal, then, for a language partition, `lang`
/// and the language.
#[verifier::external_body]
fn package_file_name_of(kind: &PartitionKind, index: usize, patch: PatchId) -> (name: String)
    ensures
        name@ == package_file_name(kind@, index, patch),
{
    let part_type = match kind {
        PartitionKind::Standard => PartitionType::Standard,
        PartitionKind::Addon => PartitionType::Addon,
        PartitionKind::Dlc => PartitionType::Dlc,
        PartitionKind::LanguageStandard(lang) => PartitionType::LanguageStandard(lang.clone()),
        PartitionKind::LanguageDlc(lang) => PartitionType::LanguageDlc(lang.clone()),
    };
    let patch_index = match patch {
        PatchId::Base => PackagePatchId::Base,
        PatchId::Patch(n) => PackagePatchId::Patch(n),
    };
    PartitionId { part_type, index }.to_filename(patch_index)
}

/// The first entry for `id` among a layer's upserts.
pub open spec fn find_upsert(upserts: Seq<ResourceMetadataView>, id: ResourceId) -> Option<
    ResourceMetadataView,
>
    decreases upserts.len(),
{
    if upserts.len() == 0 {
        None
    } else if upserts[0].id == id {
        Some(upserts[0])
    } else {
        find_upsert(upserts.drop_first(), id)
    }
}

impl PatchLayerView {
    /// The metadata this layer brings for `id`, if it brings any.
    pub open spec fn upsert_of(self, id: ResourceId) -> Option<ResourceMetadataView> {
        find_upsert(self.upserts, id)
    }

    /// This layer removes `id`.
    pub open spec fn removes(self, id: ResourceId) -> bool {
        self.deletes.contains(id)
    }

    /// This layer has an event for `id`, of either kind.
    pub open spec fn mentions(self, id: ResourceId) -> bool {
        self.upsert_of(id) is Some || self.removes(id)
    }
}

impl PatchLayer {
    /// The metadata this layer brings for `id`, if it brings any.
    pub fn find_upsert(&self, id: &ResourceId) -> (found: Option<&ResourceMetadata>)
        ensures
            match found {
                Some(info) => self@.upsert_of(*id) == Some(info@),
                None => self@.upsert_of(*id) is None,
            },
    {
        let mut i: usize = 0;
        assert(self@.upserts.skip(0) =~= self@.upserts);
        while i < self.upserts.len()
            invariant
                i <= self.upserts.len(),
                self@.upsert_of(*id) == find_upsert(self@.upserts.skip(i as int), *id),
            decreases self.upserts.len() - i,
        {
            if self.upserts[i].id.value == id.value {
                assert(self@.upserts.skip(i as int)[0] == self.upserts[i as int]@);
                return Some(&self.upserts[i]);
            }
            assert(self@.upserts.skip(i as int).drop_first() =~= self@.upserts.skip(i + 1));
            i = i + 1;
        }
        None
    }

    /// Whether this layer removes `id`.
    pub fn removes(&self, id: &ResourceId) -> (removed: bool)
        ensures
            removed == self@.removes(*id),
    {
        let mut i: usize = 0;
        while i < self.deletes.len()
            invariant
                i <= self.deletes.len(),
                forall|j: int| 0 <= j < i ==> self.deletes@[j] != *id,
            decreases self.deletes.len() - i,
        {
            if self.deletes[i].value == id.value {
                return true;
            }
            i = i + 1;
        }
        false
    }

    /// Whether this layer has an event for `id`, of either kind.
    pub fn mentions(&self, id: &ResourceId) -> (mentioned: bool)
        ensures
            mentioned == self@.mentions(*id),
    {
        self.find_upsert(id).is_some() || self.removes(id)
    }
}

/// The first upsert of `id` in a layer with the given patch id.
pub open spec fn find_upsert_at(layers: Seq<PatchLayerView>, patch: PatchId, id: ResourceId) -> Option<
    ResourceMetadataView,
>
    decreases layers.len(),
{
    if layers.len() == 0 {
        None
    } else if layers[0].patch == patch && layers[0].upsert_of(id) is Some {
        layers[0].upsert_of(id)
    } else {
        find_upsert_at(layers.drop_first(), patch, id)
    }
}

/// The patch ids of the layers of which something holds, in the layers'
/// order.
pub open spec fn patches_where(layers: Seq<PatchLayerView>, holds: spec_fn(PatchLayerView) -> bool) -> Seq<
    PatchId,
>
    decreases layers.len(),
{
    if layers.len() == 0 {
        Seq::empty()
    } else if holds(layers.last()) {
        patches_where(layers.drop_last(), holds).push(layers.last().patch)
    } else {
        patches_where(layers.drop_last(), holds)
    }
}

/// The patch ids of the layers that bring `id`, in the layers' order.
pub open spec fn patches_with_upsert(layers: Seq<PatchLayerView>, id: ResourceId) -> Seq<PatchId> {
    patches_where(layers, |layer: PatchLayerView| layer.upsert_of(id) is Some)
}

/// The patch ids of the layers that remove `id`, in the layers' order.
pub open spec fn patches_with_removal(layers: Seq<PatchLayerView>, id: ResourceId) -> Seq<PatchId> {
    patches_where(layers, |layer: PatchLayerView| layer.removes(id))
}

impl PartitionView {
    /// Some layer with this patch id brings `id`.
    pub open spec fn has_upsert(self, patch: PatchId, id: ResourceId) -> bool {
        exists|i: int|
            0 <= i < self.layers.len() && (#[trigger] self.layers[i]).patch == patch
                && self.layers[i].upsert_of(id) is Some
    }

    /// Some layer with this patch id removes `id`.
    pub open spec fn has_removal(self, patch: PatchId, id: ResourceId) -> bool {
        exists|i: int|
            0 <= i < self.layers.len() && (#[trigger] self.layers[i]).patch == patch
                && self.layers[i].removes(id)
    }

    /// Some layer with this patch id has an event for `id`.
    pub open spec fn has_event(self, patch: PatchId, id: ResourceId) -> bool {
        self.has_upsert(patch, id) || self.has_removal(patch, id)
    }

    /// `patch` has an event for `id`, and no later patch has one.
    pub open spec fn is_latest_event(self, patch: PatchId, id: ResourceId) -> bool {
        self.has_event(patch, id) && forall|q: PatchId| #[trigger]
            self.has_event(q, id) ==> q.at_most(patch)
    }

    /// The metadata that the layer `patch` brings for `id`.
    pub open spec fn upsert_at(self, patch: PatchId, id: ResourceId) -> Option<
        ResourceMetadataView,
    > {
        find_upsert_at(self.layers, patch, id)
    }

    /// What the partition currently holds for `id`: the upsert of the latest
    /// layer that mentions `id`, with that layer's patch id. Nothing where no
    /// layer mentions `id`, or where the latest one that does only removes it.
    pub open spec fn latest_upsert(self, id: ResourceId) -> Option<(PatchId, ResourceMetadataView)> {
        if exists|p: PatchId| self.is_latest_event(p, id) {
            let p = choose|p: PatchId| self.is_latest_event(p, id);
            match self.upsert_at(p, id) {
                Some(info) => Some((p, info)),
                None => None,
            }
        } else {
            None
        }
    }
}

impl Partition {
    /// The patch ids of the layers that bring `id`, in the layers' order.
    pub fn resource_patch_indices(&self, id: &ResourceId) -> (patches: Vec<PatchId>)
        ensures
            patches@ == patches_with_upsert(self@.layers, *id),
    {
        let mut patches: Vec<PatchId> = Vec::new();
        let mut i: usize = 0;
        while i < self.layers.len()
            invariant
                i <= self.layers.len(),
                patches@ == patches_with_upsert(self@.layers.take(i as int), *id),
            decreases self.layers.len() - i,
        {
            assert(self@.layers.take(i + 1).drop_last() =~= self@.layers.take(i as int));
            assert(self@.layers.take(i + 1).last() == self.layers[i as int]@);
            if self.layers[i].find_upsert(id).is_some() {
                patches.push(self.layers[i].patch);
            }
            i = i + 1;
        }
        assert(self@.layers.take(i as int) =~= self@.layers);
        patches
    }

    /// The patch ids of the layers that remove `id`, in the layers' order.
    pub fn resource_removal_indices(&self, id: &ResourceId) -> (patches: Vec<PatchId>)
        ensures
            patches@ == patches_with_removal(self@.layers, *id),
    {
        let mut patches: Vec<PatchId> = Vec::new();
        let mut i: usize = 0;
        while i < self.layers.len()
            invariant
                i <= self.layers.len(),
                patches@ == patches_with_removal(self@.layers.take(i as int), *id),
            decreases self.layers.len() - i,
        {
            assert(self@.layers.take(i + 1).drop_last() =~= self@.layers.take(i as int));
            assert(self@.layers.take(i + 1).last() == self.layers[i as int]@);
            if self.layers[i].removes(id) {
                patches.push(self.layers[i].patch);
            }
            i = i + 1;
        }
        assert(self@.layers.take(i as int) =~= self@.layers);
        patches
    }

    /// The metadata that the layer `patch` brings for `id`.
    pub fn resource_info_from(&self, id: &ResourceId, patch: PatchId) -> (found: Option<
        &ResourceMetadata,
    >)
        ensures
            match found {
                Some(info) => self@.upsert_at(patch, *id) == Some(info@),
                None => self@.upsert_at(patch, *id) is None,
            },
    {
        let mut i: usize = 0;
        assert(self@.layers.skip(0) =~= self@.layers);
        while i < self.layers.len()
            invariant
                i <= self.layers.len(),
                self@.upsert_at(patch, *id) == find_upsert_at(
                    self@.layers.skip(i as int),
                    patch,
                    *id,
                ),
            decreases self.layers.len() - i,
        {
            assert(self@.layers.skip(i as int)[0] == self.layers[i as int]@);
            if self.layers[i].patch == patch {
                let found = self.layers[i].find_upsert(id);
                if found.is_some() {
                    return found;
                }
            }
            assert(self@.layers.skip(i as int).drop_first() =~= self@.layers.skip(i + 1));
            i = i + 1;
        }
        None
    }

    /// The name of the package file of the layer `patch`.
    pub fn file_name(&self, patch: PatchId) -> (name: String)
        ensures
            name@ == package_file_name(self@.kind, self@.index, patch),
    {
        package_file_name_of(&self.kind, self.index, patch)
    }

    /// What the partition currently holds for `id`, with the patch id of the
    /// layer that brought it.
    pub fn latest_resource(&self, id: &ResourceId) -> (found: Option<(PatchId, &ResourceMetadata)>)
        ensures
            match found {
                Some((patch, info)) => self@.latest_upsert(*id) == Some((patch, info@)),
                None => self@.latest_upsert(*id) is None,
            },
    {
        let mut latest: Option<PatchId> = None;
        let mut i: usize = 0;
        while i < self.layers.len()
            invariant
                i <= self.layers.len(),
                latest is None ==> forall|j: int| 0 <= j < i ==> !(#[trigger] self@.layers[j]).mentions(*id),
                latest is Some ==> exists|j: int|
                    0 <= j < i && (#[trigger] self@.layers[j]).patch == latest->Some_0
                        && self@.layers[j].mentions(*id),
                latest is Some ==> forall|j: int|
                    0 <= j < i && (#[trigger] self@.layers[j]).mentions(*id)
                        ==> self@.layers[j].patch.at_most(latest->Some_0),
            decreases self.layers.len() - i,
        {
            assert(self@.layers[i as int] == self.layers[i as int]@);
            if self.layers[i].mentions(id) {
                let patch = self.layers[i].patch;
                let newer = match latest {
                    Some(seen) => seen.not_after(&patch),
                    None => true,
                };
                if newer {
                    latest = Some(patch);
                }
            }
            i = i + 1;
        }
        match latest {
            None => {
                proof {
                    lemma_no_event_no_upsert(self@, *id);
                }
                None
            },
            Some(patch) => {
                proof {
                    lemma_latest_upsert_at(self@, *id, patch);
                }
                match self.resource_info_from(id, patch) {
                    Some(info) => Some((patch, info)),
                    None => None,
                }
            },
        }
    }
}

/// Two patch ids that are each at most the other are the same.
pub proof fn lemma_at_most_antisymmetric(a: PatchId, b: PatchId)
    requires
        a.at_most(b),
        b.at_most(a),
    ensures
        a == b,
{
}

/// A partition has at most one latest event for an identifier.
pub proof fn lemma_latest_event_unique(partition: PartitionView, id: ResourceId, p: PatchId, q: PatchId)
    requires
        partition.is_latest_event(p, id),
        partition.is_latest_event(q, id),
    ensures
        p == q,
{
    lemma_at_most_antisymmetric(p, q);
}

impl PartitionView {
    /// What the layer `patch` leaves behind for `id`: its upsert, if it has
    /// one, and nothing otherwise.
    pub open spec fn outcome_at(self, patch: PatchId, id: ResourceId) -> Option<
        (PatchId, ResourceMetadataView),
    > {
        match self.upsert_at(patch, id) {
            Some(info) => Some((patch, info)),
            None => None,
        }
    }
}

/// Once the latest event is known, so is what the partition holds.
pub proof fn lemma_latest_upsert_at(partition: PartitionView, id: ResourceId, p: PatchId)
    requires
        partition.is_latest_event(p, id),
    ensures
        partition.latest_upsert(id) == partition.outcome_at(p, id),
{
    let q = choose|q: PatchId| partition.is_latest_event(q, id);
    lemma_latest_event_unique(partition, id, p, q);
}

/// A partition without an event for an identifier holds nothing for it.
pub proof fn lemma_no_event_no_upsert(partition: PartitionView, id: ResourceId)
    requires
        forall|p: PatchId| !partition.has_event(p, id),
    ensures
        partition.latest_upsert(id) is None,
{
}

/// A layer brings `id` exactly where a search of its upserts finds an entry,
/// and the entry found is about `id`.
pub proof fn lemma_find_upsert(upserts: Seq<ResourceMetadataView>, id: ResourceId)
    ensures
        find_upsert(upserts, id) is Some <==> exists|j: int|
            0 <= j < upserts.len() && (#[trigger] upserts[j]).id == id,
        find_upsert(upserts, id) is Some ==> find_upsert(upserts, id)->Some_0.id == id,
    decreases upserts.len(),
{
    if upserts.len() > 0 {
        lemma_find_upsert(upserts.drop_first(), id);
        if upserts[0].id != id {
            let rest = upserts.drop_first();
            if find_upsert(rest, id) is Some {
                let j = choose|j: int| 0 <= j < rest.len() && (#[trigger] rest[j]).id == id;
                assert(upserts[j + 1].id == id);
            }
            if exists|j: int| 0 <= j < upserts.len() && (#[trigger] upserts[j]).id == id {
                let j = choose|j: int| 0 <= j < upserts.len() && (#[trigger] upserts[j]).id == id;
                assert(rest[j - 1].id == id);
            }
        }
    }
}

/// A search by patch id finds an upsert exactly where some layer with that
/// patch id brings `id`.
pub proof fn lemma_find_upsert_at(layers: Seq<PatchLayerView>, patch: PatchId, id: ResourceId)
    ensures
        find_upsert_at(layers, patch, id) is Some <==> exists|i: int|
            0 <= i < layers.len() && (#[trigger] layers[i]).patch == patch && layers[i].upsert_of(
                id,
            ) is Some,
        find_upsert_at(layers, patch, id) is Some ==> find_upsert_at(layers, patch, id)->Some_0.id
            == id,
    decreases layers.len(),
{
    if layers.len() > 0 {
        let rest = layers.drop_first();
        lemma_find_upsert_at(rest, patch, id);
        lemma_find_upsert(layers[0].upserts, id);
        if !(layers[0].patch == patch && layers[0].upsert_of(id) is Some) {
            if find_upsert_at(rest, patch, id) is Some {
                let i = choose|i: int|
                    0 <= i < rest.len() && (#[trigger] rest[i]).patch == patch && rest[i].upsert_of(
                        id,
                    ) is Some;
                assert(layers[i + 1].patch == patch && layers[i + 1].upsert_of(id) is Some);
            }
            if exists|i: int|
                0 <= i < layers.len() && (#[trigger] layers[i]).patch == patch
                    && layers[i].upsert_of(id) is Some {
                let i = choose|i: int|
                    0 <= i < layers.len() && (#[trigger] layers[i]).patch == patch
                        && layers[i].upsert_of(id) is Some;
                assert(rest[i - 1].patch == patch && rest[i - 1].upsert_of(id) is Some);
            }
        }
    }
}

/// A patch id is listed exactly if it is that of a layer of which the
/// condition holds.
pub proof fn lemma_patches_where(
    layers: Seq<PatchLayerView>,
    holds: spec_fn(PatchLayerView) -> bool,
    patch: PatchId,
)
    ensures
        patches_where(layers, holds).contains(patch) <==> exists|i: int|
            0 <= i < layers.len() && (#[trigger] layers[i]).patch == patch && holds(layers[i]),
    decreases layers.len(),
{
    if layers.len() > 0 {
        let init = layers.drop_last();
        lemma_patches_where(init, holds, patch);
        let listed = patches_where(init, holds);
        if patches_where(layers, holds).contains(patch) {
            if holds(layers.last()) && layers.last().patch == patch {
                assert(layers[layers.len() - 1].patch == patch);
            } else {
                if holds(layers.last()) {
                    let k = choose|k: int|
                        0 <= k < listed.push(layers.last().patch).len() && listed.push(
                            layers.last().patch,
                        )[k] == patch;
                    assert(listed[k] == patch);
                }
                assert(listed.contains(patch));
                let i = choose|i: int|
                    0 <= i < init.len() && (#[trigger] init[i]).patch == patch && holds(init[i]);
                assert(layers[i].patch == patch && holds(layers[i]));
            }
        }
        if exists|i: int|
            0 <= i < layers.len() && (#[trigger] layers[i]).patch == patch && holds(layers[i]) {
            let i = choose|i: int|
                0 <= i < layers.len() && (#[trigger] layers[i]).patch == patch && holds(layers[i]);
            if i == layers.len() - 1 {
                assert(listed.push(patch)[listed.len() as int] == patch);
            } else {
                assert(init[i].patch == patch && holds(init[i]));
                let k = choose|k: int| 0 <= k < listed.len() && listed[k] == patch;
                if holds(layers.last()) {
                    assert(listed.push(layers.last().patch)[k] == patch);
                }
            }
        }
    }
}

/// The patch ids listed for upserts are those of the layers that bring `id`.
pub proof fn lemma_patches_with_upsert(layers: Seq<PatchLayerView>, id: ResourceId, patch: PatchId)
    ensures
        patches_with_upsert(layers, id).contains(patch) <==> exists|i: int|
            0 <= i < layers.len() && (#[trigger] layers[i]).patch == patch && layers[i].upsert_of(
                id,
            ) is Some,
{
    lemma_patches_where(layers, |layer: PatchLayerView| layer.upsert_of(id) is Some, patch);
}

/// The patch ids listed for removals are those of the layers that remove `id`.
pub proof fn lemma_patches_with_removal(layers: Seq<PatchLayerView>, id: ResourceId, patch: PatchId)
    ensures
        patches_with_removal(layers, id).contains(patch) <==> exists|i: int|
            0 <= i < layers.len() && (#[trigger] layers[i]).patch == patch && layers[i].removes(id),
{
    lemma_patches_where(layers, |layer: PatchLayerView| layer.removes(id), patch);
}

/// Some layer lists `id` among the resources it brings.
pub open spec fn appears_in(layers: Seq<PatchLayerView>, id: ResourceId) -> bool {
    exists|i: int, j: int|
        0 <= i < layers.len() && 0 <= j < layers[i].upserts.len() && (#[trigger] layers[i].upserts[j]).id
            == id
}

/// What a partition holds, some layer of it brings: the metadata held for an
/// identifier is about that identifier, and the identifier is listed in a
/// layer.
pub proof fn lemma_latest_appears(partition: PartitionView, id: ResourceId)
    requires
        partition.latest_upsert(id) is Some,
    ensures
        appears_in(partition.layers, id),
        partition.latest_upsert(id)->Some_0.1.id == id,
{
    let patch = choose|p: PatchId| partition.is_latest_event(p, id);
    lemma_find_upsert_at(partition.layers, patch, id);
    let i = choose|i: int|
        0 <= i < partition.layers.len() && (#[trigger] partition.layers[i]).patch == patch
            && partition.layers[i].upsert_of(id) is Some;
    lemma_find_upsert(partition.layers[i].upserts, id);
    let j = choose|j: int|
        0 <= j < partition.layers[i].upserts.len() && (#[trigger] partition.layers[i].upserts[j]).id
            == id;
    assert(partition.layers[i].upserts[j].id == id);
}

} // verus!
