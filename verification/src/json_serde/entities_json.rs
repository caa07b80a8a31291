//! Records of a scene description, reduced to their text fields.

use vstd::prelude::*;

verus! {

/// A message that names one brick of a scene by its hash.
#[derive(Debug)]
pub struct BrickMessage {
    pub brick_hash: String,
}

/// The mathematical form of a [`BrickMessage`].
pub struct BrickMessageView {
    pub brick_hash: Seq<char>,
}

impl View for BrickMessage {
    type V = BrickMessageView;

    open spec fn view(&self) -> BrickMessageView {
        BrickMessageView { brick_hash: self.brick_hash@ }
    }
}

/// The type tag of a pathfinding box: the name of the tag's own type, and the
/// tag.
#[derive(Debug)]
pub struct Type {
    pub type_tag: String,
    pub data: String,
}

/// The mathematical form of a [`Type`].
pub struct TypeView {
    pub type_tag: Seq<char>,
    pub data: Seq<char>,
}

impl View for Type {
    type V = TypeView;

    open spec fn view(&self) -> TypeView {
        TypeView { type_tag: self.type_tag@, data: self.data@ }
    }
}

/// The two resource hashes of one mesh of a scene: that of its collision
/// shape and that of its render mesh.
#[derive(Debug)]
pub struct MeshHashes {
    pub aloc_hash: String,
    pub prim_hash: String,
}

/// The mathematical form of a [`MeshHashes`].
pub struct MeshHashesView {
    pub aloc_hash: Seq<char>,
    pub prim_hash: Seq<char>,
}

impl View for MeshHashes {
    type V = MeshHashesView;

    open spec fn view(&self) -> MeshHashesView {
        MeshHashesView { aloc_hash: self.aloc_hash@, prim_hash: self.prim_hash@ }
    }
}

impl DeepView for MeshHashes {
    type V = MeshHashesView;

    open spec fn deep_view(&self) -> MeshHashesView {
        self@
    }
}

} // verus!
