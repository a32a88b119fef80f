//! The parts of the glTF mesh-features extension that carry feature ids.

use vstd::prelude::*;

verus! {

/// The variants of the materials of a mesh primitive, kept as they were
/// read: each member by its name, with its value as JSON text.
#[derive(Debug)]
pub struct KhrMaterialsVariants {
    pub others: Vec<(String, String)>,
}

/// The texture channels that hold feature ids where none are named: the
/// first channel alone.
pub fn default_channels() -> (channels: Vec<u32>)
    ensures
        channels@ == seq![0u32],
{
    let mut channels: Vec<u32> = Vec::new();
    channels.push(0);
    channels
}

/// A texture that holds feature ids.
#[derive(Debug)]
pub struct FeatureIdTexture {
    /// Texture channels containing feature IDs.
    pub channels: Vec<u32>,
    /// The index of the texture.
    pub index: Option<u32>,
    /// The set of texture coordinates used.
    pub tex_coord: Option<u32>,
}

impl Default for FeatureIdTexture {
    fn default() -> (r: Self)
        ensures
            r.channels@.len() == 0,
            r.index is None,
            r.tex_coord is None,
    {
        FeatureIdTexture { channels: Vec::new(), index: None, tex_coord: None }
    }
}

/// A set of feature ids of a mesh primitive.
#[derive(Debug)]
pub struct FeatureId {
    /// The number of unique features in the attribute or texture.
    pub feature_count: u32,
    /// A value that indicates that no feature is associated with this vertex or texel.
    pub null_feature_id: Option<u32>,
    /// A label assigned to this feature ID set.
    pub label: Option<String>,
    /// An attribute containing feature IDs.
    pub attribute: Option<u32>,
    /// A texture containing feature IDs.
    pub texture: Option<FeatureIdTexture>,
    /// The index of the property table containing per-feature property values.
    pub property_table: Option<u32>,
}

impl Default for FeatureId {
    fn default() -> (r: Self)
        ensures
            r.feature_count == 0,
            r.null_feature_id is None,
            r.label is None,
            r.attribute is None,
            r.texture is None,
            r.property_table is None,
    {
        FeatureId {
            feature_count: 0,
            null_feature_id: None,
            label: None,
            attribute: None,
            texture: None,
            property_table: None,
        }
    }
}

/// The feature ids of a mesh primitive.
#[derive(Debug)]
pub struct MeshPrimitiveExtMeshFeatures {
    /// An array of feature ID sets.
    pub feature_ids: Vec<FeatureId>,
}

/// The metadata that a mesh primitive refers to.
#[derive(Debug)]
pub struct MeshPrimitiveExtStructuralMetadata {
    /// An array of indexes of property textures in the root `EXT_structural_metadata` object.
    pub property_textures: Option<Vec<u32>>,
    /// An array of indexes of property attributes in the root `EXT_structural_metadata` object.
    pub property_attributes: Option<Vec<u32>>,
}

/// The extensions of a mesh primitive.
#[derive(Debug)]
pub struct Primitive {
    pub ext_mesh_features: Option<MeshPrimitiveExtMeshFeatures>,
    pub ext_structural_metadata: Option<MeshPrimitiveExtStructuralMetadata>,
    pub khr_materials_variants: Option<KhrMaterialsVariants>,
}

} // verus!
