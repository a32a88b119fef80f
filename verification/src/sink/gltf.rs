//! glTF output: structural metadata for feature attributes, and the tables
//! of materials, textures and images.

pub mod attributes;
pub mod material;
pub mod mesh;
pub mod metadata;
