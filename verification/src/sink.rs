//! What the sinks compute before they write: selections, tables and bytes.

pub mod cesiumtiles;
pub mod geojson;
pub mod gltf;
pub mod gpkg;
pub mod gpkg_geometry;
pub mod info;
pub mod ply;
pub mod tileid;
