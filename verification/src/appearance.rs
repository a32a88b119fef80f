//! The appearance store: the textures and materials that the rings of a
//! geometry store may refer to.

use vstd::prelude::*;

verus! {

/// An image used as a texture, named by its URI.
#[derive(Debug)]
pub struct Texture {
    pub uri: String,
}

/// A surface material. The four components of the base colour are held as
/// the bit patterns of single-precision numbers.
#[derive(Debug)]
pub struct Material {
    pub base_color: (u32, u32, u32, u32),
    pub base_texture: Option<Texture>,
}

/// A theme: for some rings, named by their ids, the material that the ring
/// has under this theme, as an index into the materials of the store.
#[derive(Debug)]
pub struct Theme {
    pub name: String,
    pub ring_materials: Vec<(String, u32)>,
}

/// The textures, materials and themes of one top-level city object.
#[derive(Debug)]
pub struct AppearanceStore {
    pub textures: Vec<Texture>,
    pub materials: Vec<Material>,
    pub themes: Vec<Theme>,
}

impl Default for AppearanceStore {
    /// An empty store.
    fn default() -> (r: Self)
        ensures
            r.textures@.len() == 0,
            r.materials@.len() == 0,
            r.themes@.len() == 0,
    {
        AppearanceStore { textures: Vec::new(), materials: Vec::new(), themes: Vec::new() }
    }
}

} // verus!
