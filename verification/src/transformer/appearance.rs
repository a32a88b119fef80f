//! Appearance application: for each ring that has an id, the material
//! that the themes of the appearance store give it is resolved and noted
//! in the geometry store.

use vstd::prelude::*;
use crate::appearance::{AppearanceStore, Theme};
use crate::geometry::{GeometryStore, LocalId};

verus! {

/// The material that `theme` gives the ring `id`: the index of the first
/// entry for the ring that names a material of the store.
pub open spec fn theme_material(theme: Theme, id: Seq<char>, materials: int) -> Option<u32> {
    theme_material_from(theme.ring_materials@, id, materials, 0)
}

/// The same, looking at the entries from `from` on.
pub open spec fn theme_material_from(
    entries: Seq<(String, u32)>,
    id: Seq<char>,
    materials: int,
    from: int,
) -> Option<u32>
    decreases entries.len() - from,
{
    if from < 0 || from >= entries.len() {
        None
    } else if entries[from].0@ == id && entries[from].1 < materials {
        Some(entries[from].1)
    } else {
        theme_material_from(entries, id, materials, from + 1)
    }
}

/// The material that the themes from `from` on give the ring `id`: that
/// of the first theme that gives it one.
pub open spec fn resolved_from(store: AppearanceStore, id: Seq<char>, from: int) -> Option<u32>
    decreases store.themes@.len() - from,
{
    if from < 0 || from >= store.themes@.len() {
        None
    } else {
        match theme_material(store.themes@[from], id, store.materials@.len() as int) {
            Some(m) => Some(m),
            None => resolved_from(store, id, from + 1),
        }
    }
}

/// The material resolved for a ring: none for a ring without an id.
pub open spec fn resolved(store: AppearanceStore, ring_id: Option<LocalId>) -> Option<u32> {
    match ring_id {
        Some(id) => resolved_from(store, id.0@, 0),
        None => None,
    }
}

/// The materials resolved for the rings, in order.
pub open spec fn resolved_all(store: AppearanceStore, ring_ids: Seq<Option<LocalId>>) -> Seq<
    Option<u32>,
> {
    Seq::new(ring_ids.len(), |i: int| resolved(store, ring_ids[i]))
}

/// The transform that applies appearances to geometries.
pub struct ApplyAppearanceTransform {}

impl ApplyAppearanceTransform {
    /// A new transform.
    pub fn new() -> Self {
        ApplyAppearanceTransform {  }
    }

    /// The material that `theme` gives the ring `id`, among `materials`
    /// materials.
    fn find_in_theme(&self, theme: &Theme, id: &String, materials: usize) -> (r: Option<u32>)
        ensures
            r == theme_material(*theme, id@, materials as int),
    {
        let mut k: usize = 0;
        while k < theme.ring_materials.len()
            invariant
                k <= theme.ring_materials@.len(),
                theme_material(*theme, id@, materials as int) == theme_material_from(
                    theme.ring_materials@,
                    id@,
                    materials as int,
                    k as int,
                ),
            decreases theme.ring_materials@.len() - k,
        {
            let (ring, material) = &theme.ring_materials[k];
            if *ring == *id && (*material as usize) < materials {
                return Some(*material);
            }
            k += 1;
        }
        None
    }

    /// The material resolved for a ring.
    pub fn resolve(&self, appearances: &AppearanceStore, ring_id: &Option<LocalId>) -> (r: Option<
        u32,
    >)
        ensures
            r == resolved(*appearances, *ring_id),
    {
        match ring_id {
            None => None,
            Some(id) => {
                let materials = appearances.materials.len();
                let mut t: usize = 0;
                while t < appearances.themes.len()
                    invariant
                        t <= appearances.themes@.len(),
                        materials == appearances.materials@.len(),
                        resolved(*appearances, *ring_id) == resolved_from(
                            *appearances,
                            id.0@,
                            t as int,
                        ),
                    decreases appearances.themes@.len() - t,
                {
                    match self.find_in_theme(&appearances.themes[t], &id.0, materials) {
                        Some(m) => {
                            return Some(m);
                        },
                        None => {},
                    }
                    t += 1;
                }
                None
            },
        }
    }

    /// Notes in `store`, for each of its rings, the material resolved for
    /// it. Nothing else changes; what was noted before is replaced.
    pub fn apply(&self, store: &mut GeometryStore, appearances: &AppearanceStore)
        ensures
            final(store).ring_materials@ == resolved_all(*appearances, old(store).ring_ids@),
            final(store).epsg == old(store).epsg,
            final(store).vertices == old(store).vertices,
            final(store).multipolygon == old(store).multipolygon,
            final(store).multilinestring == old(store).multilinestring,
            final(store).multipoint == old(store).multipoint,
            final(store).ring_ids == old(store).ring_ids,
            final(store).surface_spans == old(store).surface_spans,
    {
        let mut materials: Vec<Option<u32>> = Vec::new();
        let mut i: usize = 0;
        while i < store.ring_ids.len()
            invariant
                i <= store.ring_ids@.len(),
                *store == *old(store),
                materials@.len() == i,
                forall|k: int|
                    0 <= k < i ==> #[trigger] materials@[k] == resolved(
                        *appearances,
                        store.ring_ids@[k],
                    ),
            decreases store.ring_ids@.len() - i,
        {
            materials.push(self.resolve(appearances, &store.ring_ids[i]));
            i += 1;
        }
        assert(materials@ =~= resolved_all(*appearances, store.ring_ids@));
        store.ring_materials = materials;
    }
}

/// Applying appearances twice is applying them once: what is resolved
/// depends on the ids of the rings and on the appearance store alone, and
/// neither is changed.
pub proof fn lemma_apply_is_idempotent(
    appearances: AppearanceStore,
    before: GeometryStore,
    once: GeometryStore,
    twice: GeometryStore,
)
    requires
        once.ring_ids == before.ring_ids,
        once.ring_materials@ == resolved_all(appearances, before.ring_ids@),
        twice.ring_ids == once.ring_ids,
        twice.ring_materials@ == resolved_all(appearances, once.ring_ids@),
    ensures
        twice.ring_materials@ == once.ring_materials@,
{
}

} // verus!
