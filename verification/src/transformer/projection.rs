//! Coordinate transformation: which conversion leads from the reference
//! system of a geometry store to that of the output, and how the store
//! takes the converted vertices. The conversion of a vertex itself is
//! floating-point work and is done by the caller.

use vstd::prelude::*;
use crate::crs::{
    is_jprect_with_height, jprect_zone, EpsgCode, EPSG_JGD2011_GEOGRAPHIC_3D,
    EPSG_JGD2011_JPRECT_I_JGD2011_HEIGHT, EPSG_WGS84_GEOGRAPHIC_3D,
};
use crate::geometry::GeometryStore;
use crate::pipeline::PipelineError;
use crate::schema::Schema;
use crate::vertex_set::VertexBits;

verus! {

/// A conversion of vertices from one reference system to another.
#[derive(Debug, Clone, Copy, PartialEq, Eq, Structural)]
pub enum Projection {
    /// The vertices stay as they are
    Keep,
    /// From JGD2011 (elevation) to WGS 84 (ellipsoidal height)
    Jgd2011ToWgs84,
    /// From JGD2011 to the given zone (1 to 13) of the Japan Plane
    /// Rectangular CS; the height stays
    Jgd2011ToPlaneRectangular { zone: u8 },
}

/// The conversion that leads from `input` to `output`, where one is
/// offered: from JGD2011 geographic 3D to WGS 84 geographic 3D or to a
/// plane rectangular zone, and from WGS 84 geographic 3D to itself.
pub open spec fn planned(input: EpsgCode, output: EpsgCode) -> Option<Projection> {
    if input == EPSG_JGD2011_GEOGRAPHIC_3D {
        if output == EPSG_WGS84_GEOGRAPHIC_3D {
            Some(Projection::Jgd2011ToWgs84)
        } else if is_jprect_with_height(output) {
            Some(
                Projection::Jgd2011ToPlaneRectangular {
                    zone: (output - EPSG_JGD2011_JPRECT_I_JGD2011_HEIGHT + 1) as u8,
                },
            )
        } else {
            None
        }
    } else if input == EPSG_WGS84_GEOGRAPHIC_3D && output == EPSG_WGS84_GEOGRAPHIC_3D {
        Some(Projection::Keep)
    } else {
        None
    }
}

/// The transform that brings every geometry store into the reference
/// system of the output.
#[derive(Debug, Clone, Copy)]
pub struct ProjectionTransform {
    output_epsg: EpsgCode,
}

impl ProjectionTransform {
    /// The reference system of the output.
    pub closed spec fn output(&self) -> EpsgCode {
        self.output_epsg
    }

    /// A transform into the reference system `output_epsg`.
    pub fn new(output_epsg: EpsgCode) -> (r: Self)
        ensures
            r.output() == output_epsg,
    {
        ProjectionTransform { output_epsg }
    }

    /// The reference system of the output.
    pub fn output_epsg(&self) -> (r: EpsgCode)
        ensures
            r == self.output(),
    {
        self.output_epsg
    }

    /// The conversion that a store in the reference system `input_epsg`
    /// needs. A pair of systems for which none is offered is an error that
    /// names the pair.
    pub fn plan(&self, input_epsg: EpsgCode) -> (r: Result<Projection, PipelineError>)
        ensures
            r is Ok == planned(input_epsg, self.output()) is Some,
            r matches Ok(p) ==> Some(p) == planned(input_epsg, self.output()),
            r matches Err(e) ==> e == (PipelineError::UnsupportedCrs {
                input: input_epsg,
                output: self.output(),
            }),
    {
        if input_epsg == EPSG_JGD2011_GEOGRAPHIC_3D {
            if self.output_epsg == EPSG_WGS84_GEOGRAPHIC_3D {
                return Ok(Projection::Jgd2011ToWgs84);
            }
            match jprect_zone(self.output_epsg) {
                Some(zone) => {
                    return Ok(Projection::Jgd2011ToPlaneRectangular { zone });
                },
                None => {},
            }
        } else if input_epsg == EPSG_WGS84_GEOGRAPHIC_3D && self.output_epsg
            == EPSG_WGS84_GEOGRAPHIC_3D {
            return Ok(Projection::Keep);
        }
        Err(PipelineError::UnsupportedCrs { input: input_epsg, output: self.output_epsg })
    }

    /// Gives `store` the converted vertices and the reference system of
    /// the output. There is one converted vertex for each vertex, in order,
    /// so every index keeps its meaning; the collections stay as they are.
    pub fn apply(&self, store: &mut GeometryStore, converted: Vec<VertexBits>)
        requires
            converted@.len() == old(store).vertices@.len(),
        ensures
            final(store).epsg == self.output(),
            final(store).vertices == converted,
            final(store).multipolygon == old(store).multipolygon,
            final(store).multilinestring == old(store).multilinestring,
            final(store).multipoint == old(store).multipoint,
            final(store).ring_ids == old(store).ring_ids,
            final(store).surface_spans == old(store).surface_spans,
            final(store).ring_materials == old(store).ring_materials,
            old(store).wf() ==> final(store).wf(),
            forall|ty: crate::geometry::GeometryType|
                final(store).spec_collection_len(ty) == old(store).spec_collection_len(ty),
    {
        store.vertices = converted;
        store.epsg = self.output_epsg;
    }

    /// Sets the reference system of the schema to that of the output.
    pub fn transform_schema(&self, schema: &mut Schema)
        ensures
            final(schema).epsg == Some(self.output()),
            final(schema).types == old(schema).types,
    {
        schema.epsg = Some(self.output_epsg);
    }
}

} // verus!
