//! Conversion of 3D city models, encoded as CityGML, into geospatial
//! formats: the entity model, the geometry store, the transform chain and
//! what the sinks compute before they write.
//!
//! An entity is a tree of values ([`object`]) whose features refer into a
//! geometry store ([`geometry`]), which holds every vertex once. The
//! reader of geometries ([`parser`]) fills a store so that the highest
//! level of detail wins. On its way from the source to the sink every
//! entity passes through a chain of transforms ([`transformer`]); the
//! schema ([`schema`]) passes through the same chain once. The sinks
//! ([`sink`]) select geometries, lay out tables and make the bytes of
//! their files.
//!
//! Floating-point numbers are carried as their bit patterns: the library
//! never computes with them. Reading files, running threads and writing
//! output are left to the caller.

pub mod appearance;
pub mod cli;
pub mod codelist;
pub mod crs;
pub mod entries;
pub mod geometry;
pub mod models;
pub mod object;
pub mod parameters;
pub mod parser;
pub mod pipeline;
pub mod schema;
pub mod sink;
pub mod text;
pub mod transformer;
pub mod vertex_set;
