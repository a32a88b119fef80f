//! The transforms that every entity passes through between the source and
//! the sink, and the rules by which their chain is put together.

pub mod appearance;
pub mod builder;
pub mod dot;
pub mod flatten;
pub mod jsonify;
pub mod lod;
pub mod mergedown;
pub mod projection;
pub mod rename;
