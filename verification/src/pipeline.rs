//! What travels through the processing pipeline, and how it can fail.
//!
//! [Source] => [Transformer] => [Sink]

use vstd::prelude::*;
use crate::crs::EpsgCode;
use crate::object::Entity;

verus! {

/// The number of parcels that the channel after the source holds before a
/// sender has to wait.
pub const SOURCE_OUTPUT_CHANNEL_BOUND: usize = 10000;

/// The number of parcels that the channel after the transformer holds
/// before a sender has to wait.
pub const TRANSFORMER_OUTPUT_CHANNEL_BOUND: usize = 10000;

/// Message passing through the main processing pipeline
#[derive(Debug)]
pub struct Parcel {
    // Entity (Feature, Data, etc.)
    pub entity: Entity,
}

/// A failure to read one top-level feature.
#[derive(Debug)]
pub enum ParseError {
    /// The reader failed
    Io(String),
    /// The input is not well-formed XML
    Xml(String),
    /// An element stands where the schema does not allow it
    SchemaViolation(String),
    /// A value could not be converted to its declared type
    InvalidValue(String),
}

/// A failure of the pipeline.
#[derive(Debug)]
pub enum PipelineError {
    /// A byte-level failure
    IoError(String),
    /// A failure to read the input
    ParseError(ParseError),
    /// A conversion between these two reference systems is not offered
    UnsupportedCrs { input: EpsgCode, output: EpsgCode },
    /// The run was cancelled
    Canceled,
    /// Anything else
    Other(String),
}

/// The result of a pipeline stage.
pub type Result<T> = std::result::Result<T, PipelineError>;

impl PipelineError {
    /// Whether the error tells of a cancellation, which ends a stage
    /// without being reported as a failure.
    pub fn is_canceled(&self) -> (b: bool)
        ensures
            b == (*self is Canceled),
    {
        match self {
            PipelineError::Canceled => true,
            _ => false,
        }
    }
}

/// What a stage does with the cancellation flag at a parcel boundary: it
/// goes on while the flag is down and ends with `Canceled` once it is up.
pub fn ensure_not_canceled(cancelled: bool) -> (r: Result<()>)
    ensures
        r is Ok == !cancelled,
        r matches Err(e) ==> e is Canceled,
{
    if cancelled {
        Err(PipelineError::Canceled)
    } else {
        Ok(())
    }
}

/// Whether the result of a stage is reported as a fatal error: every
/// failure but a cancellation is.
pub fn is_fatal(result: &Result<()>) -> (b: bool)
    ensures
        b == (*result matches Err(e) && !(e is Canceled)),
{
    match result {
        Ok(_) => false,
        Err(PipelineError::Canceled) => false,
        Err(_) => true,
    }
}

} // verus!
