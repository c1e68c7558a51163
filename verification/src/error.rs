//! Error taxonomy of the library.

use vstd::prelude::*;

verus! {

/// The ways a search API response can violate the expected positional shape.
#[derive(Debug, Clone, Copy, PartialEq, Eq, Structural)]
pub enum InvalidApiResponse {
    /// The response has no element at the given position.
    OpenSearchMissingNthElement(usize),
    /// The element at the given position is not an array.
    OpenSearchNthElementShouldBeArray(usize),
    /// The title array and the URL array have different lengths.
    OpenSearchArraysLengthMismatch,
}

/// A typed outcome for every failure the library reports to its caller.
#[derive(Debug)]
pub enum WikiError {
    /// Transport or status failure reaching the remote wiki.
    Network(String),
    /// The search API payload violates the expected shape.
    InvalidApiResponse(InvalidApiResponse),
    /// The fetched page holds no recognised content container; the payload
    /// carries ranked suggestions, one per line.
    NoPageFound(String),
    /// A cache or catalogue filesystem operation failed.
    Io(String),
    /// The catalogue document does not parse.
    Serialization(String),
    /// A cache or data directory could not be resolved.
    Path(String),
}

} // verus!
