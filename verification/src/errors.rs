//! The error taxonomy of the ceremony engine.

use vstd::prelude::*;

use crate::params::ElementType;

verus! {

/// Why an accumulator operation was rejected.
#[derive(Clone, Copy, Debug, PartialEq, Eq, Structural)]
pub enum Error {
    /// A stored group element could not be decoded.
    SerializationFailed(ElementType),
    /// A stored group element is the point at infinity.
    PointAtInfinity(ElementType),
    /// A stored group element is not in the prime-order subgroup.
    IncorrectSubgroup(ElementType),
    /// The first element of an array is not the group generator.
    InvalidGenerator(ElementType),
    /// A consecutive-power pairing check failed.
    InvalidRatio(ElementType),
    /// A proof-of-knowledge pairing check failed.
    InvalidProofOfKnowledge(ElementType),
    /// A batch read returned the wrong number of elements.
    InvalidLength { expected: usize, got: usize },
    /// The chunking arithmetic produced an impossible window.
    InvalidChunk,
}

impl Error {
    /// A short human-readable description of the error.
    pub fn describe(&self) -> (r: &'static str) {
        match self {
            Error::SerializationFailed(_) => "could not decode a group element",
            Error::PointAtInfinity(_) => "a group element is the point at infinity",
            Error::IncorrectSubgroup(_) => "a group element is not in the prime-order subgroup",
            Error::InvalidGenerator(_) => "the first element is not the group generator",
            Error::InvalidRatio(_) => "a power-pair ratio check failed",
            Error::InvalidProofOfKnowledge(_) => "a proof-of-knowledge check failed",
            Error::InvalidLength { .. } => "a batch read returned the wrong number of elements",
            Error::InvalidChunk => "the chunk windowing is inconsistent",
        }
    }
}

} // verus!
