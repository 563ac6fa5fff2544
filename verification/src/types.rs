//! The closed set of primitive byte representations the registry can
//! materialize into the arena.

use vstd::prelude::*;

verus! {

/// A primitive value representation: what the byte-converter dispatch knows
/// how to lay out. No byte-converter is provided for floating-point kinds in
/// the verified core; their tag exists only to describe layout.
#[derive(Debug, Clone, Copy, PartialEq, Eq, Structural)]
pub enum PrimitiveType {
    Float32,
    Int32,
    UInt32,
}

impl PrimitiveType {
    /// The number of bytes a value of this representation occupies.
    pub open spec fn spec_byte_length(&self) -> nat {
        match self {
            PrimitiveType::Float32 => 4,
            PrimitiveType::Int32 => 4,
            PrimitiveType::UInt32 => 4,
        }
    }

    /// The number of bytes a value of this representation occupies.
    pub fn byte_length(&self) -> (r: usize)
        ensures
            r == self.spec_byte_length(),
    {
        match self {
            PrimitiveType::Float32 => 4,
            PrimitiveType::Int32 => 4,
            PrimitiveType::UInt32 => 4,
        }
    }
}

} // verus!
