//! Conversion between plain-data values and their raw byte representation.
//!
//! A [`Byteable`] value can be turned into a little-endian byte vector and
//! reconstructed from one; the arena stores exactly these bytes.

use vstd::prelude::*;

verus! {

/// The little-endian bytes of a 32-bit unsigned integer.
pub open spec fn u32_le_bytes(x: u32) -> Seq<u8> {
    seq![
        (x % 0x100) as u8,
        ((x / 0x100) % 0x100) as u8,
        ((x / 0x10000) % 0x100) as u8,
        ((x / 0x1000000) % 0x100) as u8,
    ]
}

/// The 32-bit unsigned integer whose little-endian bytes are `b`.
pub open spec fn u32_from_le_bytes(b: Seq<u8>) -> u32
    recommends
        b.len() == 4,
{
    (b[0] + b[1] * 0x100 + b[2] * 0x10000 + b[3] * 0x1000000) as u32
}

/// Reassembling the little-endian bytes of `x` gives back `x`.
pub proof fn lemma_u32_le_bytes_round_trip(x: u32)
    ensures
        u32_from_le_bytes(u32_le_bytes(x)) == x,
{
    assert((x % 0x100) + ((x / 0x100) % 0x100) * 0x100 + ((x / 0x10000) % 0x100) * 0x10000 + ((x
        / 0x1000000) % 0x100) * 0x1000000 == x) by (bit_vector);
}

/// A value type that can be converted to and reconstructed from a raw byte
/// representation.
pub trait Byteable: Sized {
    /// The byte representation of this value.
    spec fn spec_bytes(&self) -> Seq<u8>;

    /// The value represented by `b`, if `b` is a well-formed representation.
    spec fn spec_from(b: Seq<u8>) -> Option<Self>;

    /// Consume the value and hand out its byte representation.
    fn to_raw_bytes(self) -> (r: Vec<u8>)
        ensures
            r@ == self.spec_bytes(),
    ;

    /// The byte representation of the borrowed value.
    fn as_raw_bytes(&self) -> (r: Vec<u8>)
        ensures
            r@ == self.spec_bytes(),
    ;

    /// Reconstruct a value from its byte representation.
    fn from_raw_bytes(b: &[u8]) -> (r: Option<Self>)
        ensures
            r == Self::spec_from(b@),
    ;

    /// Reconstruction inverts representation: every value round-trips
    /// through its own bytes.
    proof fn lemma_bytes_round_trip(&self)
        ensures
            Self::spec_from(self.spec_bytes()) == Some(*self),
    ;
}

impl Byteable for u8 {
    open spec fn spec_bytes(&self) -> Seq<u8> {
        seq![*self]
    }

    open spec fn spec_from(b: Seq<u8>) -> Option<u8> {
        if b.len() == 1 {
            Some(b[0])
        } else {
            None
        }
    }

    fn to_raw_bytes(self) -> (r: Vec<u8>) {
        let mut r: Vec<u8> = Vec::new();
        r.push(self);
        assert(r@ =~= self.spec_bytes());
        r
    }

    fn as_raw_bytes(&self) -> (r: Vec<u8>) {
        let mut r: Vec<u8> = Vec::new();
        r.push(*self);
        assert(r@ =~= self.spec_bytes());
        r
    }

    fn from_raw_bytes(b: &[u8]) -> (r: Option<u8>) {
        if b.len() == 1 {
            Some(b[0])
        } else {
            None
        }
    }

    proof fn lemma_bytes_round_trip(&self) {
    }
}

impl Byteable for u32 {
    open spec fn spec_bytes(&self) -> Seq<u8> {
        u32_le_bytes(*self)
    }

    open spec fn spec_from(b: Seq<u8>) -> Option<u32> {
        if b.len() == 4 {
            Some(u32_from_le_bytes(b))
        } else {
            None
        }
    }

    fn to_raw_bytes(self) -> (r: Vec<u8>) {
        self.as_raw_bytes()
    }

    fn as_raw_bytes(&self) -> (r: Vec<u8>) {
        let x = *self;
        let mut r: Vec<u8> = Vec::new();
        r.push((x % 0x100) as u8);
        r.push(((x / 0x100) % 0x100) as u8);
        r.push(((x / 0x10000) % 0x100) as u8);
        r.push(((x / 0x1000000) % 0x100) as u8);
        assert(r@ =~= self.spec_bytes());
        r
    }

    fn from_raw_bytes(b: &[u8]) -> (r: Option<u32>) {
        if b.len() == 4 {
            let b0 = b[0] as u32;
            let b1 = b[1] as u32;
            let b2 = b[2] as u32;
            let b3 = b[3] as u32;
            Some(b0 + b1 * 0x100 + b2 * 0x10000 + b3 * 0x1000000)
        } else {
            None
        }
    }

    proof fn lemma_bytes_round_trip(&self) {
        lemma_u32_le_bytes_round_trip(*self);
    }
}

impl Byteable for i32 {
    open spec fn spec_bytes(&self) -> Seq<u8> {
        u32_le_bytes(*self as u32)
    }

    open spec fn spec_from(b: Seq<u8>) -> Option<i32> {
        if b.len() == 4 {
            Some(u32_from_le_bytes(b) as i32)
        } else {
            None
        }
    }

    fn to_raw_bytes(self) -> (r: Vec<u8>) {
        self.as_raw_bytes()
    }

    fn as_raw_bytes(&self) -> (r: Vec<u8>) {
        let x = *self as u32;
        let r = x.as_raw_bytes();
        r
    }

    fn from_raw_bytes(b: &[u8]) -> (r: Option<i32>) {
        match u32::from_raw_bytes(b) {
            Some(x) => Some(x as i32),
            None => None,
        }
    }

    proof fn lemma_bytes_round_trip(&self) {
        let x = *self as u32;
        lemma_u32_le_bytes_round_trip(x);
        assert((((*self) as u32) as i32) == *self) by (bit_vector);
    }
}

} // verus!
