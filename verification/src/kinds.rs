//! The value kinds the library registers out of the box: 32-bit signed and
//! unsigned integers, parsed from and rendered to decimal text and laid out
//! as little-endian bytes.

use crate::byteable::{u32_le_bytes, u32_from_le_bytes, Byteable};
use crate::errors::TypeTableError;
use crate::literal::{Literal, WordKindId};
use crate::numtext::{
    chars_to_string, format_i32, format_u128, lemma_i32_text_round_trip, lemma_u32_text_round_trip,
    parse_i32_chars, parse_u32_chars, spec_digits, spec_i32_text, spec_parse_i32, spec_parse_u32,
    string_to_chars,
};
use crate::rules::{MatchRule, TokenPattern};
use crate::typetable::{Iop, KindWrapper};
use crate::types::PrimitiveType;
use vstd::prelude::*;

verus! {

/// A signed 32-bit integer value, registered under the identifier `"i32"`.
#[derive(Debug, Clone, Copy, PartialEq, Eq, Structural)]
pub struct I32Kind(pub i32);

/// An unsigned 32-bit integer value, registered under the identifier `"u32"`.
#[derive(Debug, Clone, Copy, PartialEq, Eq, Structural)]
pub struct U32Kind(pub u32);

impl Byteable for I32Kind {
    open spec fn spec_bytes(&self) -> Seq<u8> {
        u32_le_bytes(self.0 as u32)
    }

    open spec fn spec_from(b: Seq<u8>) -> Option<I32Kind> {
        if b.len() == 4 {
            Some(I32Kind(u32_from_le_bytes(b) as i32))
        } else {
            None
        }
    }

    fn to_raw_bytes(self) -> (r: Vec<u8>) {
        self.0.to_raw_bytes()
    }

    fn as_raw_bytes(&self) -> (r: Vec<u8>) {
        self.0.as_raw_bytes()
    }

    fn from_raw_bytes(b: &[u8]) -> (r: Option<I32Kind>) {
        match i32::from_raw_bytes(b) {
            Some(x) => Some(I32Kind(x)),
            None => None,
        }
    }

    proof fn lemma_bytes_round_trip(&self) {
        self.0.lemma_bytes_round_trip();
    }
}

impl Byteable for U32Kind {
    open spec fn spec_bytes(&self) -> Seq<u8> {
        u32_le_bytes(self.0)
    }

    open spec fn spec_from(b: Seq<u8>) -> Option<U32Kind> {
        if b.len() == 4 {
            Some(U32Kind(u32_from_le_bytes(b)))
        } else {
            None
        }
    }

    fn to_raw_bytes(self) -> (r: Vec<u8>) {
        self.0.to_raw_bytes()
    }

    fn as_raw_bytes(&self) -> (r: Vec<u8>) {
        self.0.as_raw_bytes()
    }

    fn from_raw_bytes(b: &[u8]) -> (r: Option<U32Kind>) {
        match u32::from_raw_bytes(b) {
            Some(x) => Some(U32Kind(x)),
            None => None,
        }
    }

    proof fn lemma_bytes_round_trip(&self) {
        self.0.lemma_bytes_round_trip();
    }
}

impl Iop for I32Kind {
    open spec fn spec_id() -> Seq<char> {
        "i32"@
    }

    open spec fn spec_parse(t: Seq<char>) -> Option<I32Kind> {
        match spec_parse_i32(t) {
            Some(x) => Some(I32Kind(x)),
            None => None,
        }
    }

    open spec fn spec_text(&self) -> Seq<char> {
        spec_i32_text(self.0)
    }

    open spec fn spec_rule() -> (TokenPattern, nat) {
        (TokenPattern::SignedInteger, 10)
    }

    open spec fn spec_prim() -> PrimitiveType {
        PrimitiveType::Int32
    }

    fn id() -> (r: WordKindId) {
        WordKindId(String::from_str("i32"))
    }

    fn from_literal(l: &Literal) -> (r: Result<I32Kind, TypeTableError>) {
        match l.ref_string() {
            Ok(s) => {
                let chars = string_to_chars(s.as_str());
                proof {
                    assert(chars@.subrange(0, chars@.len() as int) =~= chars@);
                }
                match parse_i32_chars(&chars, 0, chars.len()) {
                    Some(x) => {
                        if matches!(l, Literal::Word(_) | Literal::TypedWord(_, _)) {
                            Ok(I32Kind(x))
                        } else {
                            Err(TypeTableError::CannotParseInto(l.clone(), Self::id()))
                        }
                    },
                    None => Err(TypeTableError::CannotParseInto(l.clone(), Self::id())),
                }
            },
            Err(_) => Err(TypeTableError::CannotParseInto(l.clone(), Self::id())),
        }
    }

    fn to_literal(&self) -> (r: Literal) {
        let chars = format_i32(self.0);
        Literal::Word(chars_to_string(&chars))
    }

    fn match_rule() -> (r: MatchRule) {
        MatchRule::new(TokenPattern::SignedInteger, Self::id(), 10)
    }

    fn prim() -> (r: PrimitiveType) {
        PrimitiveType::Int32
    }

    proof fn lemma_text_round_trip(&self) {
        lemma_i32_text_round_trip(self.0);
    }
}

impl KindWrapper<i32> for I32Kind {

}

impl Iop for U32Kind {
    open spec fn spec_id() -> Seq<char> {
        "u32"@
    }

    open spec fn spec_parse(t: Seq<char>) -> Option<U32Kind> {
        match spec_parse_u32(t) {
            Some(x) => Some(U32Kind(x)),
            None => None,
        }
    }

    open spec fn spec_text(&self) -> Seq<char> {
        spec_digits(self.0 as nat)
    }

    open spec fn spec_rule() -> (TokenPattern, nat) {
        (TokenPattern::Unsigned, 5)
    }

    open spec fn spec_prim() -> PrimitiveType {
        PrimitiveType::UInt32
    }

    fn id() -> (r: WordKindId) {
        WordKindId(String::from_str("u32"))
    }

    fn from_literal(l: &Literal) -> (r: Result<U32Kind, TypeTableError>) {
        match l.ref_string() {
            Ok(s) => {
                let chars = string_to_chars(s.as_str());
                proof {
                    assert(chars@.subrange(0, chars@.len() as int) =~= chars@);
                }
                match parse_u32_chars(&chars, 0, chars.len()) {
                    Some(x) => {
                        if matches!(l, Literal::Word(_) | Literal::TypedWord(_, _)) {
                            Ok(U32Kind(x))
                        } else {
                            Err(TypeTableError::CannotParseInto(l.clone(), Self::id()))
                        }
                    },
                    None => Err(TypeTableError::CannotParseInto(l.clone(), Self::id())),
                }
            },
            Err(_) => Err(TypeTableError::CannotParseInto(l.clone(), Self::id())),
        }
    }

    fn to_literal(&self) -> (r: Literal) {
        let chars = format_u128(self.0 as u128);
        proof {
            assert((self.0 as u128) as nat == self.0 as nat);
        }
        Literal::Word(chars_to_string(&chars))
    }

    fn match_rule() -> (r: MatchRule) {
        MatchRule::new(TokenPattern::Unsigned, Self::id(), 5)
    }

    fn prim() -> (r: PrimitiveType) {
        PrimitiveType::UInt32
    }

    proof fn lemma_text_round_trip(&self) {
        lemma_u32_text_round_trip(self.0);
    }
}

impl KindWrapper<u32> for U32Kind {

}

} // verus!
