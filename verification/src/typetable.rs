//! The type registry.
//!
//! A registered value type implements [`Iop`]: parsing from and rendering to
//! literal text, a registered identifier, a recognizer rule, and a primitive
//! byte representation. The [`TypeTable`] gathers the recognizer rules of all
//! registered types and classifies a literal's text against them;
//! [`TypeTable::auto_parse`] composes classification with parsing and byte
//! conversion, producing arena-ready bytes.

use crate::byteable::{u32_le_bytes, Byteable};
use crate::errors::TypeTableError;
use crate::literal::{spec_lit_text, LitView, Literal, WordKindId};
use crate::numtext::{
    parse_i32_chars, parse_u32_chars, spec_parse_i32, spec_parse_u32, string_to_chars,
};
use crate::rules::{spec_classify, MatchRule, MatchRuleResult, MatchRuleSet, MatchRuleView, TokenPattern};
use crate::types::PrimitiveType;
use vstd::prelude::*;

verus! {

/// The text a word-like literal carries: the token text of a word or typed
/// word; expressions, operators and pointers carry none.
pub open spec fn word_text(v: LitView) -> Option<Seq<char>> {
    match v {
        LitView::Word(t) => Some(t),
        LitView::TypedWord(t, _) => Some(t),
        _ => None,
    }
}

/// The behavior set of a registrable value type: conversion between literal
/// text and values, a registered identifier, a recognizer rule and a
/// primitive representation.
pub trait Iop: Byteable + Clone + Sized {
    /// The registered identifier's text.
    spec fn spec_id() -> Seq<char>;

    /// What token text parses to, if anything.
    spec fn spec_parse(t: Seq<char>) -> Option<Self>;

    /// The canonical text of a value.
    spec fn spec_text(&self) -> Seq<char>;

    /// The recognizer rule: a pattern and its priority.
    spec fn spec_rule() -> (TokenPattern, nat);

    /// The primitive byte representation.
    spec fn spec_prim() -> PrimitiveType;

    /// The registered identifier.
    fn id() -> (r: WordKindId)
        ensures
            r@ == Self::spec_id(),
    ;

    /// Parse a word-like literal's text into a value. Fails exactly on
    /// literals that carry no text and on text that does not parse.
    fn from_literal(l: &Literal) -> (r: Result<Self, TypeTableError>)
        ensures
            match r {
                Ok(v) => word_text(l@) matches Some(t) && Self::spec_parse(t) == Some(v),
                Err(TypeTableError::CannotParseInto(bad, id)) => {
                    &&& id@ == Self::spec_id()
                    &&& bad@ == l@
                    &&& match word_text(l@) {
                        Some(t) => Self::spec_parse(t) is None,
                        None => true,
                    }
                },
                Err(_) => false,
            },
    ;

    /// Render a value back into a word literal holding its canonical text.
    fn to_literal(&self) -> (r: Literal)
        ensures
            r@ == LitView::Word(self.spec_text()),
    ;

    /// Serialize-then-parse is the identity: a value's canonical text parses
    /// back to the value itself.
    proof fn lemma_text_round_trip(&self)
        ensures
            Self::spec_parse(self.spec_text()) == Some(*self),
    ;

    /// The recognizer rule to register.
    fn match_rule() -> (r: MatchRule)
        ensures
            r@.pattern == Self::spec_rule().0,
            r@.priority == Self::spec_rule().1,
            r@.id == Self::spec_id(),
    ;

    /// The primitive representation tag to register.
    fn prim() -> (r: PrimitiveType)
        ensures
            r == Self::spec_prim(),
    ;
}

/// Marks an [`Iop`] implementation as the registered wrapper of the native
/// type `T`: at most one registered type per identifier, and the mapping from
/// a native type to its identifier is total over the registered wrappers.
pub trait KindWrapper<T>: Iop {

}

/// The bytes a primitive representation lays text out as, if the text parses.
pub open spec fn spec_prim_parse(p: PrimitiveType, t: Seq<char>) -> Option<Seq<u8>> {
    match p {
        PrimitiveType::Int32 => match spec_parse_i32(t) {
            Some(x) => Some(u32_le_bytes(x as u32)),
            None => None,
        },
        PrimitiveType::UInt32 => match spec_parse_u32(t) {
            Some(x) => Some(u32_le_bytes(x)),
            None => None,
        },
        PrimitiveType::Float32 => None,
    }
}

/// The type registry: recognizer rules and, per identifier, the primitive
/// representation to materialize values as.
pub struct TypeTable {
    parsing_rules: MatchRuleSet,
    prims: Vec<(WordKindId, PrimitiveType)>,
}

/// The map a representation list denotes: later entries shadow earlier ones.
spec fn prim_map_of(s: Seq<(WordKindId, PrimitiveType)>) -> Map<Seq<char>, PrimitiveType>
    decreases s.len(),
{
    if s.len() == 0 {
        Map::empty()
    } else {
        prim_map_of(s.drop_last()).insert(s.last().0@, s.last().1)
    }
}

impl TypeTable {
    /// The registered recognizer rules, in registration order.
    pub closed spec fn rule_views(&self) -> Seq<MatchRuleView> {
        self.parsing_rules@
    }

    /// The primitive representation registered under each identifier.
    pub closed spec fn prim_map(&self) -> Map<Seq<char>, PrimitiveType> {
        prim_map_of(self.prims@)
    }

    /// An empty registry.
    pub fn new() -> (r: TypeTable)
        ensures
            r.rule_views() =~= Seq::<MatchRuleView>::empty(),
            r.prim_map() == Map::<Seq<char>, PrimitiveType>::empty(),
    {
        TypeTable { parsing_rules: MatchRuleSet::new(), prims: Vec::new() }
    }

    /// Register a type's full behavior set: its recognizer rule joins the
    /// rule set and its identifier maps to its primitive representation,
    /// overwriting an earlier registration of the same identifier.
    pub fn register<Z, T: KindWrapper<Z>>(&mut self)
        ensures
            final(self).rule_views() =~= old(self).rule_views().push(
                MatchRuleView {
                    pattern: T::spec_rule().0,
                    id: T::spec_id(),
                    priority: T::spec_rule().1,
                },
            ),
            final(self).prim_map() == old(self).prim_map().insert(T::spec_id(), T::spec_prim()),
    {
        let ghost pre = self.prims@;
        self.parsing_rules.insert(T::match_rule());
        self.prims.push((T::id(), T::prim()));
        proof {
            assert(self.prims@.drop_last() =~= pre);
        }
    }

    /// The representation registered under an identifier, if any.
    #[verifier::loop_isolation(false)]
    fn find_prim(&self, id: &WordKindId) -> (r: Option<PrimitiveType>)
        ensures
            match r {
                Some(p) => self.prim_map().contains_key(id@) && self.prim_map()[id@] == p,
                None => !self.prim_map().contains_key(id@),
            },
    {
        let mut found: Option<PrimitiveType> = None;
        let mut i: usize = 0;
        while i < self.prims.len()
            invariant
                i <= self.prims@.len(),
                match found {
                    Some(p) => prim_map_of(self.prims@.take(i as int)).contains_key(id@)
                        && prim_map_of(self.prims@.take(i as int))[id@] == p,
                    None => !prim_map_of(self.prims@.take(i as int)).contains_key(id@),
                },
            decreases self.prims@.len() - i,
        {
            proof {
                assert(self.prims@.take(i + 1).drop_last() =~= self.prims@.take(i as int));
                assert(self.prims@.take(i + 1).last() == self.prims@[i as int]);
            }
            if self.prims[i].0.0 == id.0 {
                found = Some(self.prims[i].1);
            }
            i = i + 1;
        }
        proof {
            assert(self.prims@.take(self.prims@.len() as int) =~= self.prims@);
        }
        found
    }

    /// Classify token text against the registered recognizer rules: the
    /// highest-priority match wins, ties broken by registration order. Fails
    /// exactly when no rule matches.
    pub fn classify(&self, text: &String) -> (r: Result<WordKindId, TypeTableError>)
        ensures
            match r {
                Ok(id) => spec_classify(self.rule_views(), text@) == Some(id@),
                Err(TypeTableError::CannotMatchType(bad)) => spec_classify(self.rule_views(), text@)
                    is None && bad@ == LitView::Word(text@),
                Err(_) => false,
            },
    {
        let chars = string_to_chars(text.as_str());
        match self.parsing_rules.first_match(&chars) {
            MatchRuleResult::Match(id) => Ok(id),
            MatchRuleResult::NoMatch => Err(
                TypeTableError::CannotMatchType(Literal::Word(text.clone())),
            ),
        }
    }

    /// Classify a literal by its textual rendering, handing back a typed word
    /// carrying that text and the winning identifier. Fails exactly when no
    /// rule matches.
    pub fn match_first_type(&self, lit: &Literal) -> (r: Result<Literal, TypeTableError>)
        ensures
            match r {
                Ok(l) => spec_classify(self.rule_views(), spec_lit_text(lit@)) matches Some(id)
                    && l@ == LitView::TypedWord(spec_lit_text(lit@), id),
                Err(TypeTableError::CannotMatchType(bad)) => spec_classify(
                    self.rule_views(),
                    spec_lit_text(lit@),
                ) is None && bad@ == lit@,
                Err(_) => false,
            },
    {
        let text = lit.as_string();
        let chars = string_to_chars(text.as_str());
        match self.parsing_rules.first_match(&chars) {
            MatchRuleResult::Match(id) => Ok(Literal::TypedWord(text, id)),
            MatchRuleResult::NoMatch => Err(TypeTableError::CannotMatchType(lit.clone())),
        }
    }

    /// Parse a word-like literal into a registered type's value.
    pub fn parse_into_typed<Z, T: KindWrapper<Z>>(&self, l: &Literal) -> (r: Result<
        T,
        TypeTableError,
    >)
        ensures
            match r {
                Ok(v) => word_text(l@) matches Some(t) && T::spec_parse(t) == Some(v),
                Err(TypeTableError::CannotParseInto(bad, id)) => {
                    &&& id@ == T::spec_id()
                    &&& bad@ == l@
                    &&& match word_text(l@) {
                        Some(t) => T::spec_parse(t) is None,
                        None => true,
                    }
                },
                Err(_) => false,
            },
    {
        T::from_literal(l)
    }

    /// Render a registered type's value back into a word literal.
    pub fn serialize_into_literal<T: Iop>(&self, value: &T) -> (r: Result<Literal, TypeTableError>)
        ensures
            r matches Ok(l) && l@ == LitView::Word(value.spec_text()),
    {
        Ok(value.to_literal())
    }

    /// Classify a literal's text, then parse it and lay it out as the
    /// classified representation's bytes, ready for arena insertion. Fails
    /// exactly when no rule matches, or when the winning identifier's
    /// representation rejects the text.
    pub fn auto_parse(&self, l: &Literal) -> (r: Result<Vec<u8>, TypeTableError>)
        ensures
            match spec_classify(self.rule_views(), spec_lit_text(l@)) {
                None => r matches Err(TypeTableError::CannotMatchType(bad)) && bad@ == l@,
                Some(id) => {
                    let parsed = if self.prim_map().contains_key(id) {
                        spec_prim_parse(self.prim_map()[id], spec_lit_text(l@))
                    } else {
                        None
                    };
                    match parsed {
                        Some(bytes) => r matches Ok(v) && v@ == bytes,
                        None => r matches Err(TypeTableError::CannotParseInto(bad, k)) && k@ == id
                            && bad@ == LitView::TypedWord(spec_lit_text(l@), id),
                    }
                },
            },
    {
        let typed = match self.match_first_type(l) {
            Ok(typed) => typed,
            Err(e) => {
                return Err(e);
            },
        };
        match &typed {
            Literal::TypedWord(s, id) => {
                let prim = match self.find_prim(id) {
                    Some(p) => Some(p),
                    None => None,
                };
                let chars = string_to_chars(s.as_str());
                let parsed: Option<Vec<u8>> = match prim {
                    Some(PrimitiveType::Int32) => match parse_i32_chars(&chars, 0, chars.len()) {
                        Some(x) => {
                            proof {
                                assert(chars@.subrange(0, chars@.len() as int) =~= chars@);
                            }
                            Some(x.to_raw_bytes())
                        },
                        None => {
                            proof {
                                assert(chars@.subrange(0, chars@.len() as int) =~= chars@);
                            }
                            None
                        },
                    },
                    Some(PrimitiveType::UInt32) => match parse_u32_chars(&chars, 0, chars.len()) {
                        Some(x) => {
                            proof {
                                assert(chars@.subrange(0, chars@.len() as int) =~= chars@);
                            }
                            Some(x.to_raw_bytes())
                        },
                        None => {
                            proof {
                                assert(chars@.subrange(0, chars@.len() as int) =~= chars@);
                            }
                            None
                        },
                    },
                    Some(PrimitiveType::Float32) => None,
                    None => None,
                };
                match parsed {
                    Some(bytes) => Ok(bytes),
                    None => Err(TypeTableError::CannotParseInto(typed.clone(), id.clone())),
                }
            },
            _ => {
                proof {
                    assert(false);
                }
                Err(TypeTableError::CannotMatchType(l.clone()))
            },
        }
    }
}

} // verus!
