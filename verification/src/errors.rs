//! Typed errors for parsing, reference taking and type lookup.

use crate::literal::{Literal, WordKindId};
use vstd::prelude::*;

verus! {

/// Errors from building a parse tree.
#[derive(Debug)]
pub enum ParseError {
    /// The source text's parentheses do not balance.
    UnbalancedDelimiters,
}

/// Errors on taking a textual reference into a literal.
#[derive(Debug)]
pub enum InternalError {
    /// An expression has no single backing string to reference.
    CannotReferenceExprStr,
    /// An arena pointer has no backing string to reference.
    CannotReferencePtrStr,
}

/// Errors from the type registry.
#[derive(Debug)]
pub enum TypeTableError {
    /// The literal cannot be parsed into the type named by the identifier.
    CannotParseInto(Literal, WordKindId),
    /// No registered recognizer rule matches the literal's text.
    CannotMatchType(Literal),
}

} // verus!
