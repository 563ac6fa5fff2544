//! An embeddable textual-expression interpreter.
//!
//! Source text in a whitespace-delimited, parenthesis-grouped surface syntax
//! is tokenized and nested into a [`Literal`] tree, which a reduction engine
//! rewrites by applying operators registered in an [`OpTable`]. A pluggable
//! type registry ([`TypeTable`]) recognizes and converts textual literals into
//! typed values, and an append-only byte arena ([`ByteHeap`]) stores such
//! values by their raw bit representation, handing back bounds-checked
//! handles.

pub mod byte_heap;
pub mod byteable;
pub mod errors;
pub mod evaluators;
pub mod kinds;
pub mod literal;
pub mod numtext;
pub mod optable;
pub mod parser;
pub mod reducer;
pub mod reftable;
pub mod rules;
pub mod string_buffer;
pub mod string_ext;
pub mod typetable;
pub mod types;

pub use byte_heap::{Accessor, ByteHeap, ByteHeapError, HeapPtr, XPtr};
pub use byteable::Byteable;
pub use errors::{InternalError, ParseError, TypeTableError};
pub use evaluators::IntAddEvaluator;
pub use kinds::{I32Kind, U32Kind};
pub use literal::{LitView, Literal, Operand, OperandView, WordKindId};
pub use optable::{Evaluator, OpBehavior, OpTable};
pub use parser::{ParseTree, ParseTreeBuilder};
pub use reducer::{reduce, scan_pass};
pub use reftable::RefTable;
pub use rules::{MatchRule, MatchRuleResult, MatchRuleSet, TokenPattern};
pub use string_buffer::StringBuffer;
pub use string_ext::StringExt;
pub use typetable::{Iop, KindWrapper, TypeTable};
pub use types::PrimitiveType;
