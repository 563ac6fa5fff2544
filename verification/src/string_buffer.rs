//! Accumulator for the token being scanned.
//!
//! A [`StringBuffer`] collects characters of the pending word; on flush,
//! [`StringBuffer::pull_literal`] resolves the word against the operator
//! table, then the symbol table, and otherwise emits a plain word.

use crate::literal::{spec_lit_text, LitView, Literal, OperandView};
use crate::numtext::{chars_to_string, string_to_chars};
use crate::optable::OpTable;
use crate::reftable::RefTable;
use vstd::prelude::*;

verus! {

/// How a flushed word resolves: a registered operator name becomes that
/// operator; a bound symbol becomes its bound value wrapped in a one-element
/// expression, so later substitution keeps its grouping; anything else stays
/// a plain word.
pub open spec fn spec_resolve(
    w: Seq<char>,
    ops: Map<Seq<char>, OperandView>,
    refs: Map<Seq<char>, LitView>,
) -> LitView {
    if ops.contains_key(w) {
        LitView::Operator(ops[w])
    } else if refs.contains_key(w) {
        LitView::Expression(seq![refs[w]])
    } else {
        LitView::Word(w)
    }
}

/// A growing buffer of source characters.
pub struct StringBuffer {
    source: String,
}

impl View for StringBuffer {
    type V = Seq<char>;

    closed spec fn view(&self) -> Seq<char> {
        self.source@
    }
}

impl StringBuffer {
    /// A buffer holding the given text, or an empty one.
    pub fn new(source: Option<String>) -> (r: StringBuffer)
        ensures
            r@ == match source {
                Some(s) => s@,
                None => Seq::<char>::empty(),
            },
    {
        StringBuffer {
            source: match source {
                Some(string) => string,
                None => String::new(),
            },
        }
    }

    /// Append a string slice.
    pub fn push_str(&mut self, str: &str)
        ensures
            final(self)@ == old(self)@ + str@,
    {
        self.source.append(str);
    }

    /// Append an owned string.
    pub fn push_string(&mut self, string: String)
        ensures
            final(self)@ == old(self)@ + string@,
    {
        self.source.append(string.as_str());
    }

    /// Append a sequence of characters.
    pub fn push_chars(&mut self, chars: Vec<char>)
        ensures
            final(self)@ == old(self)@ + chars@,
    {
        let s = chars_to_string(&chars);
        self.source.append(s.as_str());
    }

    /// Append one character.
    pub fn push_char(&mut self, c: char)
        ensures
            final(self)@ == old(self)@.push(c),
    {
        self.source.push(c);
    }

    /// Drop the buffer's contents.
    pub fn clear(&mut self)
        ensures
            final(self)@ == Seq::<char>::empty(),
    {
        self.source = String::new();
    }

    /// Borrow the buffered text.
    pub fn ref_str(&self) -> (r: &str)
        ensures
            r@ == self@,
    {
        self.source.as_str()
    }

    /// Borrow the buffered text as a `String`.
    pub fn ref_string(&self) -> (r: &String)
        ensures
            r@ == self@,
    {
        &self.source
    }

    /// The buffered characters, in order.
    pub fn ref_chars(&self) -> (r: Vec<char>)
        ensures
            r@ == self@,
    {
        string_to_chars(self.source.as_str())
    }

    /// Take the buffered text out, leaving the buffer empty.
    pub fn pull_string(&mut self) -> (r: String)
        ensures
            r@ == old(self)@,
            final(self)@ == Seq::<char>::empty(),
    {
        let string = self.source.clone();
        self.clear();
        string
    }

    /// Take the buffered characters out, leaving the buffer empty.
    pub fn pull_chars(&mut self) -> (r: Vec<char>)
        ensures
            r@ == old(self)@,
            final(self)@ == Seq::<char>::empty(),
    {
        let chars = self.ref_chars();
        self.clear();
        chars
    }

    /// Whether the buffer holds no characters.
    pub fn is_empty(&self) -> (r: bool)
        ensures
            r == (self@.len() == 0),
    {
        self.source.as_str().is_empty()
    }

    /// Flush the pending word, resolving it against the operator table and
    /// the symbol table. An empty buffer yields nothing; otherwise the buffer
    /// is emptied and the resolved literal handed out.
    pub fn pull_literal<E>(&mut self, ops: &OpTable<E>, refs: &RefTable) -> (r: Option<Literal>)
        ensures
            final(self)@ == Seq::<char>::empty(),
            match r {
                None => old(self)@.len() == 0,
                Some(l) => old(self)@.len() > 0 && l@ == spec_resolve(
                    old(self)@,
                    ops.operands(),
                    refs@,
                ),
            },
    {
        if !self.is_empty() {
            let string = self.pull_string();
            match ops.get_operand(&string) {
                Some(op) => Some(Literal::Operator(op.clone())),
                None => {
                    let s_as_literal = Literal::Word(string);
                    proof {
                        assert(spec_lit_text(s_as_literal@) == old(self)@);
                    }
                    match refs.retrieve(&s_as_literal) {
                        Some(bound) => {
                            let r = Literal::Expression(vec![bound]);
                            proof {
                                assert(r@->Expression_0 =~= seq![refs@[old(self)@]]);
                            }
                            Some(r)
                        },
                        None => Some(s_as_literal),
                    }
                },
            }
        } else {
            None
        }
    }
}

} // verus!
