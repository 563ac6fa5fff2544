//! The tree builder: source text to a nested expression literal.
//!
//! Scanning left to right, a space flushes the pending word, an opening
//! parenthesis opens a group that extends to its depth-matched closing
//! parenthesis and nests recursively, and any other character extends the
//! pending word. Words resolve against the operator table, then the symbol
//! table. Unmatched parentheses are a hard parse error.

use crate::errors::ParseError;
use crate::literal::{LitView, Literal, OperandView};
use crate::optable::OpTable;
use crate::reftable::RefTable;
use crate::string_buffer::{spec_resolve, StringBuffer};
use vstd::prelude::*;

verus! {

/// Whether a character belongs to a word: anything but a parenthesis or a
/// space.
pub open spec fn word_char(c: char) -> bool {
    c != '(' && c != ')' && c != ' '
}

/// The first index in `[i, hi)` holding a non-word character, or `hi` if the
/// word runs to the end.
pub open spec fn word_end(t: Seq<char>, i: int, hi: int) -> int
    recommends
        0 <= i <= hi <= t.len(),
    decreases hi - i,
{
    if 0 <= i && i < hi && hi <= t.len() {
        if word_char(t[i]) {
            word_end(t, i + 1, hi)
        } else {
            i
        }
    } else {
        hi
    }
}

/// The first index in `[i, hi)` where the parenthesis depth, starting from
/// `depth`, returns to zero after counting that index's character; `hi` if it
/// never does.
pub open spec fn seg_close(t: Seq<char>, i: int, hi: int, depth: int) -> int
    recommends
        0 <= i <= hi <= t.len(),
    decreases hi - i,
{
    if 0 <= i && i < hi && hi <= t.len() {
        let d = if t[i] == '(' {
            depth + 1
        } else if t[i] == ')' {
            depth - 1
        } else {
            depth
        };
        if d == 0 {
            i
        } else {
            seg_close(t, i + 1, hi, d)
        }
    } else {
        hi
    }
}

/// A word end lies within `[i, hi]`.
pub proof fn lemma_word_end_bounds(t: Seq<char>, i: int, hi: int)
    requires
        0 <= i <= hi <= t.len(),
    ensures
        i <= word_end(t, i, hi) <= hi,
    decreases hi - i,
{
    if i < hi && word_char(t[i]) {
        lemma_word_end_bounds(t, i + 1, hi);
    }
}

/// A close scan's result lies within `[i, hi]`.
pub proof fn lemma_seg_close_bounds(t: Seq<char>, i: int, hi: int, depth: int)
    requires
        0 <= i <= hi <= t.len(),
    ensures
        i <= seg_close(t, i, hi, depth) <= hi,
    decreases hi - i,
{
    if i < hi {
        let d = if t[i] == '(' {
            depth + 1
        } else if t[i] == ')' {
            depth - 1
        } else {
            depth
        };
        if d != 0 {
            lemma_seg_close_bounds(t, i + 1, hi, d);
        }
    }
}

/// The end of a run of word characters: if `[w, i)` holds only word
/// characters and `i` is `hi` or holds a non-word character, the word
/// starting at `w` ends exactly at `i`.
pub proof fn lemma_word_end_of_run(t: Seq<char>, w: int, i: int, hi: int)
    requires
        0 <= w <= i <= hi <= t.len(),
        forall|k: int| w <= k < i ==> word_char(t[k]),
        i == hi || !word_char(t[i]),
    ensures
        word_end(t, w, hi) == i,
    decreases i - w,
{
    if w < i {
        lemma_word_end_of_run(t, w + 1, i, hi);
    }
}

/// Whether the segment `[lo, hi)` parses: every closing parenthesis is
/// consumed by the group that opened it, and every opening parenthesis finds
/// its depth-matched close within the segment.
pub open spec fn seg_parses(t: Seq<char>, lo: int, hi: int) -> bool
    recommends
        0 <= lo <= hi <= t.len(),
    decreases hi - lo,
    via seg_parses_decreases
{
    if 0 <= lo && lo < hi && hi <= t.len() {
        if t[lo] == ' ' {
            seg_parses(t, lo + 1, hi)
        } else if t[lo] == ')' {
            false
        } else if t[lo] == '(' {
            let j = seg_close(t, lo + 1, hi, 1);
            j < hi && seg_parses(t, lo + 1, j) && seg_parses(t, j + 1, hi)
        } else {
            seg_parses(t, word_end(t, lo, hi), hi)
        }
    } else {
        true
    }
}

#[via_fn]
proof fn seg_parses_decreases(t: Seq<char>, lo: int, hi: int) {
    if 0 <= lo && lo < hi && hi <= t.len() {
        if t[lo] == '(' {
            lemma_seg_close_bounds(t, lo + 1, hi, 1);
        } else if t[lo] != ' ' && t[lo] != ')' {
            assert(word_end(t, lo, hi) == word_end(t, lo + 1, hi));
            lemma_word_end_bounds(t, lo + 1, hi);
        }
    }
}

/// The literals the segment `[lo, hi)` nests into: maximal word runs resolve
/// to single literals, and each parenthesized group becomes one nested
/// expression. Meaningful where the segment parses.
pub open spec fn seg_items(
    t: Seq<char>,
    lo: int,
    hi: int,
    ops: Map<Seq<char>, OperandView>,
    refs: Map<Seq<char>, LitView>,
) -> Seq<LitView>
    recommends
        0 <= lo <= hi <= t.len(),
        seg_parses(t, lo, hi),
    decreases hi - lo,
    via seg_items_decreases
{
    if 0 <= lo && lo < hi && hi <= t.len() {
        if t[lo] == ' ' || t[lo] == ')' {
            seg_items(t, lo + 1, hi, ops, refs)
        } else if t[lo] == '(' {
            let j = seg_close(t, lo + 1, hi, 1);
            if j < hi {
                seq![LitView::Expression(seg_items(t, lo + 1, j, ops, refs))] + seg_items(
                    t,
                    j + 1,
                    hi,
                    ops,
                    refs,
                )
            } else {
                seq![LitView::Expression(seg_items(t, lo + 1, hi, ops, refs))]
            }
        } else {
            let e = word_end(t, lo, hi);
            seq![spec_resolve(t.subrange(lo, e), ops, refs)] + seg_items(t, e, hi, ops, refs)
        }
    } else {
        Seq::empty()
    }
}

#[via_fn]
proof fn seg_items_decreases(
    t: Seq<char>,
    lo: int,
    hi: int,
    ops: Map<Seq<char>, OperandView>,
    refs: Map<Seq<char>, LitView>,
) {
    if 0 <= lo && lo < hi && hi <= t.len() {
        if t[lo] == '(' {
            lemma_seg_close_bounds(t, lo + 1, hi, 1);
        } else if t[lo] != ' ' && t[lo] != ')' {
            assert(word_end(t, lo, hi) == word_end(t, lo + 1, hi));
            lemma_word_end_bounds(t, lo + 1, hi);
        }
    }
}

/// Newline normalization and the trailing flush pad: every newline becomes a
/// space, and one space is appended so the last word always flushes.
pub open spec fn spec_preprocess(s: Seq<char>) -> Seq<char> {
    s.map(|i: int, c: char| if c == '\n' { ' ' } else { c }).push(' ')
}

/// A finished parse: the root expression literal.
pub struct ParseTree {
    pub expression: Literal,
}

impl ParseTree {
    /// Wrap a root literal.
    pub fn new(expression: Literal) -> (r: ParseTree)
        ensures
            r.expression == expression,
    {
        ParseTree { expression }
    }
}

/// Builds a nested expression literal from preprocessed source text,
/// resolving words against an operator table and a symbol table.
pub struct ParseTreeBuilder<'a, E> {
    source: StringBuffer,
    ops: &'a OpTable<E>,
    refs: &'a RefTable,
}

impl<'a, E> ParseTreeBuilder<'a, E> {
    /// The preprocessed source text.
    pub closed spec fn spec_source(&self) -> Seq<char> {
        self.source@
    }

    /// The operator name map words resolve against.
    pub closed spec fn spec_ops(&self) -> Map<Seq<char>, OperandView> {
        self.ops.operands()
    }

    /// The symbol map words resolve against.
    pub closed spec fn spec_refs(&self) -> Map<Seq<char>, LitView> {
        self.refs@
    }

    /// A builder over the given source text, which is preprocessed first.
    pub fn new_from_str(source: &str, ops: &'a OpTable<E>, refs: &'a RefTable) -> (r:
        ParseTreeBuilder<'a, E>)
        ensures
            r.spec_source() == spec_preprocess(source@),
            r.spec_ops() == ops.operands(),
            r.spec_refs() == refs@,
    {
        let source = Self::pre_process_string(source);
        ParseTreeBuilder { source, ops, refs }
    }

    /// Normalize newlines to spaces and append one trailing space.
    pub fn pre_process_string(str: &str) -> (r: StringBuffer)
        ensures
            r@ == spec_preprocess(str@),
    {
        let len = str.unicode_len();
        let mut out = String::new();
        let mut i: usize = 0;
        let ghost mapped = str@.map(|k: int, c: char| if c == '\n' { ' ' } else { c });
        while i < len
            invariant
                i <= len,
                len == str@.len(),
                mapped == str@.map(|k: int, c: char| if c == '\n' { ' ' } else { c }),
                out@ =~= mapped.subrange(0, i as int),
            decreases len - i,
        {
            let c = str.get_char(i);
            if c == '\n' {
                out.push(' ');
            } else {
                out.push(c);
            }
            assert(out@ =~= mapped.subrange(0, i + 1));
            i = i + 1;
        }
        out.push(' ');
        assert(out@ =~= spec_preprocess(str@));
        StringBuffer::new(Some(out))
    }

    /// Scan for the index of the closing parenthesis matching an opening one,
    /// starting just past it at depth one.
    fn find_close(chars: &Vec<char>, start: usize, hi: usize) -> (r: usize)
        requires
            start <= hi <= chars@.len(),
        ensures
            r == seg_close(chars@, start as int, hi as int, 1),
            start <= r <= hi,
    {
        let ghost t = chars@;
        let mut i = start;
        let mut depth: i128 = 1;
        while i < hi
            invariant
                start <= i <= hi <= chars@.len(),
                t == chars@,
                1 <= depth <= 1 + (i - start),
                seg_close(t, start as int, hi as int, 1) == seg_close(
                    t,
                    i as int,
                    hi as int,
                    depth as int,
                ),
            decreases hi - i,
        {
            let c = chars[i];
            if c == '(' {
                depth = depth + 1;
            } else if c == ')' {
                if depth == 1 {
                    return i;
                }
                depth = depth - 1;
            }
            i = i + 1;
        }
        hi
    }

    /// Nest the characters in `[lo, hi)` into an expression literal. Succeeds
    /// exactly when the segment's parentheses balance, and then hands back
    /// the expression whose children are the segment's items.
    #[verifier::loop_isolation(false)]
    fn expressionize_range(&self, chars: &Vec<char>, lo: usize, hi: usize) -> (r: Result<
        Literal,
        ParseError,
    >)
        requires
            lo <= hi <= chars@.len(),
        ensures
            match r {
                Ok(l) => seg_parses(chars@, lo as int, hi as int) && l@ == LitView::Expression(
                    seg_items(chars@, lo as int, hi as int, self.spec_ops(), self.spec_refs()),
                ),
                Err(ParseError::UnbalancedDelimiters) => !seg_parses(chars@, lo as int, hi as int),
            },
        decreases hi - lo,
    {
        let ghost t = chars@;
        let ghost ops = self.spec_ops();
        let ghost refs = self.spec_refs();

        let mut literals: Vec<Literal> = Vec::new();
        let mut working_buffer = StringBuffer::new(None);
        let mut index: usize = lo;
        let ghost mut w: int = lo as int;

        while index < hi
            invariant
                lo as int <= w <= index as int,
                index <= hi,
                working_buffer@ == t.subrange(w, index as int),
                forall|k: int| w <= k < index ==> word_char(t[k]),
                seg_parses(t, lo as int, hi as int) == seg_parses(t, w, hi as int),
                seg_parses(t, lo as int, hi as int) ==> seg_items(t, lo as int, hi as int, ops, refs)
                    =~= Seq::new(literals@.len(), |j: int| literals@[j]@) + seg_items(
                    t,
                    w,
                    hi as int,
                    ops,
                    refs,
                ),
            decreases hi - index,
        {
            let ghost pre_models = Seq::new(literals@.len(), |j: int| literals@[j]@);
            let c = chars[index];
            if c == '(' {
                proof {
                    if w < index {
                        lemma_word_end_of_run(t, w, index as int, hi as int);
                        assert(seg_parses(t, w, hi as int) == seg_parses(t, index as int, hi as int));
                        assert(seg_items(t, w, hi as int, ops, refs) == seq![
                            spec_resolve(t.subrange(w, index as int), ops, refs),
                        ] + seg_items(t, index as int, hi as int, ops, refs));
                    }
                }
                if let Some(l) = working_buffer.pull_literal(self.ops, self.refs) {
                    literals.push(l);
                    proof {
                        assert(Seq::new(literals@.len(), |j: int| literals@[j]@) =~= pre_models
                            + seq![literals@.last()@]);
                    }
                }
                proof {
                    w = index as int;
                }
                let ghost pre_models2 = Seq::new(literals@.len(), |j: int| literals@[j]@);
                let close = Self::find_close(chars, index + 1, hi);
                let ghost j = seg_close(t, index + 1, hi as int, 1);
                if close == hi {
                    proof {
                        assert(!seg_parses(t, index as int, hi as int));
                    }
                    return Err(ParseError::UnbalancedDelimiters);
                }
                let inner = self.expressionize_range(chars, index + 1, close);
                match inner {
                    Ok(l) => {
                        proof {
                            assert(seg_parses(t, index as int, hi as int) == seg_parses(
                                t,
                                j + 1,
                                hi as int,
                            ));
                            assert(seg_parses(t, lo as int, hi as int) ==> seg_items(
                                t,
                                index as int,
                                hi as int,
                                ops,
                                refs,
                            ) == seq![
                                LitView::Expression(seg_items(t, index + 1, j, ops, refs)),
                            ] + seg_items(t, j + 1, hi as int, ops, refs));
                        }
                        literals.push(l);
                        proof {
                            assert(Seq::new(literals@.len(), |j2: int| literals@[j2]@) =~= pre_models2
                                + seq![literals@.last()@]);
                        }
                        index = close + 1;
                        proof {
                            w = index as int;
                            assert(working_buffer@ =~= t.subrange(w, index as int));
                        }
                    },
                    Err(e) => {
                        proof {
                            assert(!seg_parses(t, index as int, hi as int));
                        }
                        return Err(e);
                    },
                }
            } else if c == ')' {
                proof {
                    if w < index {
                        lemma_word_end_of_run(t, w, index as int, hi as int);
                        assert(seg_parses(t, w, hi as int) == seg_parses(t, index as int, hi as int));
                    }
                    assert(!seg_parses(t, index as int, hi as int));
                }
                return Err(ParseError::UnbalancedDelimiters);
            } else if c == ' ' {
                proof {
                    if w < index {
                        lemma_word_end_of_run(t, w, index as int, hi as int);
                        assert(seg_parses(t, w, hi as int) == seg_parses(t, index as int, hi as int));
                        assert(seg_items(t, w, hi as int, ops, refs) == seq![
                            spec_resolve(t.subrange(w, index as int), ops, refs),
                        ] + seg_items(t, index as int, hi as int, ops, refs));
                    }
                    assert(seg_parses(t, index as int, hi as int) == seg_parses(
                        t,
                        index + 1,
                        hi as int,
                    ));
                    assert(seg_items(t, index as int, hi as int, ops, refs) == seg_items(
                        t,
                        index + 1,
                        hi as int,
                        ops,
                        refs,
                    ));
                }
                if let Some(l) = working_buffer.pull_literal(self.ops, self.refs) {
                    literals.push(l);
                    proof {
                        assert(Seq::new(literals@.len(), |j: int| literals@[j]@) =~= pre_models
                            + seq![literals@.last()@]);
                    }
                }
                index = index + 1;
                proof {
                    w = index as int;
                    assert(working_buffer@ =~= t.subrange(w, index as int));
                }
            } else {
                working_buffer.push_char(c);
                index = index + 1;
                proof {
                    assert(working_buffer@ =~= t.subrange(w, index as int));
                }
            }
        }
        let ghost pre_models = Seq::new(literals@.len(), |j: int| literals@[j]@);
        proof {
            if w < hi {
                lemma_word_end_of_run(t, w, hi as int, hi as int);
                assert(seg_parses(t, w, hi as int) == seg_parses(t, hi as int, hi as int));
                assert(seg_items(t, w, hi as int, ops, refs) == seq![
                    spec_resolve(t.subrange(w, hi as int), ops, refs),
                ] + seg_items(t, hi as int, hi as int, ops, refs));
            }
            assert(seg_parses(t, hi as int, hi as int));
            assert(seg_items(t, hi as int, hi as int, ops, refs) =~= Seq::empty());
        }
        if let Some(l) = working_buffer.pull_literal(self.ops, self.refs) {
            literals.push(l);
            proof {
                assert(Seq::new(literals@.len(), |j: int| literals@[j]@) =~= pre_models
                    + seq![literals@.last()@]);
            }
        }
        let r = Literal::Expression(literals);
        proof {
            assert(r@->Expression_0 =~= seg_items(t, lo as int, hi as int, ops, refs));
        }
        Ok(r)
    }

    /// Nest a buffer's characters into an expression literal. Succeeds
    /// exactly when the buffer's parentheses balance.
    pub fn expressionize_buffer(&self, buf: &StringBuffer) -> (r: Result<Literal, ParseError>)
        ensures
            match r {
                Ok(l) => seg_parses(buf@, 0, buf@.len() as int) && l@ == LitView::Expression(
                    seg_items(buf@, 0, buf@.len() as int, self.spec_ops(), self.spec_refs()),
                ),
                Err(ParseError::UnbalancedDelimiters) => !seg_parses(buf@, 0, buf@.len() as int),
            },
    {
        let chars = buf.ref_chars();
        let len = chars.len();
        self.expressionize_range(&chars, 0, len)
    }

    /// Build the parse tree of the whole source. Succeeds exactly when the
    /// source's parentheses balance.
    pub fn build(self) -> (r: Result<ParseTree, ParseError>)
        ensures
            match r {
                Ok(tree) => seg_parses(self.spec_source(), 0, self.spec_source().len() as int)
                    && tree.expression@ == LitView::Expression(
                    seg_items(
                        self.spec_source(),
                        0,
                        self.spec_source().len() as int,
                        self.spec_ops(),
                        self.spec_refs(),
                    ),
                ),
                Err(ParseError::UnbalancedDelimiters) => !seg_parses(
                    self.spec_source(),
                    0,
                    self.spec_source().len() as int,
                ),
            },
    {
        let exp = match self.expressionize_buffer(&self.source) {
            Ok(exp) => exp,
            Err(e) => {
                return Err(e);
            },
        };
        Ok(ParseTree::new(exp))
    }
}

} // verus!
