//! The universal value and token type of the interpreter.
//!
//! A [`Literal`] is an unresolved word, a word whose type the registry has
//! determined, a resolved operator, an ordered parenthesized group, or a
//! handle to a value committed to the byte arena. Contracts speak about
//! literals through their ghost model, [`LitView`].

use crate::byte_heap::XPtr;
use crate::errors::InternalError;
use crate::numtext::{chars_to_string, format_u128, spec_digits};
use vstd::prelude::*;

verus! {

broadcast use vstd::std_specs::vec::axiom_vec_index_decreases;

/// An opaque identifier naming a registered value type, such as `"i32"`.
#[derive(Debug, PartialEq, Eq, Hash)]
pub struct WordKindId(pub String);

impl View for WordKindId {
    type V = Seq<char>;

    open spec fn view(&self) -> Seq<char> {
        self.0@
    }
}

impl Clone for WordKindId {
    /// Cloning keeps the identifier's text.
    fn clone(&self) -> (r: Self)
        ensures
            r@ == self@,
    {
        WordKindId(self.0.clone())
    }
}

/// The kind and registered name of an operator.
#[derive(Debug, PartialEq, Eq, Hash)]
pub enum Operand {
    Binary(String),
    DropIn(String),
    Function(String),
    Assignment(String),
}

/// Ghost model of an [`Operand`]: its kind and its name's characters.
#[verifier::ext_equal]
pub enum OperandView {
    Binary(Seq<char>),
    DropIn(Seq<char>),
    Function(Seq<char>),
    Assignment(Seq<char>),
}

impl OperandView {
    /// The operator's registered name.
    pub open spec fn name(self) -> Seq<char> {
        match self {
            OperandView::Binary(n) => n,
            OperandView::DropIn(n) => n,
            OperandView::Function(n) => n,
            OperandView::Assignment(n) => n,
        }
    }
}

impl View for Operand {
    type V = OperandView;

    open spec fn view(&self) -> OperandView {
        match self {
            Operand::Binary(n) => OperandView::Binary(n@),
            Operand::DropIn(n) => OperandView::DropIn(n@),
            Operand::Function(n) => OperandView::Function(n@),
            Operand::Assignment(n) => OperandView::Assignment(n@),
        }
    }
}

impl Operand {
    /// Borrow the operator's registered name.
    pub fn ref_string(&self) -> (r: &String)
        ensures
            r@ == self@.name(),
    {
        match self {
            Operand::Binary(op) => op,
            Operand::DropIn(op) => op,
            Operand::Function(op) => op,
            Operand::Assignment(op) => op,
        }
    }
}

impl Clone for Operand {
    /// Cloning keeps the operator's kind and name.
    fn clone(&self) -> (r: Self)
        ensures
            r@ == self@,
    {
        match self {
            Operand::Binary(op) => Operand::Binary(op.clone()),
            Operand::DropIn(op) => Operand::DropIn(op.clone()),
            Operand::Function(op) => Operand::Function(op.clone()),
            Operand::Assignment(op) => Operand::Assignment(op.clone()),
        }
    }
}

/// The universal value and token type.
#[derive(Debug)]
pub enum Literal {
    /// An unresolved textual token.
    Word(String),
    /// A token whose type the registry has determined but whose value has not
    /// been materialized into arena bytes.
    TypedWord(String, WordKindId),
    /// A resolved reference to a registered operator.
    Operator(Operand),
    /// A parenthesized group; order is textual order.
    Expression(Vec<Literal>),
    /// A value committed to the byte arena.
    Pointer(XPtr),
}

/// Ghost model of a [`Literal`].
#[verifier::ext_equal]
pub enum LitView {
    Word(Seq<char>),
    TypedWord(Seq<char>, Seq<char>),
    Operator(OperandView),
    Expression(Seq<LitView>),
    Pointer(XPtr),
}

/// The model of a literal: strings become character sequences and child
/// vectors become sequences of child models.
pub open spec fn lit_view(l: Literal) -> LitView
    decreases l,
    via lit_view_decreases
{
    match l {
        Literal::Word(t) => LitView::Word(t@),
        Literal::TypedWord(t, id) => LitView::TypedWord(t@, id@),
        Literal::Operator(op) => LitView::Operator(op@),
        Literal::Expression(es) => LitView::Expression(
            Seq::new(
                es@.len(),
                |i: int|
                    if 0 <= i < es@.len() {
                        lit_view(es@[i])
                    } else {
                        LitView::Expression(Seq::empty())
                    },
            ),
        ),
        Literal::Pointer(p) => LitView::Pointer(p),
    }
}

#[via_fn]
proof fn lit_view_decreases(l: Literal) {
    match l {
        Literal::Expression(es) => {
            assert forall|i: int| 0 <= i < es@.len() implies decreases_to!(l => es@[i]) by {
                assert(decreases_to!(l => es));
                assert(decreases_to!(es => es@));
                assert(decreases_to!(es@ => es@[i]));
            }
        },
        _ => {},
    }
}

impl View for Literal {
    type V = LitView;

    open spec fn view(&self) -> LitView {
        lit_view(*self)
    }
}

/// The models of a list of literals.
pub open spec fn lit_views(s: Seq<Literal>) -> Seq<LitView> {
    Seq::new(s.len(), |i: int| s[i]@)
}

/// The textual rendering of an arena handle: its offset and length packed
/// into one number, written in decimal.
pub open spec fn spec_ptr_text(p: XPtr) -> Seq<char> {
    spec_digits((p.index * 0x1_0000_0000 + p.byte_len) as nat)
}

/// The textual rendering of a literal: a word is its text, an operator its
/// name, an expression its children's renderings each followed by a space.
pub open spec fn spec_lit_text(v: LitView) -> Seq<char>
    decreases v, 1int, 0int,
{
    match v {
        LitView::Word(t) => t,
        LitView::TypedWord(t, _) => t,
        LitView::Operator(op) => op.name(),
        LitView::Expression(items) => spec_items_text(items),
        LitView::Pointer(p) => spec_ptr_text(p),
    }
}

/// The concatenated renderings of a sequence of literals, each followed by
/// one space.
pub open spec fn spec_items_text(items: Seq<LitView>) -> Seq<char>
    decreases items, 0int, items.len() + 1,
{
    spec_items_text_from(items, 0)
}

/// The concatenated renderings of the literals from index `i` on.
pub open spec fn spec_items_text_from(items: Seq<LitView>, i: int) -> Seq<char>
    decreases items, 0int, items.len() - i,
{
    if i < 0 || i >= items.len() {
        Seq::empty()
    } else {
        spec_lit_text(items[i]) + seq![' '] + spec_items_text_from(items, i + 1)
    }
}

impl Literal {
    /// Render the literal as text.
    #[verifier::loop_isolation(false)]
    pub fn as_string(&self) -> (r: String)
        ensures
            r@ == spec_lit_text(self@),
        decreases *self,
    {
        match self {
            Literal::Word(t) => t.clone(),
            Literal::TypedWord(t, _) => t.clone(),
            Literal::Operator(op) => op.ref_string().clone(),
            Literal::Expression(es) => {
                let ghost models = self@->Expression_0;
                let mut s = String::new();
                let mut i: usize = 0;
                while i < es.len()
                    invariant
                        i <= es@.len(),
                        models == self@->Expression_0,
                        models.len() == es@.len(),
                        forall|j: int| 0 <= j < es@.len() ==> models[j] == lit_view(es@[j]),
                        spec_items_text(models) =~= s@ + spec_items_text_from(models, i as int),
                    decreases es@.len() - i,
                {
                    proof {
                        assert(decreases_to!(*self => *es));
                        assert(decreases_to!(*es => es@));
                        assert(decreases_to!(es@ => es@[i as int]));
                    }
                    let child = es[i].as_string();
                    s.append(child.as_str());
                    s.push(' ');
                    i = i + 1;
                }
                assert(s@ =~= spec_items_text(models));
                s
            },
            Literal::Pointer(p) => {
                let packed = (p.index as u128) * 0x1_0000_0000 + (p.byte_len as u128);
                let chars = format_u128(packed);
                chars_to_string(&chars)
            },
        }
    }

    /// Borrow the literal's backing string. Fails exactly on expressions and
    /// arena pointers, which have none.
    pub fn ref_string(&self) -> (r: Result<&String, InternalError>)
        ensures
            match r {
                Ok(s) => !(self@ is Expression) && !(self@ is Pointer) && s@ == spec_lit_text(
                    self@,
                ),
                Err(InternalError::CannotReferenceExprStr) => self@ is Expression,
                Err(InternalError::CannotReferencePtrStr) => self@ is Pointer,
            },
    {
        match self {
            Literal::Word(t) => Ok(t),
            Literal::TypedWord(t, _) => Ok(t),
            Literal::Operator(op) => Ok(op.ref_string()),
            Literal::Expression(_) => Err(InternalError::CannotReferenceExprStr),
            Literal::Pointer(_) => Err(InternalError::CannotReferencePtrStr),
        }
    }
}

impl Clone for Literal {
    /// Cloning keeps the literal's whole model, children and handles
    /// included.
    #[verifier::loop_isolation(false)]
    fn clone(&self) -> (r: Self)
        ensures
            r@ == self@,
        decreases *self,
    {
        match self {
            Literal::Word(t) => Literal::Word(t.clone()),
            Literal::TypedWord(t, id) => Literal::TypedWord(t.clone(), id.clone()),
            Literal::Operator(op) => Literal::Operator(op.clone()),
            Literal::Expression(es) => {
                let mut out: Vec<Literal> = Vec::new();
                let mut i: usize = 0;
                while i < es.len()
                    invariant
                        i <= es@.len(),
                        out@.len() == i,
                        forall|j: int| 0 <= j < i ==> lit_view(out@[j]) == lit_view(es@[j]),
                    decreases es@.len() - i,
                {
                    proof {
                        assert(decreases_to!(*self => *es));
                        assert(decreases_to!(*es => es@));
                        assert(decreases_to!(es@ => es@[i as int]));
                    }
                    let c = es[i].clone();
                    out.push(c);
                    i = i + 1;
                }
                let r = Literal::Expression(out);
                proof {
                    assert(r@->Expression_0 =~= self@->Expression_0);
                    assert(r@ == self@);
                }
                r
            },
            Literal::Pointer(p) => Literal::Pointer(*p),
        }
    }
}

impl PartialEq for Literal {
    /// Literals compare by their textual rendering, as word resolution in the
    /// tokenizer does.
    fn eq(&self, other: &Self) -> (r: bool) {
        let a = self.as_string();
        let b = other.as_string();
        a == b
    }
}

impl vstd::std_specs::cmp::PartialEqSpecImpl for Literal {
    open spec fn obeys_eq_spec() -> bool {
        true
    }

    open spec fn eq_spec(&self, other: &Self) -> bool {
        spec_lit_text(self@) == spec_lit_text(other@)
    }
}

impl Eq for Literal {

}

} // verus!
