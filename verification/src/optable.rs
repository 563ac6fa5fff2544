//! Named registry of operators.
//!
//! An [`OpTable`] maps operator names to an [`Operand`] kind and a stored
//! behavior: a user-supplied [`Evaluator`] for binary and n-ary function
//! operators, a fixed replacement literal for drop-ins, or the assignment
//! marker. Registering a name again overwrites the earlier registration:
//! last writer wins.

use crate::literal::{lit_views, LitView, Literal, Operand, OperandView};
use vstd::prelude::*;

verus! {

/// The model of an evaluation outcome: the result literal's model on
/// success, the failure text on failure.
pub open spec fn call_view(r: Result<Literal, String>) -> Result<LitView, Seq<char>> {
    match r {
        Ok(l) => Ok(l@),
        Err(e) => Err(e@),
    }
}

/// The interface of a user-registered operator evaluation function. The
/// embedding application implements it; the table stores one value per
/// registered binary or function operator and the reducer calls it with the
/// operator's arguments. Its failures are surfaced verbatim to the reducer's
/// caller. An implementation written outside the verifier is not checked
/// against its own relation; what is proved through it holds of checked
/// implementations.
pub trait Evaluator {
    /// The input-output relation this evaluation function promises of
    /// itself: which outcomes `call` may hand back for given arguments. The
    /// default admits every outcome; a checked implementation may narrow it
    /// and must then prove `call` against it.
    open spec fn post(&self, args: Seq<LitView>, r: Result<LitView, Seq<char>>) -> bool {
        true
    }

    /// Apply the operator to the given arguments. The outcome, success or
    /// failure, satisfies this evaluation function's own relation on exactly
    /// the given arguments.
    fn call(&self, args: &Vec<Literal>) -> (r: Result<Literal, String>)
        ensures
            self.post(lit_views(args@), call_view(r)),
    ;
}

/// What the table does when a registered name is called.
pub enum OpBehavior<E> {
    /// Apply a user-supplied evaluation function.
    Func(E),
    /// Hand out a fixed replacement literal.
    Replacement(Literal),
    /// Assignment marker: calling it yields an empty word.
    Assign,
}

/// Ghost model of a stored behavior.
pub enum OpBehaviorView<E> {
    Func(E),
    Replacement(LitView),
    Assign,
}

/// The model of a stored behavior.
pub open spec fn behavior_view<E>(b: OpBehavior<E>) -> OpBehaviorView<E> {
    match b {
        OpBehavior::Func(e) => OpBehaviorView::Func(e),
        OpBehavior::Replacement(l) => OpBehaviorView::Replacement(l@),
        OpBehavior::Assign => OpBehaviorView::Assign,
    }
}

struct OpEntry<E> {
    name: String,
    operand: Operand,
    behavior: OpBehavior<E>,
}

/// Registry of operator names: each maps to its operand kind and behavior.
pub struct OpTable<E> {
    entries: Vec<OpEntry<E>>,
}

/// The map an entry list denotes: later entries shadow earlier ones.
spec fn op_map<E>(s: Seq<OpEntry<E>>) -> Map<Seq<char>, (OperandView, OpBehaviorView<E>)>
    decreases s.len(),
{
    if s.len() == 0 {
        Map::empty()
    } else {
        op_map(s.drop_last()).insert(
            s.last().name@,
            (s.last().operand@, behavior_view(s.last().behavior)),
        )
    }
}

impl<E> View for OpTable<E> {
    type V = Map<Seq<char>, (OperandView, OpBehaviorView<E>)>;

    closed spec fn view(&self) -> Map<Seq<char>, (OperandView, OpBehaviorView<E>)> {
        op_map(self.entries@)
    }
}

impl<E> OpTable<E> {
    /// The operand registered under each name.
    pub open spec fn operands(&self) -> Map<Seq<char>, OperandView> {
        self@.map_values(|p: (OperandView, OpBehaviorView<E>)| p.0)
    }

    /// The behavior registered under each name.
    pub open spec fn behaviors(&self) -> Map<Seq<char>, OpBehaviorView<E>> {
        self@.map_values(|p: (OperandView, OpBehaviorView<E>)| p.1)
    }

    /// An empty table.
    pub fn new() -> (r: OpTable<E>)
        ensures
            r@ == Map::<Seq<char>, (OperandView, OpBehaviorView<E>)>::empty(),
    {
        OpTable { entries: Vec::new() }
    }

    /// The index of the entry that decides `name`, if the name is registered.
    #[verifier::loop_isolation(false)]
    fn find_entry(&self, name: &String) -> (r: Option<usize>)
        ensures
            match r {
                Some(j) => {
                    &&& j < self.entries@.len()
                    &&& self.entries@[j as int].name@ == name@
                    &&& self@.contains_key(name@)
                    &&& self@[name@] == (
                        self.entries@[j as int].operand@,
                        behavior_view(self.entries@[j as int].behavior),
                    )
                },
                None => !self@.contains_key(name@),
            },
    {
        let mut found: Option<usize> = None;
        let mut i: usize = 0;
        while i < self.entries.len()
            invariant
                i <= self.entries@.len(),
                match found {
                    Some(j) => {
                        &&& j < i
                        &&& self.entries@[j as int].name@ == name@
                        &&& op_map(self.entries@.take(i as int)).contains_key(name@)
                        &&& op_map(self.entries@.take(i as int))[name@] == (
                            self.entries@[j as int].operand@,
                            behavior_view(self.entries@[j as int].behavior),
                        )
                    },
                    None => !op_map(self.entries@.take(i as int)).contains_key(name@),
                },
            decreases self.entries@.len() - i,
        {
            proof {
                assert(self.entries@.take(i + 1).drop_last() =~= self.entries@.take(i as int));
                assert(self.entries@.take(i + 1).last() == self.entries@[i as int]);
            }
            if self.entries[i].name == *name {
                found = Some(i);
            }
            i = i + 1;
        }
        proof {
            assert(self.entries@.take(self.entries@.len() as int) =~= self.entries@);
        }
        found
    }

    /// Register a name under an operand kind with a behavior, overwriting any
    /// earlier registration of the same name.
    pub fn insert(&mut self, op: Operand, behavior: OpBehavior<E>)
        ensures
            final(self)@ == old(self)@.insert(op@.name(), (op@, behavior_view(behavior))),
    {
        let ghost pre = self.entries@;
        let name = op.ref_string().clone();
        self.entries.push(OpEntry { name, operand: op, behavior });
        proof {
            assert(self.entries@.drop_last() =~= pre);
        }
    }

    /// Whether a name is registered: the tokenizer's test for whether a
    /// pending word is an operator.
    pub fn contains(&self, string: &String) -> (r: bool)
        ensures
            r == self@.contains_key(string@),
    {
        self.find_entry(string).is_some()
    }

    /// Borrow the operand registered under a name.
    pub fn get_operand(&self, name: &String) -> (r: Option<&Operand>)
        ensures
            match r {
                Some(o) => self@.contains_key(name@) && o@ == self.operands()[name@],
                None => !self@.contains_key(name@),
            },
    {
        match self.find_entry(name) {
            Some(j) => Some(&self.entries[j].operand),
            None => None,
        }
    }

    /// Register a binary operator under the given name.
    pub fn insert_binary_op(&mut self, str: &str, func: E)
        ensures
            final(self)@ == old(self)@.insert(
                str@,
                (OperandView::Binary(str@), OpBehaviorView::Func(func)),
            ),
    {
        let op = Operand::Binary(str.to_owned());
        self.insert(op, OpBehavior::Func(func));
    }

    /// Register a drop-in under the given name: calling it hands out the
    /// replacement literal.
    pub fn insert_dropin_op(&mut self, str: &str, replace: Literal)
        ensures
            final(self)@ == old(self)@.insert(
                str@,
                (OperandView::DropIn(str@), OpBehaviorView::Replacement(replace@)),
            ),
    {
        let op = Operand::DropIn(str.to_owned());
        self.insert(op, OpBehavior::Replacement(replace));
    }

    /// Register an n-ary function operator under the given name.
    pub fn insert_function_op(&mut self, str: &str, func: E)
        ensures
            final(self)@ == old(self)@.insert(
                str@,
                (OperandView::Function(str@), OpBehaviorView::Func(func)),
            ),
    {
        let op = Operand::Function(str.to_owned());
        self.insert(op, OpBehavior::Func(func));
    }

    /// Register an assignment operator under the given name.
    pub fn insert_assignment_op(&mut self, str: &str)
        ensures
            final(self)@ == old(self)@.insert(
                str@,
                (OperandView::Assignment(str@), OpBehaviorView::Assign),
            ),
    {
        let op = Operand::Assignment(str.to_owned());
        self.insert(op, OpBehavior::Assign);
    }
}

impl<E: Evaluator> OpTable<E> {
    /// Dispatch a call to the behavior stored under the operand's name. Fails
    /// exactly when the name is not registered or when the stored evaluation
    /// function itself fails, the failure handed through verbatim. A stored
    /// evaluation function is invoked on exactly the given arguments and its
    /// outcome handed back, pinned by its own relation; a drop-in's call
    /// hands out its replacement and an assignment's call an empty word.
    pub fn call_by_operand(&self, op: &Operand, args: &Vec<Literal>) -> (r: Result<Literal, String>)
        ensures
            !self@.contains_key(op@.name()) ==> r is Err,
            self@.contains_key(op@.name()) ==> match self.behaviors()[op@.name()] {
                OpBehaviorView::Replacement(v) => r matches Ok(l) && l@ == v,
                OpBehaviorView::Assign => r matches Ok(l) && l@ == LitView::Word(Seq::empty()),
                OpBehaviorView::Func(e) => e.post(lit_views(args@), call_view(r)),
            },
    {
        match self.find_entry(op.ref_string()) {
            Some(j) => match &self.entries[j].behavior {
                OpBehavior::Func(e) => e.call(args),
                OpBehavior::Replacement(l) => Ok(l.clone()),
                OpBehavior::Assign => Ok(Literal::Word(String::new())),
            },
            None => {
                let mut msg = String::new();
                msg.append("operator not registered: ");
                msg.append(op.ref_string().as_str());
                Err(msg)
            },
        }
    }
}

} // verus!
