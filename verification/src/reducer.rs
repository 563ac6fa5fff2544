//! The reduction engine: fixed-point rewriting of an expression's children.
//!
//! Child expressions reduce first, recursively. Then scan passes run over the
//! child list until one full pass applies no rewrite: a binary operator with
//! a left and a right sibling folds that three-element window into the
//! evaluator's result, a drop-in with no siblings is replaced by its
//! registered literal, and a function operator immediately followed by a
//! group consumes it, the group's children becoming the argument list. A
//! stuck expression is never an error: it is handed back unreduced. When
//! exactly one literal remains, the expression wrapper is discarded.

use crate::literal::{lit_view, lit_views, LitView, Literal, Operand, OperandView};
use crate::optable::{Evaluator, OpBehaviorView, OpTable};
use vstd::prelude::*;

verus! {

broadcast use vstd::std_specs::vec::axiom_vec_index_decreases;

/// Whether the item at index `i` is an operator the scan can apply there: a
/// binary operator needs a left and a right sibling, a drop-in needs no
/// siblings at all, and a function operator needs the very next item to be an
/// expression. Assignment operators are inert to the scan.
pub open spec fn applicable_at(items: Seq<LitView>, i: int) -> bool {
    0 <= i < items.len() && match items[i] {
        LitView::Operator(op) => match op {
            OperandView::Binary(_) => 0 < i < items.len() - 1,
            OperandView::DropIn(_) => items.len() == 1,
            OperandView::Function(_) => i + 1 < items.len() && items[i + 1] is Expression,
            OperandView::Assignment(_) => false,
        },
        _ => false,
    }
}

/// Whether any item is an applicable operator.
pub open spec fn has_applicable(items: Seq<LitView>) -> bool {
    exists|i: int| applicable_at(items, i)
}

/// Whether `i` is the first applicable index.
pub open spec fn first_applicable(items: Seq<LitView>, i: int) -> bool {
    applicable_at(items, i) && forall|j: int| 0 <= j < i ==> !applicable_at(items, j)
}

/// The argument list handed to the operator applied at index `i`: a binary
/// operator receives its left and right siblings, a drop-in nothing, and a
/// function operator the children of the group that follows it.
pub open spec fn scan_args(pre: Seq<LitView>, i: int) -> Seq<LitView>
    recommends
        applicable_at(pre, i),
{
    match pre[i]->Operator_0 {
        OperandView::Binary(_) => seq![pre[i - 1], pre[i + 1]],
        OperandView::DropIn(_) => Seq::empty(),
        OperandView::Function(_) => pre[i + 1]->Expression_0,
        OperandView::Assignment(_) => Seq::empty(),
    }
}

/// What one rewrite does to the item list: the window around the operator at
/// `i` is replaced by the single result `v`.
pub open spec fn scan_step(pre: Seq<LitView>, post: Seq<LitView>, i: int, v: LitView) -> bool {
    applicable_at(pre, i) && match pre[i]->Operator_0 {
        OperandView::Binary(_) => post =~= pre.subrange(0, i - 1) + seq![v] + pre.subrange(
            i + 2,
            pre.len() as int,
        ),
        OperandView::DropIn(_) => post =~= seq![v],
        OperandView::Function(_) => post =~= pre.subrange(0, i) + seq![v] + pre.subrange(
            i + 2,
            pre.len() as int,
        ),
        OperandView::Assignment(_) => false,
    }
}

/// What the operator table promises of a successful call on the operator at
/// index `i` of `pre`: a drop-in hands out its registered replacement and an
/// assignment an empty word; a user evaluation function's result satisfies
/// that function's own relation on exactly the scan's argument list.
pub open spec fn eval_post<E: Evaluator>(
    behaviors: Map<Seq<char>, OpBehaviorView<E>>,
    pre: Seq<LitView>,
    i: int,
    v: LitView,
) -> bool {
    let name = pre[i]->Operator_0.name();
    behaviors.contains_key(name) && match behaviors[name] {
        OpBehaviorView::Replacement(rep) => v == rep,
        OpBehaviorView::Assign => v == LitView::Word(Seq::empty()),
        OpBehaviorView::Func(e) => e.post(scan_args(pre, i), Ok(v)),
    }
}

/// Why applying the first applicable operator, at index `i` of `pre`, can
/// fail with text `e` when `n` rewrites already happened: the operator's name
/// is not registered; or its name maps to a user evaluation function whose
/// own relation admits that failure on the scan's argument list; or `e` is
/// the drop-in budget report, which takes a chain of that many rewrites
/// first.
pub open spec fn scan_blame<E: Evaluator>(
    behaviors: Map<Seq<char>, OpBehaviorView<E>>,
    pre: Seq<LitView>,
    i: int,
    n: nat,
    e: Seq<char>,
) -> bool {
    let name = pre[i]->Operator_0.name();
    ||| !behaviors.contains_key(name)
    ||| (behaviors[name] matches OpBehaviorView::Func(ev) && ev.post(scan_args(pre, i), Err(e)))
    ||| (e == "drop-in substitution chain did not settle"@ && n >= usize::MAX)
}

/// How the reducer's result relates to the settled item list: a single
/// remaining literal loses its expression wrapper, anything else is handed
/// back as the expression itself.
pub open spec fn unwrap_of(items: Seq<LitView>, v: LitView) -> bool {
    if items.len() == 1 {
        v == items[0]
    } else {
        v == LitView::Expression(items)
    }
}

/// How the result of reducing a literal that needs no work relates to it: an
/// expression loses its wrapper when it holds exactly one literal, anything
/// else comes back as itself.
pub open spec fn unwrap_of_lit(pre: LitView, v: LitView) -> bool {
    match pre {
        LitView::Expression(items) => unwrap_of(items, v),
        _ => v == pre,
    }
}

/// Whether `post` is reachable from `pre` by exactly `n` scan rewrites, each
/// applying the first applicable operator and each result consistent with
/// what the table promises of the operator's behavior.
pub open spec fn scan_reach<E: Evaluator>(
    behaviors: Map<Seq<char>, OpBehaviorView<E>>,
    pre: Seq<LitView>,
    post: Seq<LitView>,
    n: nat,
) -> bool
    decreases n,
{
    if n == 0 {
        post == pre
    } else {
        exists|mid: Seq<LitView>, i: int, v: LitView|
            {
                &&& first_applicable(pre, i)
                &&& #[trigger] scan_step(pre, mid, i, v)
                &&& eval_post(behaviors, pre, i, v)
                &&& scan_reach(behaviors, mid, post, (n - 1) as nat)
            }
    }
}

/// One more rewrite at the end of a reachable chain extends the chain.
proof fn lemma_scan_reach_snoc<E: Evaluator>(
    behaviors: Map<Seq<char>, OpBehaviorView<E>>,
    pre: Seq<LitView>,
    mid: Seq<LitView>,
    post: Seq<LitView>,
    n: nat,
    i: int,
    v: LitView,
)
    requires
        scan_reach(behaviors, pre, mid, n),
        first_applicable(mid, i),
        scan_step(mid, post, i, v),
        eval_post(behaviors, mid, i, v),
    ensures
        scan_reach(behaviors, pre, post, n + 1),
    decreases n,
{
    if n == 0 {
        assert(scan_step(pre, post, i, v));
        assert(scan_reach(behaviors, post, post, 0));
    } else {
        let (mid1, i1, v1): (Seq<LitView>, int, LitView) = choose|
            mid1: Seq<LitView>,
            i1: int,
            v1: LitView,
        |
            {
                &&& first_applicable(pre, i1)
                &&& #[trigger] scan_step(pre, mid1, i1, v1)
                &&& eval_post(behaviors, pre, i1, v1)
                &&& scan_reach(behaviors, mid1, mid, (n - 1) as nat)
            };
        lemma_scan_reach_snoc(behaviors, mid1, mid, post, (n - 1) as nat, i, v);
        assert(scan_step(pre, mid1, i1, v1));
    }
}

/// Whether `out` is a possible outcome of reducing `v`: nothing but an
/// expression changes; an expression's children go through the children
/// stage, then a chain of scan rewrites that ends with no applicable
/// operator, and a sole survivor loses its wrapper.
pub open spec fn reduces_to<E: Evaluator>(
    behaviors: Map<Seq<char>, OpBehaviorView<E>>,
    v: LitView,
    out: LitView,
) -> bool
    decreases v,
    via reduces_to_decreases::<E>
{
    match v {
        LitView::Expression(items) => exists|mid: Seq<LitView>, settled: Seq<LitView>, n: nat|
            {
                &&& mid.len() == items.len()
                &&& (forall|k: int|
                    #![trigger items[k], mid[k]]
                    0 <= k < items.len() ==> if items[k] is Expression {
                        reduces_to(behaviors, items[k], mid[k])
                    } else {
                        mid[k] == items[k]
                    })
                &&& #[trigger] scan_reach(behaviors, mid, settled, n)
                &&& !has_applicable(settled)
                &&& unwrap_of(settled, out)
            },
        _ => out == v,
    }
}

#[via_fn]
proof fn reduces_to_decreases<E: Evaluator>(
    behaviors: Map<Seq<char>, OpBehaviorView<E>>,
    v: LitView,
    out: LitView,
) {
    match v {
        LitView::Expression(items) => {
            assert forall|k: int| 0 <= k < items.len() implies decreases_to!(v => items[k]) by {
                assert(decreases_to!(v => items));
                assert(decreases_to!(items => items[k]));
            }
        },
        _ => {},
    }
}

/// One child of the children stage: an expression becomes a possible outcome
/// of reducing it; anything else stays itself.
pub open spec fn child_reduces_to<E: Evaluator>(
    behaviors: Map<Seq<char>, OpBehaviorView<E>>,
    pre: LitView,
    post: LitView,
) -> bool {
    if pre is Expression {
        reduces_to(behaviors, pre, post)
    } else {
        post == pre
    }
}

/// The children stage: each child expression is replaced by a possible
/// outcome of reducing it, and every other child is carried over unchanged.
pub open spec fn children_reduce_to<E: Evaluator>(
    behaviors: Map<Seq<char>, OpBehaviorView<E>>,
    items: Seq<LitView>,
    mid: Seq<LitView>,
) -> bool {
    &&& mid.len() == items.len()
    &&& forall|k: int|
        0 <= k < items.len() ==> #[trigger] child_reduces_to(behaviors, items[k], mid[k])
}

/// Reducing an expression unfolds to the children stage, a rewrite chain, and
/// the final unwrap.
pub proof fn lemma_reduces_to_unfold<E: Evaluator>(
    behaviors: Map<Seq<char>, OpBehaviorView<E>>,
    items: Seq<LitView>,
    out: LitView,
)
    ensures
        reduces_to(behaviors, LitView::Expression(items), out) <==> exists|
            mid: Seq<LitView>,
            settled: Seq<LitView>,
            n: nat,
        |
            {
                &&& children_reduce_to(behaviors, items, mid)
                &&& #[trigger] scan_reach(behaviors, mid, settled, n)
                &&& !has_applicable(settled)
                &&& unwrap_of(settled, out)
            },
{
    let v = LitView::Expression(items);
    if reduces_to(behaviors, v, out) {
        let (mid, settled, n): (Seq<LitView>, Seq<LitView>, nat) = choose|
            mid: Seq<LitView>,
            settled: Seq<LitView>,
            n: nat,
        |
            {
                &&& mid.len() == items.len()
                &&& (forall|k: int|
                    #![trigger items[k], mid[k]]
                    0 <= k < items.len() ==> if items[k] is Expression {
                        reduces_to(behaviors, items[k], mid[k])
                    } else {
                        mid[k] == items[k]
                    })
                &&& #[trigger] scan_reach(behaviors, mid, settled, n)
                &&& !has_applicable(settled)
                &&& unwrap_of(settled, out)
            };
        assert forall|k: int| 0 <= k < items.len() implies #[trigger] child_reduces_to(
            behaviors,
            items[k],
            mid[k],
        ) by {
            assert(items[k] == items[k] && mid[k] == mid[k]);
        }
        assert(children_reduce_to(behaviors, items, mid));
    }
    if exists|mid: Seq<LitView>, settled: Seq<LitView>, n: nat|
        {
            &&& children_reduce_to(behaviors, items, mid)
            &&& #[trigger] scan_reach(behaviors, mid, settled, n)
            &&& !has_applicable(settled)
            &&& unwrap_of(settled, out)
        } {
        let (mid, settled, n): (Seq<LitView>, Seq<LitView>, nat) = choose|
            mid: Seq<LitView>,
            settled: Seq<LitView>,
            n: nat,
        |
            {
                &&& children_reduce_to(behaviors, items, mid)
                &&& #[trigger] scan_reach(behaviors, mid, settled, n)
                &&& !has_applicable(settled)
                &&& unwrap_of(settled, out)
            };
        assert forall|k: int|
            #![trigger items[k], mid[k]]
            0 <= k < items.len() implies if items[k] is Expression {
            reduces_to(behaviors, items[k], mid[k])
        } else {
            mid[k] == items[k]
        } by {
            assert(child_reduces_to(behaviors, items[k], mid[k]));
        }
        assert(reduces_to(behaviors, v, out));
    }
}

/// Why reducing `v` can fail with text `e`: some child expression's reduction
/// fails with it, or a state reachable from the children stage has a first
/// applicable operator that is to blame for it.
pub open spec fn reduce_err<E: Evaluator>(
    behaviors: Map<Seq<char>, OpBehaviorView<E>>,
    v: LitView,
    e: Seq<char>,
) -> bool
    decreases v,
    via reduce_err_decreases::<E>
{
    match v {
        LitView::Expression(items) => {
            ||| exists|k: int|
                0 <= k < items.len() && (#[trigger] items[k]) is Expression && reduce_err(
                    behaviors,
                    items[k],
                    e,
                )
            ||| exists|mid: Seq<LitView>, pre2: Seq<LitView>, n: nat, i: int|
                #![trigger scan_reach(behaviors, mid, pre2, n), first_applicable(pre2, i)]
                {
                    &&& children_reduce_to(behaviors, items, mid)
                    &&& scan_reach(behaviors, mid, pre2, n)
                    &&& first_applicable(pre2, i)
                    &&& scan_blame(behaviors, pre2, i, n, e)
                }
        },
        _ => false,
    }
}

#[via_fn]
proof fn reduce_err_decreases<E: Evaluator>(
    behaviors: Map<Seq<char>, OpBehaviorView<E>>,
    v: LitView,
    e: Seq<char>,
) {
    match v {
        LitView::Expression(items) => {
            assert forall|k: int| 0 <= k < items.len() implies decreases_to!(v => items[k]) by {
                assert(decreases_to!(v => items));
                assert(decreases_to!(items => items[k]));
            }
        },
        _ => {},
    }
}

/// Whether no operator literal occurs anywhere in `v`.
pub open spec fn operator_free(v: LitView) -> bool
    decreases v,
    via operator_free_decreases
{
    match v {
        LitView::Operator(_) => false,
        LitView::Expression(items) => forall|k: int|
            0 <= k < items.len() ==> operator_free(#[trigger] items[k]),
        _ => true,
    }
}

#[via_fn]
proof fn operator_free_decreases(v: LitView) {
    match v {
        LitView::Expression(items) => {
            assert forall|k: int| 0 <= k < items.len() implies decreases_to!(v => items[k]) by {
                assert(decreases_to!(v => items));
                assert(decreases_to!(items => items[k]));
            }
        },
        _ => {},
    }
}

/// Whether no operator literal occurs anywhere in any of the items.
pub open spec fn items_operator_free(items: Seq<LitView>) -> bool {
    forall|k: int| 0 <= k < items.len() ==> operator_free(#[trigger] items[k])
}

/// What reducing an operator-free literal yields: no rewrite ever applies, so
/// child expressions reduce recursively and a sole surviving child loses its
/// wrapper; everything else is itself.
pub open spec fn spec_reduce_pure(v: LitView) -> LitView
    decreases v,
    via spec_reduce_pure_decreases
{
    match v {
        LitView::Expression(items) => {
            let reduced = Seq::new(
                items.len(),
                |k: int|
                    if 0 <= k < items.len() {
                        spec_reduce_pure(items[k])
                    } else {
                        LitView::Expression(Seq::empty())
                    },
            );
            if reduced.len() == 1 {
                reduced[0]
            } else {
                LitView::Expression(reduced)
            }
        },
        _ => v,
    }
}

#[via_fn]
proof fn spec_reduce_pure_decreases(v: LitView) {
    match v {
        LitView::Expression(items) => {
            assert forall|k: int| 0 <= k < items.len() implies decreases_to!(v => items[k]) by {
                assert(decreases_to!(v => items));
                assert(decreases_to!(items => items[k]));
            }
        },
        _ => {},
    }
}

/// An operator-free item list admits no applicable operator.
pub proof fn lemma_operator_free_settled(items: Seq<LitView>)
    requires
        items_operator_free(items),
    ensures
        !has_applicable(items),
{
    assert forall|i: int| !applicable_at(items, i) by {
        if 0 <= i < items.len() {
            assert(operator_free(items[i]));
        }
    }
}

/// Reducing an operator-free literal yields an operator-free literal.
pub proof fn lemma_reduce_pure_operator_free(v: LitView)
    requires
        operator_free(v),
    ensures
        operator_free(spec_reduce_pure(v)),
    decreases v,
{
    match v {
        LitView::Expression(items) => {
            assert forall|k: int| 0 <= k < items.len() implies operator_free(
                #[trigger] spec_reduce_pure(items[k]),
            ) by {
                assert(operator_free(items[k]));
                assert(decreases_to!(v => items));
                assert(decreases_to!(items => items[k]));
                lemma_reduce_pure_operator_free(items[k]);
            }
            if items.len() == 1 {
                assert(spec_reduce_pure(v) == spec_reduce_pure(items[0]));
            } else {
                let reduced = spec_reduce_pure(v)->Expression_0;
                assert forall|k: int| 0 <= k < reduced.len() implies operator_free(
                    #[trigger] reduced[k],
                ) by {
                    assert(reduced[k] == spec_reduce_pure(items[k]));
                }
            }
        },
        _ => {},
    }
}

/// Reduction fixed point: once no item is an applicable operator, a further
/// scan pass finds nothing to rewrite at any index, so rescanning changes
/// nothing.
pub proof fn lemma_reduction_fixed_point(items: Seq<LitView>)
    requires
        !has_applicable(items),
    ensures
        forall|i: int| !first_applicable(items, i),
        forall|post: Seq<LitView>, i: int, v: LitView| !scan_step(items, post, i, v),
{
}

/// A settled list stays itself under any rewrite chain: once no operator is
/// applicable, every reachable state is the list unchanged.
pub proof fn lemma_scan_reach_settled<E: Evaluator>(
    behaviors: Map<Seq<char>, OpBehaviorView<E>>,
    pre: Seq<LitView>,
    post: Seq<LitView>,
    n: nat,
)
    requires
        !has_applicable(pre),
        scan_reach(behaviors, pre, post, n),
    ensures
        post == pre,
{
    if n != 0 {
        let (mid, i, v): (Seq<LitView>, int, LitView) = choose|
            mid: Seq<LitView>,
            i: int,
            v: LitView,
        |
            {
                &&& first_applicable(pre, i)
                &&& #[trigger] scan_step(pre, mid, i, v)
                &&& eval_post(behaviors, pre, i, v)
                &&& scan_reach(behaviors, mid, post, (n - 1) as nat)
            };
        assert(applicable_at(pre, i));
    }
}

/// The index of the first applicable operator, if any pass would rewrite.
#[verifier::loop_isolation(false)]
fn find_applicable(items: &Vec<Literal>) -> (r: Option<usize>)
    ensures
        match r {
            Some(i) => first_applicable(lit_views(items@), i as int),
            None => !has_applicable(lit_views(items@)),
        },
{
    let ghost models = lit_views(items@);
    let len = items.len();
    let mut i: usize = 0;
    while i < len
        invariant
            i <= len,
            forall|j: int| 0 <= j < i ==> !applicable_at(models, j),
        decreases len - i,
    {
        let applicable = match &items[i] {
            Literal::Operator(op) => match op {
                Operand::Binary(_) => 0 < i && i + 1 < len,
                Operand::DropIn(_) => len == 1,
                Operand::Function(_) => i + 1 < len && matches!(
                    &items[i + 1],
                    Literal::Expression(_),
                ),
                Operand::Assignment(_) => false,
            },
            _ => false,
        };
        if applicable {
            return Some(i);
        }
        proof {
            assert(!applicable_at(models, i as int));
        }
        i = i + 1;
    }
    None
}

/// One scan pass: apply the first applicable operator, if any. A rewrite
/// replaces the operator's window with the call's result, the call made on
/// exactly the scan's argument list; a failure, possible only when the first
/// applicable operator's name is unregistered or maps to a user evaluation
/// function, is handed through verbatim with the items untouched.
pub fn scan_pass<E: Evaluator>(ops: &OpTable<E>, items: &mut Vec<Literal>) -> (r: Result<
    bool,
    String,
>)
    ensures
        match r {
            Ok(false) => final(items)@ == old(items)@ && !has_applicable(lit_views(old(items)@)),
            Ok(true) => exists|i: int, v: LitView|
                {
                    &&& first_applicable(lit_views(old(items)@), i)
                    &&& #[trigger] scan_step(lit_views(old(items)@), lit_views(final(items)@), i, v)
                    &&& eval_post(ops.behaviors(), lit_views(old(items)@), i, v)
                },
            Err(e) => final(items)@ == old(items)@ && exists|i: int|
                {
                    &&& #[trigger] first_applicable(lit_views(old(items)@), i)
                    &&& {
                        let pre = lit_views(old(items)@);
                        let name = pre[i]->Operator_0.name();
                        ||| !ops@.contains_key(name)
                        ||| (ops.behaviors()[name] matches OpBehaviorView::Func(ev) && ev.post(
                            scan_args(pre, i),
                            Err(e@),
                        ))
                    }
                },
        },
{
    let ghost pre = lit_views(items@);
    let len = items.len();
    let found = find_applicable(items);
    match found {
        None => {
            proof {
                assert(!has_applicable(pre));
                assert(final(items)@ == old(items)@);
            }
            Ok(false)
        },
        Some(i) => {
            let op = match &items[i] {
                Literal::Operator(op) => op.clone(),
                _ => {
                    proof {
                        assert(false);
                    }
                    return Err(String::new());
                },
            };
            proof {
                assert(pre[i as int] == LitView::Operator(op@));
                assert(applicable_at(pre, i as int));
                assert(pre.len() == len);
            }
            match &op {
                Operand::Binary(_) => {
                    proof {
                        assert(0 < i < pre.len() - 1);
                    }
                    let mut args: Vec<Literal> = Vec::new();
                    args.push(items[i - 1].clone());
                    args.push(items[i + 1].clone());
                    proof {
                        assert(lit_views(args@) =~= scan_args(pre, i as int));
                    }
                    let v = match ops.call_by_operand(&op, &args) {
                        Ok(v) => v,
                        Err(e) => {
                            proof {
                                assert(first_applicable(pre, i as int));
                            }
                            return Err(e);
                        },
                    };
                    let ghost vm = v@;
                    let _ = items.remove(i + 1);
                    let _ = items.remove(i);
                    items[i - 1] = v;
                    proof {
                        assert(lit_views(items@) =~= pre.subrange(0, i - 1) + seq![vm]
                            + pre.subrange(i + 2, pre.len() as int));
                        assert(scan_step(pre, lit_views(items@), i as int, vm));
                        assert(eval_post(ops.behaviors(), pre, i as int, vm));
                    }
                    Ok(true)
                },
                Operand::DropIn(_) => {
                    let args: Vec<Literal> = Vec::new();
                    proof {
                        assert(lit_views(args@) =~= scan_args(pre, i as int));
                    }
                    let v = match ops.call_by_operand(&op, &args) {
                        Ok(v) => v,
                        Err(e) => {
                            proof {
                                assert(first_applicable(pre, i as int));
                            }
                            return Err(e);
                        },
                    };
                    let ghost vm = v@;
                    items[i] = v;
                    proof {
                        assert(lit_views(items@) =~= seq![vm]);
                        assert(scan_step(pre, lit_views(items@), i as int, vm));
                        assert(eval_post(ops.behaviors(), pre, i as int, vm));
                    }
                    Ok(true)
                },
                Operand::Function(_) => {
                    proof {
                        assert(i + 1 < pre.len() && pre[i + 1] is Expression);
                    }
                    let mut args: Vec<Literal> = Vec::new();
                    match &items[i + 1] {
                        Literal::Expression(es) => {
                            let mut k: usize = 0;
                            while k < es.len()
                                invariant
                                    k <= es@.len(),
                                    args@.len() == k,
                                    forall|m: int| 0 <= m < k ==> args@[m]@ == es@[m]@,
                                decreases es@.len() - k,
                            {
                                args.push(es[k].clone());
                                k = k + 1;
                            }
                            proof {
                                assert(pre[i + 1] == lit_view(items@[i + 1]));
                                assert(lit_views(args@) =~= pre[i + 1]->Expression_0);
                            }
                        },
                        _ => {
                            proof {
                                assert(false);
                            }
                        },
                    }
                    proof {
                        assert(lit_views(args@) =~= scan_args(pre, i as int));
                    }
                    let v = match ops.call_by_operand(&op, &args) {
                        Ok(v) => v,
                        Err(e) => {
                            proof {
                                assert(first_applicable(pre, i as int));
                            }
                            return Err(e);
                        },
                    };
                    let ghost vm = v@;
                    let _ = items.remove(i + 1);
                    items[i] = v;
                    proof {
                        assert(lit_views(items@) =~= pre.subrange(0, i as int) + seq![vm]
                            + pre.subrange(i + 2, pre.len() as int));
                        assert(scan_step(pre, lit_views(items@), i as int, vm));
                        assert(eval_post(ops.behaviors(), pre, i as int, vm));
                    }
                    Ok(true)
                },
                Operand::Assignment(_) => {
                    proof {
                        assert(false);
                    }
                    Err(String::new())
                },
            }
        },
    }
}

/// Run scan passes until one applies no rewrite. On success the item list
/// admits no applicable operator and is reachable from the starting list by
/// the chain of rewrites performed; a failure carries the blame of a first
/// applicable operator in a reachable state. Every rewrite but a drop-in's
/// strictly shrinks the item list; a chain of drop-in substitutions draws on
/// a budget so large it cannot run out in practice, and a chain that exhausts
/// it, which only a cycle of drop-ins replacing each other can, is reported
/// as a failure.
fn scan_to_fixpoint<E: Evaluator>(ops: &OpTable<E>, items: &mut Vec<Literal>) -> (r: Result<
    (),
    String,
>)
    ensures
        r is Ok ==> !has_applicable(lit_views(final(items)@)),
        r is Ok ==> exists|n: nat|
            #[trigger] scan_reach(
                ops.behaviors(),
                lit_views(old(items)@),
                lit_views(final(items)@),
                n,
            ),
        !has_applicable(lit_views(old(items)@)) ==> r is Ok && final(items)@ == old(items)@,
        r matches Err(e) ==> exists|pre2: Seq<LitView>, n: nat, i: int|
            #![trigger scan_reach(ops.behaviors(), lit_views(old(items)@), pre2, n), first_applicable(pre2, i)]
            {
                &&& scan_reach(ops.behaviors(), lit_views(old(items)@), pre2, n)
                &&& first_applicable(pre2, i)
                &&& scan_blame(ops.behaviors(), pre2, i, n, e@)
            },
{
    let mut budget: usize = usize::MAX;
    let ghost mut steps: nat = 0;
    proof {
        assert(scan_reach(ops.behaviors(), lit_views(old(items)@), lit_views(items@), 0));
    }
    loop
        invariant
            !has_applicable(lit_views(old(items)@)) ==> items@ == old(items)@,
            scan_reach(ops.behaviors(), lit_views(old(items)@), lit_views(items@), steps),
            steps >= usize::MAX - budget,
        decreases items@.len(), budget,
    {
        let ghost pre = lit_views(items@);
        let ghost pre_steps = steps;
        let was = items.len();
        match scan_pass(ops, items) {
            Ok(true) => {
                proof {
                    let (i, v): (int, LitView) = choose|i: int, v: LitView|
                        first_applicable(pre, i) && #[trigger] scan_step(
                            pre,
                            lit_views(items@),
                            i,
                            v,
                        ) && eval_post(ops.behaviors(), pre, i, v);
                    assert(lit_views(items@).len() <= pre.len());
                    assert(items@.len() == lit_views(items@).len());
                    lemma_scan_reach_snoc(
                        ops.behaviors(),
                        lit_views(old(items)@),
                        pre,
                        lit_views(items@),
                        steps,
                        i,
                        v,
                    );
                    steps = steps + 1;
                }
                if items.len() >= was {
                    if budget == 0 {
                        let mut msg = String::new();
                        msg.append("drop-in substitution chain did not settle");
                        proof {
                            let (i, v): (int, LitView) = choose|i: int, v: LitView|
                                first_applicable(pre, i) && #[trigger] scan_step(
                                    pre,
                                    lit_views(items@),
                                    i,
                                    v,
                                ) && eval_post(ops.behaviors(), pre, i, v);
                            assert(pre_steps >= usize::MAX);
                            assert(msg@ == "drop-in substitution chain did not settle"@);
                            assert(scan_blame(ops.behaviors(), pre, i, pre_steps, msg@));
                            assert(scan_reach(
                                ops.behaviors(),
                                lit_views(old(items)@),
                                pre,
                                pre_steps,
                            ));
                        }
                        return Err(msg);
                    }
                    budget = budget - 1;
                }
            },
            Ok(false) => {
                return Ok(());
            },
            Err(e) => {
                proof {
                    let i = choose|i: int|
                        {
                            &&& #[trigger] first_applicable(pre, i)
                            &&& {
                                let name = pre[i]->Operator_0.name();
                                ||| !ops@.contains_key(name)
                                ||| (ops.behaviors()[name] matches OpBehaviorView::Func(ev)
                                    && ev.post(scan_args(pre, i), Err(e@)))
                            }
                        };
                    assert(scan_blame(ops.behaviors(), pre, i, steps, e@)) by {
                        let name = pre[i]->Operator_0.name();
                        if ops@.contains_key(name) {
                            assert(ops.behaviors().contains_key(name));
                        }
                    }
                }
                return Err(e);
            },
        }
    }
}

/// Reduce a literal: child expressions reduce first, then the child list is
/// rewritten until no operator applies, and a sole surviving literal loses
/// its wrapper. Anything but an expression is handed back unchanged; a stuck
/// expression is a result, not an error; an operator-free literal always
/// succeeds and its result is fixed outright. Fails only where a registered
/// evaluation function fails, the failure handed through verbatim, where an
/// applicable operator literal's name was never registered, or where a cycle
/// of drop-ins replacing each other never settles.
#[verifier::loop_isolation(false)]
pub fn reduce<E: Evaluator>(ops: &OpTable<E>, lit: &Literal) -> (r: Result<Literal, String>)
    ensures
        match r {
            Ok(l) => reduces_to(ops.behaviors(), lit@, l@),
            Err(e) => lit@ is Expression && reduce_err(ops.behaviors(), lit@, e@),
        },
        operator_free(lit@) ==> (r matches Ok(l) && l@ == spec_reduce_pure(lit@)),
        (match lit@ {
            LitView::Expression(items) => !has_applicable(items) && (forall|k: int|
                0 <= k < items.len() ==> !(#[trigger] items[k] is Expression)),
            _ => true,
        }) ==> (r matches Ok(l) && unwrap_of_lit(lit@, l@)),
    decreases *lit,
{
    match lit {
        Literal::Expression(es) => {
            let ghost items = lit@->Expression_0;
            let ghost behaviors = ops.behaviors();
            let mut children: Vec<Literal> = Vec::new();
            let mut i: usize = 0;
            while i < es.len()
                invariant
                    i <= es@.len(),
                    children@.len() == i,
                    forall|j: int|
                        0 <= j < i ==> #[trigger] child_reduces_to(
                            behaviors,
                            items[j],
                            children@[j]@,
                        ),
                    operator_free(lit@) ==> forall|j: int|
                        0 <= j < i ==> children@[j]@ == #[trigger] spec_reduce_pure(items[j]),
                decreases es@.len() - i,
            {
                proof {
                    assert(decreases_to!(*lit => *es));
                    assert(decreases_to!(*es => es@));
                    assert(decreases_to!(es@ => es@[i as int]));
                    assert(items.len() == es@.len());
                    assert(items[i as int] == lit_view(es@[i as int]));
                    if operator_free(lit@) {
                        assert(operator_free(items[i as int]));
                    }
                }
                let child = match &es[i] {
                    Literal::Expression(_) => {
                        proof {
                            assert(items[i as int] is Expression);
                        }
                        match reduce(ops, &es[i]) {
                            Ok(c) => c,
                            Err(e) => {
                                proof {
                                    assert(reduce_err(behaviors, items[i as int], e@));
                                    assert(reduce_err(behaviors, lit@, e@));
                                }
                                return Err(e);
                            },
                        }
                    },
                    other => other.clone(),
                };
                proof {
                    assert(child_reduces_to(behaviors, items[i as int], child@));
                    if operator_free(lit@) {
                        assert(child@ == spec_reduce_pure(items[i as int]));
                    }
                }
                children.push(child);
                i = i + 1;
            }
            let ghost mid = lit_views(children@);
            proof {
                assert(mid.len() == items.len());
                assert forall|k: int| 0 <= k < items.len() implies #[trigger] child_reduces_to(
                    behaviors,
                    items[k],
                    mid[k],
                ) by {
                    assert(mid[k] == children@[k]@);
                    assert(child_reduces_to(behaviors, items[k], children@[k]@));
                }
                assert(children_reduce_to(behaviors, items, mid));
                if !has_applicable(items) && (forall|k: int|
                    0 <= k < items.len() ==> !(#[trigger] items[k] is Expression)) {
                    assert forall|k: int| 0 <= k < items.len() implies mid[k] == items[k] by {
                        assert(child_reduces_to(behaviors, items[k], mid[k]));
                        assert(!(items[k] is Expression));
                    }
                    assert(mid =~= items);
                }
                if operator_free(lit@) {
                    assert forall|k: int| 0 <= k < mid.len() implies operator_free(
                        #[trigger] mid[k],
                    ) by {
                        assert(mid[k] == children@[k]@);
                        assert(children@[k]@ == spec_reduce_pure(items[k]));
                        assert(operator_free(items[k]));
                        lemma_reduce_pure_operator_free(items[k]);
                    }
                    assert(items_operator_free(mid));
                    lemma_operator_free_settled(mid);
                    assert forall|k: int| 0 <= k < mid.len() implies mid[k]
                        == #[trigger] spec_reduce_pure(items[k]) by {
                        assert(mid[k] == children@[k]@);
                    }
                }
            }
            match scan_to_fixpoint(ops, &mut children) {
                Ok(()) => {
                    let ghost settled = lit_views(children@);
                    let ghost n0 = choose|n: nat| #[trigger] scan_reach(behaviors, mid, settled, n);
                    proof {
                        if operator_free(lit@) {
                            assert(settled == mid);
                        }
                    }
                    if children.len() == 1 {
                        let only = match children.pop() {
                            Some(only) => only,
                            None => {
                                proof {
                                    assert(false);
                                }
                                return Err(String::new());
                            },
                        };
                        proof {
                            assert(settled =~= lit_views(children@.push(only)));
                            assert(settled.len() == 1);
                            assert(unwrap_of(settled, only@));
                            assert(scan_reach(behaviors, mid, settled, n0));
                            lemma_reduces_to_unfold(behaviors, items, only@);
                            assert(reduces_to(behaviors, lit@, only@));
                            if operator_free(lit@) {
                                assert(items.len() == 1);
                                assert(only@ == mid[0]);
                                assert(mid[0] == spec_reduce_pure(items[0]));
                                assert(spec_reduce_pure(lit@) == spec_reduce_pure(items[0]));
                            }
                        }
                        Ok(only)
                    } else {
                        let r = Literal::Expression(children);
                        proof {
                            assert(r@->Expression_0 =~= lit_views(r->Expression_0@));
                            assert(settled =~= r@->Expression_0);
                            assert(unwrap_of(settled, r@));
                            assert(scan_reach(behaviors, mid, settled, n0));
                            lemma_reduces_to_unfold(behaviors, items, r@);
                            assert(reduces_to(behaviors, lit@, r@));
                            if operator_free(lit@) {
                                assert(settled.len() != 1);
                                assert(items.len() != 1);
                                let reduced = spec_reduce_pure(lit@)->Expression_0;
                                assert forall|k: int| 0 <= k < items.len() implies mid[k]
                                    == #[trigger] reduced[k] by {
                                    assert(reduced[k] == spec_reduce_pure(items[k]));
                                    assert(mid[k] == spec_reduce_pure(items[k]));
                                }
                                assert(mid =~= reduced);
                                assert(spec_reduce_pure(lit@) == LitView::Expression(reduced));
                            }
                        }
                        Ok(r)
                    }
                },
                Err(e) => {
                    proof {
                        let (pre2, n, j): (Seq<LitView>, nat, int) = choose|
                            pre2: Seq<LitView>,
                            n: nat,
                            j: int,
                        |
                            #![trigger scan_reach(behaviors, mid, pre2, n), first_applicable(pre2, j)]
                            {
                                &&& scan_reach(behaviors, mid, pre2, n)
                                &&& first_applicable(pre2, j)
                                &&& scan_blame(behaviors, pre2, j, n, e@)
                            };
                        assert(reduce_err(behaviors, lit@, e@));
                    }
                    Err(e)
                },
            }
        },
        _ => Ok(lit.clone()),
    }
}

} // verus!
