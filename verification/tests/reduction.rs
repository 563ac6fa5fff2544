use exprkit::{reduce, Evaluator, IntAddEvaluator, Literal, OpTable, Operand, ParseTreeBuilder, RefTable};

/// Evaluators the tests register: integer addition over word operands, and a
/// function counting its arguments.
enum Evals {
    Add,
    Count,
    AlwaysFails,
}

impl Evaluator for Evals {
    fn call(&self, args: &Vec<Literal>) -> Result<Literal, String> {
        match self {
            Evals::Add => {
                if args.len() != 2 {
                    return Err("add expects two arguments".to_string());
                }
                let a: i32 = args[0]
                    .as_string()
                    .parse()
                    .map_err(|_| "left operand is not an integer".to_string())?;
                let b: i32 = args[1]
                    .as_string()
                    .parse()
                    .map_err(|_| "right operand is not an integer".to_string())?;
                Ok(Literal::Word((a + b).to_string()))
            },
            Evals::Count => Ok(Literal::Word(args.len().to_string())),
            Evals::AlwaysFails => Err("this operator always fails".to_string()),
        }
    }
}

fn reduce_source(source: &str, ops: &OpTable<Evals>) -> Result<Literal, String> {
    let refs = RefTable::new();
    let builder = ParseTreeBuilder::new_from_str(source, ops, &refs);
    let tree = builder.build().expect("source parses");
    reduce(ops, &tree.expression)
}

#[test]
fn binary_reduction_three_plus_four_is_seven() {
    let mut ops: OpTable<Evals> = OpTable::new();
    ops.insert_binary_op("+", Evals::Add);
    let result = reduce_source("( 3 + 4 )", &ops).unwrap();
    assert!(matches!(&result, Literal::Word(w) if w == "7"));
}

#[test]
fn binary_reduction_folds_left_to_right() {
    let mut ops: OpTable<Evals> = OpTable::new();
    ops.insert_binary_op("+", Evals::Add);
    let result = reduce_source("( 1 + 2 + 30 )", &ops).unwrap();
    assert!(matches!(&result, Literal::Word(w) if w == "33"));
}

#[test]
fn drop_in_substitution() {
    let mut ops: OpTable<Evals> = OpTable::new();
    ops.insert_dropin_op("PI", Literal::Word("3.14".to_string()));
    let result = reduce_source("( PI )", &ops).unwrap();
    assert!(matches!(&result, Literal::Word(w) if w == "3.14"));
}

#[test]
fn function_operator_consumes_following_group() {
    let mut ops: OpTable<Evals> = OpTable::new();
    ops.insert_function_op("count", Evals::Count);
    let result = reduce_source("( count ( a b c ) )", &ops).unwrap();
    assert!(matches!(&result, Literal::Word(w) if w == "3"));
}

#[test]
fn unresolvable_function_is_returned_unreduced() {
    // A function operator at the end of the input, with no following group,
    // is handed back unreduced inside its enclosing expression, not an error.
    let mut ops: OpTable<Evals> = OpTable::new();
    ops.insert_function_op("count", Evals::Count);
    let result = reduce_source("( a count )", &ops).unwrap();
    let items = match &result {
        Literal::Expression(items) => items,
        other => panic!("expected the stuck expression back, got {:?}", other),
    };
    assert_eq!(items.len(), 2);
    assert!(matches!(&items[0], Literal::Word(w) if w == "a"));
    assert!(matches!(&items[1], Literal::Operator(Operand::Function(n)) if n == "count"));
}

#[test]
fn reduction_fixed_point_reducing_again_changes_nothing() {
    let mut ops: OpTable<Evals> = OpTable::new();
    ops.insert_binary_op("+", Evals::Add);
    ops.insert_function_op("count", Evals::Count);
    for source in ["( 3 + 4 )", "( a count )", "( x y z )", "( count ( 1 + 1 ) )"] {
        let once = reduce_source(source, &ops).unwrap();
        let twice = reduce(&ops, &once).unwrap();
        assert_eq!(once, twice, "reducing {:?} a second time changed it", source);
    }
}

#[test]
fn drop_ins_may_chain_through_further_drop_ins() {
    let mut ops: OpTable<Evals> = OpTable::new();
    ops.insert_dropin_op(
        "A",
        Literal::Operator(Operand::DropIn("B".to_string())),
    );
    ops.insert_dropin_op("B", Literal::Word("done".to_string()));
    let result = reduce_source("( A )", &ops).unwrap();
    assert!(matches!(&result, Literal::Word(w) if w == "done"));
}

#[test]
fn shipped_integer_addition_evaluator() {
    let mut ops: OpTable<IntAddEvaluator> = OpTable::new();
    ops.insert_binary_op("+", IntAddEvaluator);
    let refs = RefTable::new();
    let builder = ParseTreeBuilder::new_from_str("( 3 + 4 )", &ops, &refs);
    let tree = builder.build().unwrap();
    let result = reduce(&ops, &tree.expression).unwrap();
    assert!(matches!(&result, Literal::Word(w) if w == "7"));

    // its failures carry their reasons
    let err = IntAddEvaluator
        .call(&vec![
            Literal::Word("x".to_string()),
            Literal::Word("1".to_string()),
        ])
        .unwrap_err();
    assert!(err.contains("not an integer"));
    let err = IntAddEvaluator
        .call(&vec![
            Literal::Word("2147483647".to_string()),
            Literal::Word("1".to_string()),
        ])
        .unwrap_err();
    assert!(err.contains("does not fit"));
}

#[test]
fn nested_groups_reduce_before_their_parent() {
    let mut ops: OpTable<Evals> = OpTable::new();
    ops.insert_binary_op("+", Evals::Add);
    let result = reduce_source("( ( 1 + 2 ) + ( 3 + 4 ) )", &ops).unwrap();
    assert!(matches!(&result, Literal::Word(w) if w == "10"));
}

#[test]
fn evaluator_failure_surfaces_verbatim() {
    let mut ops: OpTable<Evals> = OpTable::new();
    ops.insert_binary_op("+", Evals::AlwaysFails);
    let err = reduce_source("( 1 + 2 )", &ops).unwrap_err();
    assert_eq!(err, "this operator always fails");
}

#[test]
fn unregistered_operator_literal_fails_lookup() {
    let ops: OpTable<Evals> = OpTable::new();
    let stray = Literal::Expression(vec![
        Literal::Word("1".to_string()),
        Literal::Operator(Operand::Binary("+".to_string())),
        Literal::Word("2".to_string()),
    ]);
    let err = reduce(&ops, &stray).unwrap_err();
    assert!(err.contains("not registered"));
}

#[test]
fn non_expressions_reduce_to_themselves() {
    let ops: OpTable<Evals> = OpTable::new();
    let word = Literal::Word("hello".to_string());
    let result = reduce(&ops, &word).unwrap();
    assert!(matches!(&result, Literal::Word(w) if w == "hello"));
}

#[test]
fn assignment_operators_are_inert_to_the_scan() {
    let mut ops: OpTable<Evals> = OpTable::new();
    ops.insert_assignment_op("=");
    let result = reduce_source("( x = 1 )", &ops).unwrap();
    let items = match &result {
        Literal::Expression(items) => items,
        other => panic!("expected the expression back, got {:?}", other),
    };
    assert_eq!(items.len(), 3);
    assert!(matches!(&items[1], Literal::Operator(Operand::Assignment(n)) if n == "="));
}
