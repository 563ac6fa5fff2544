use exprkit::{Evaluator, InternalError, Literal, OpTable, Operand, RefTable, XPtr};

enum NoEvals {}

impl Evaluator for NoEvals {
    fn call(&self, _args: &Vec<Literal>) -> Result<Literal, String> {
        match *self {}
    }
}

#[test]
fn as_string_renders_each_literal_kind() {
    assert_eq!(Literal::Word("hi".to_string()).as_string(), "hi");
    let expr = Literal::Expression(vec![
        Literal::Word("a".to_string()),
        Literal::Word("b".to_string()),
    ]);
    assert_eq!(expr.as_string(), "a b ");
    assert_eq!(
        Literal::Operator(Operand::Binary("+".to_string())).as_string(),
        "+"
    );
    // a handle renders as its packed offset and length
    let ptr = Literal::Pointer(XPtr::new(1, 4));
    assert_eq!(ptr.as_string(), (1u128 * 0x1_0000_0000 + 4).to_string());
}

#[test]
fn ref_string_fails_on_expressions_and_pointers() {
    let w = Literal::Word("w".to_string());
    assert_eq!(w.ref_string().unwrap(), "w");
    let e = Literal::Expression(vec![]);
    assert!(matches!(
        e.ref_string(),
        Err(InternalError::CannotReferenceExprStr)
    ));
    let p = Literal::Pointer(XPtr::new(0, 0));
    assert!(matches!(
        p.ref_string(),
        Err(InternalError::CannotReferencePtrStr)
    ));
}

#[test]
fn literals_compare_by_their_text() {
    let a = Literal::Word("a".to_string());
    let a2 = Literal::Word("a".to_string());
    let b = Literal::Word("b".to_string());
    assert_eq!(a, a2);
    assert_ne!(a, b);
    // an operator and a word with the same text compare equal, as word
    // resolution in the tokenizer treats them alike
    assert_eq!(a, Literal::Operator(Operand::Binary("a".to_string())));
}

#[test]
fn literal_clone_is_deep() {
    let expr = Literal::Expression(vec![
        Literal::Word("a".to_string()),
        Literal::Expression(vec![Literal::Pointer(XPtr::new(2, 4))]),
    ]);
    let copy = expr.clone();
    assert_eq!(expr, copy);
    assert_eq!(copy.as_string(), expr.as_string());
}

#[test]
fn operand_ref_string_names_every_kind() {
    assert_eq!(Operand::Binary("+".to_string()).ref_string(), "+");
    assert_eq!(Operand::DropIn("PI".to_string()).ref_string(), "PI");
    assert_eq!(Operand::Function("f".to_string()).ref_string(), "f");
    assert_eq!(Operand::Assignment("=".to_string()).ref_string(), "=");
}

#[test]
fn op_table_membership_and_overwrite() {
    let mut ops: OpTable<NoEvals> = OpTable::new();
    assert!(!ops.contains(&"PI".to_string()));
    ops.insert_dropin_op("PI", Literal::Word("3.14".to_string()));
    assert!(ops.contains(&"PI".to_string()));
    assert!(matches!(
        ops.get_operand(&"PI".to_string()),
        Some(Operand::DropIn(_))
    ));
    // last writer wins: re-registering a name overwrites its kind
    ops.insert_assignment_op("PI");
    assert!(matches!(
        ops.get_operand(&"PI".to_string()),
        Some(Operand::Assignment(_))
    ));
}

#[test]
fn op_table_calls_dispatch_by_name() {
    let mut ops: OpTable<NoEvals> = OpTable::new();
    ops.insert_dropin_op("PI", Literal::Word("3.14".to_string()));
    ops.insert_assignment_op("=");
    let args = Vec::new();
    let r = ops
        .call_by_operand(&Operand::DropIn("PI".to_string()), &args)
        .unwrap();
    assert!(matches!(&r, Literal::Word(w) if w == "3.14"));
    let r = ops
        .call_by_operand(&Operand::Assignment("=".to_string()), &args)
        .unwrap();
    assert!(matches!(&r, Literal::Word(w) if w.is_empty()));
    let r = ops.call_by_operand(&Operand::Binary("?".to_string()), &args);
    assert!(r.is_err());
}

#[test]
fn ref_table_binds_and_overwrites() {
    let mut refs = RefTable::new();
    let key = Literal::Word("x".to_string());
    assert!(!refs.contains(&key));
    assert!(refs.retrieve(&key).is_none());
    refs.insert(key.clone(), Literal::Word("1".to_string()));
    assert!(refs.contains(&key));
    assert!(matches!(refs.retrieve(&key), Some(Literal::Word(w)) if w == "1"));
    refs.insert(key.clone(), Literal::Word("2".to_string()));
    assert!(matches!(refs.retrieve(&key), Some(Literal::Word(w)) if w == "2"));
}
