use exprkit::{
    Evaluator, Literal, OpTable, Operand, ParseError, ParseTreeBuilder, RefTable, StringBuffer,
    StringExt,
};

/// Evaluators for operator registrations; parsing itself never calls them.
enum NoEvals {}

impl Evaluator for NoEvals {
    fn call(&self, _args: &Vec<Literal>) -> Result<Literal, String> {
        match *self {}
    }
}

fn parse(source: &str) -> Result<Literal, ParseError> {
    let ops: OpTable<NoEvals> = OpTable::new();
    let refs = RefTable::new();
    let builder = ParseTreeBuilder::new_from_str(source, &ops, &refs);
    builder.build().map(|tree| tree.expression)
}

#[test]
fn balanced_nesting_two_level_tree() {
    // "( a ( b c ) d )" nests into a 2-level tree whose root group has three
    // children: a word, a sub-expression of two words, and a word.
    let root = parse("( a ( b c ) d )").unwrap();
    let top = match root {
        Literal::Expression(items) => items,
        _ => panic!("top level is an expression"),
    };
    assert_eq!(top.len(), 1);
    let group = match &top[0] {
        Literal::Expression(items) => items,
        other => panic!("expected a group, got {:?}", other),
    };
    assert_eq!(group.len(), 3);
    assert!(matches!(&group[0], Literal::Word(w) if w == "a"));
    assert!(matches!(&group[2], Literal::Word(w) if w == "d"));
    let inner = match &group[1] {
        Literal::Expression(items) => items,
        other => panic!("expected a nested group, got {:?}", other),
    };
    assert_eq!(inner.len(), 2);
    assert!(matches!(&inner[0], Literal::Word(w) if w == "b"));
    assert!(matches!(&inner[1], Literal::Word(w) if w == "c"));
}

#[test]
fn unbalanced_open_is_a_hard_parse_error() {
    assert!(matches!(parse("( a ( b"), Err(ParseError::UnbalancedDelimiters)));
}

#[test]
fn unbalanced_close_is_a_hard_parse_error() {
    assert!(matches!(parse("a ) b"), Err(ParseError::UnbalancedDelimiters)));
}

#[test]
fn newlines_are_normalized_to_spaces() {
    let root = parse("a\nb").unwrap();
    let top = match root {
        Literal::Expression(items) => items,
        _ => panic!("top level is an expression"),
    };
    assert_eq!(top.len(), 2);
    assert!(matches!(&top[0], Literal::Word(w) if w == "a"));
    assert!(matches!(&top[1], Literal::Word(w) if w == "b"));
}

#[test]
fn operator_words_resolve_to_operators() {
    let mut ops: OpTable<NoEvals> = OpTable::new();
    ops.insert_dropin_op("PI", Literal::Word("3.14".to_string()));
    let refs = RefTable::new();
    let builder = ParseTreeBuilder::new_from_str("PI x", &ops, &refs);
    let root = builder.build().unwrap().expression;
    let top = match root {
        Literal::Expression(items) => items,
        _ => panic!("top level is an expression"),
    };
    assert_eq!(top.len(), 2);
    assert!(matches!(&top[0], Literal::Operator(Operand::DropIn(n)) if n == "PI"));
    assert!(matches!(&top[1], Literal::Word(w) if w == "x"));
}

#[test]
fn bound_symbols_resolve_wrapped_in_a_group() {
    let ops: OpTable<NoEvals> = OpTable::new();
    let mut refs = RefTable::new();
    refs.insert(
        Literal::Word("x".to_string()),
        Literal::Word("7".to_string()),
    );
    let builder = ParseTreeBuilder::new_from_str("x", &ops, &refs);
    let root = builder.build().unwrap().expression;
    let top = match root {
        Literal::Expression(items) => items,
        _ => panic!("top level is an expression"),
    };
    assert_eq!(top.len(), 1);
    let wrapped = match &top[0] {
        Literal::Expression(items) => items,
        other => panic!("expected the binding wrapped in a group, got {:?}", other),
    };
    assert_eq!(wrapped.len(), 1);
    assert!(matches!(&wrapped[0], Literal::Word(w) if w == "7"));
}

#[test]
fn empty_input_nests_into_an_empty_expression() {
    let root = parse("").unwrap();
    assert!(matches!(&root, Literal::Expression(items) if items.is_empty()));
}

#[test]
fn empty_group_nests_into_an_empty_child() {
    let root = parse("( )").unwrap();
    let top = match root {
        Literal::Expression(items) => items,
        _ => panic!("top level is an expression"),
    };
    assert_eq!(top.len(), 1);
    assert!(matches!(&top[0], Literal::Expression(items) if items.is_empty()));
}

#[test]
fn deep_nesting_keeps_every_level() {
    let root = parse("( ( ( x ) ) )").unwrap();
    let mut current = match root {
        Literal::Expression(items) => items,
        _ => panic!("top level is an expression"),
    };
    for _level in 0..3 {
        assert_eq!(current.len(), 1);
        current = match current.into_iter().next().unwrap() {
            Literal::Expression(items) => items,
            other => panic!("expected another level, got {:?}", other),
        };
    }
    assert_eq!(current.len(), 1);
    assert!(matches!(&current[0], Literal::Word(w) if w == "x"));
}

#[test]
fn string_buffer_accumulates_and_flushes() {
    let mut buf = StringBuffer::new(None);
    assert!(buf.is_empty());
    buf.push_char('h');
    buf.push_str("ey");
    buf.push_string(" you".to_string());
    buf.push_chars(vec!['!', '!']);
    assert_eq!(buf.ref_str(), "hey you!!");
    assert_eq!(buf.ref_string(), "hey you!!");
    assert_eq!(buf.ref_chars(), "hey you!!".chars().collect::<Vec<char>>());
    let pulled = buf.pull_string();
    assert_eq!(pulled, "hey you!!");
    assert!(buf.is_empty());
    buf.push_str("abc");
    assert_eq!(buf.pull_chars(), vec!['a', 'b', 'c']);
    assert!(buf.is_empty());
    buf.push_str("xyz");
    buf.clear();
    assert!(buf.is_empty());
}

#[test]
fn pull_literal_resolution_order() {
    let mut ops: OpTable<NoEvals> = OpTable::new();
    ops.insert_assignment_op("=");
    let mut refs = RefTable::new();
    refs.insert(
        Literal::Word("x".to_string()),
        Literal::Word("1".to_string()),
    );

    let mut buf = StringBuffer::new(Some("=".to_string()));
    assert!(matches!(
        buf.pull_literal(&ops, &refs),
        Some(Literal::Operator(Operand::Assignment(n))) if n == "="
    ));

    let mut buf = StringBuffer::new(Some("x".to_string()));
    assert!(matches!(buf.pull_literal(&ops, &refs), Some(Literal::Expression(_))));

    let mut buf = StringBuffer::new(Some("y".to_string()));
    assert!(matches!(buf.pull_literal(&ops, &refs), Some(Literal::Word(w)) if w == "y"));

    let mut buf = StringBuffer::new(None);
    assert!(buf.pull_literal(&ops, &refs).is_none());
}

#[test]
fn find_next_char_index_scans_from_start() {
    let s = "abcabc".to_string();
    assert_eq!(s.find_next_char_index(0, 'b'), 1);
    assert_eq!(s.find_next_char_index(2, 'b'), 4);
    assert_eq!(s.find_next_char_index(5, 'b'), 6);
    assert_eq!(s.find_next_char_index(0, 'z'), 6);
}

#[test]
fn find_next_delimiter_index_matches_depth() {
    let s = "(a(bc)d)e".to_string();
    assert_eq!(s.find_next_delimiter_index(0, ('(', ')')), 7);
    assert_eq!(s.find_next_delimiter_index(2, ('(', ')')), 5);
    // a scan that starts on a non-delimiter character stops immediately
    assert_eq!(s.find_next_delimiter_index(1, ('(', ')')), 1);
}
