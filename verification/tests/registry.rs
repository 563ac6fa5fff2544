use exprkit::{
    I32Kind, Iop, Literal, MatchRule, MatchRuleResult, MatchRuleSet, PrimitiveType, TokenPattern,
    TypeTable, TypeTableError, U32Kind, WordKindId,
};

fn registered_table() -> TypeTable {
    let mut table = TypeTable::new();
    table.register::<i32, I32Kind>();
    table.register::<u32, U32Kind>();
    table
}

#[test]
fn classification_determinism_repeated_calls_agree() {
    let table = registered_table();
    for text in ["42", "-7", "abc", ""] {
        let first = table.classify(&text.to_string()).map(|id| id.0);
        let second = table.classify(&text.to_string()).map(|id| id.0);
        assert_eq!(first.is_ok(), second.is_ok());
        if let (Ok(a), Ok(b)) = (first, second) {
            assert_eq!(a, b);
        }
    }
}

#[test]
fn classify_picks_the_highest_priority_match() {
    let table = registered_table();
    // both integer rules match plain digits; the signed rule has the higher
    // priority
    assert_eq!(table.classify(&"42".to_string()).unwrap().0, "i32");
    assert_eq!(table.classify(&"-7".to_string()).unwrap().0, "i32");
}

#[test]
fn classify_ties_break_by_registration_order() {
    let mut table = TypeTable::new();
    table.register::<u32, U32Kind>();
    table.register::<i32, I32Kind>();
    let mut rules = MatchRuleSet::new();
    rules.insert(MatchRule::new(
        TokenPattern::Unsigned,
        WordKindId("first".to_string()),
        3,
    ));
    rules.insert(MatchRule::new(
        TokenPattern::Unsigned,
        WordKindId("second".to_string()),
        3,
    ));
    match rules.first_match(&"99".chars().collect()) {
        MatchRuleResult::Match(id) => assert_eq!(id.0, "first"),
        MatchRuleResult::NoMatch => panic!("digits match both rules"),
    }
    // and the unsigned rule still loses to the higher-priority signed rule
    assert_eq!(table.classify(&"8".to_string()).unwrap().0, "i32");
}

#[test]
fn classify_rejects_unrecognized_text() {
    let table = registered_table();
    let err = table.classify(&"hello".to_string()).unwrap_err();
    assert!(matches!(err, TypeTableError::CannotMatchType(_)));
    let err = table.classify(&"".to_string()).unwrap_err();
    assert!(matches!(err, TypeTableError::CannotMatchType(_)));
}

#[test]
fn match_first_type_hands_back_a_typed_word() {
    let table = registered_table();
    let lit = Literal::Word("-31".to_string());
    let typed = table.match_first_type(&lit).unwrap();
    assert!(matches!(&typed, Literal::TypedWord(t, id) if t == "-31" && id.0 == "i32"));
}

#[test]
fn parse_into_typed_round_trips_values() {
    let table = registered_table();
    let lit = Literal::Word("-123".to_string());
    let v: I32Kind = table.parse_into_typed(&lit).unwrap();
    assert_eq!(v, I32Kind(-123));
    let back = table.serialize_into_literal(&v).unwrap();
    assert!(matches!(&back, Literal::Word(w) if w == "-123"));

    let lit = Literal::Word("123".to_string());
    let v: U32Kind = table.parse_into_typed(&lit).unwrap();
    assert_eq!(v, U32Kind(123));
    let back = table.serialize_into_literal(&v).unwrap();
    assert!(matches!(&back, Literal::Word(w) if w == "123"));
}

#[test]
fn parse_into_typed_rejects_bad_text() {
    let table = registered_table();
    let lit = Literal::Word("abc".to_string());
    let err: Result<I32Kind, _> = table.parse_into_typed(&lit);
    assert!(matches!(err, Err(TypeTableError::CannotParseInto(_, id)) if id.0 == "i32"));
    // out of range for the requested type
    let lit = Literal::Word("999999999999".to_string());
    let err: Result<I32Kind, _> = table.parse_into_typed(&lit);
    assert!(matches!(err, Err(TypeTableError::CannotParseInto(_, _))));
    // expressions carry no text to parse
    let lit = Literal::Expression(vec![]);
    let err: Result<U32Kind, _> = table.parse_into_typed(&lit);
    assert!(matches!(err, Err(TypeTableError::CannotParseInto(_, _))));
}

#[test]
fn auto_parse_produces_arena_ready_bytes() {
    let table = registered_table();
    let bytes = table.auto_parse(&Literal::Word("-2".to_string())).unwrap();
    assert_eq!(bytes, vec![0xFE, 0xFF, 0xFF, 0xFF]);
    let bytes = table.auto_parse(&Literal::Word("1".to_string())).unwrap();
    assert_eq!(bytes, vec![1, 0, 0, 0]);
}

#[test]
fn auto_parse_rejects_unclassifiable_and_unconvertible_text() {
    let table = registered_table();
    let err = table.auto_parse(&Literal::Word("hello".to_string())).unwrap_err();
    assert!(matches!(err, TypeTableError::CannotMatchType(_)));
    // classified as signed integer by pattern, but out of range to convert
    let err = table.auto_parse(&Literal::Word("99999999999".to_string())).unwrap_err();
    assert!(matches!(err, TypeTableError::CannotParseInto(_, id) if id.0 == "i32"));
}

#[test]
fn extreme_values_round_trip_through_text() {
    let table = registered_table();
    for text in ["-2147483648", "2147483647", "0"] {
        let v: I32Kind = table
            .parse_into_typed(&Literal::Word(text.to_string()))
            .unwrap();
        let back = table.serialize_into_literal(&v).unwrap();
        assert!(matches!(&back, Literal::Word(w) if w == text));
    }
    let v: U32Kind = table
        .parse_into_typed(&Literal::Word("4294967295".to_string()))
        .unwrap();
    assert_eq!(v, U32Kind(u32::MAX));
}

#[test]
fn match_rule_results_expose_their_match() {
    let r: MatchRuleResult<u32> = MatchRuleResult::Match(5);
    assert!(r.is_match());
    assert_eq!(r.as_ref(), Some(&5));
    assert_eq!(r.into_inner(), Some(5));
    let n: MatchRuleResult<u32> = MatchRuleResult::NoMatch;
    assert!(!n.is_match());
    assert_eq!(n.as_ref(), None);
    assert_eq!(n.into_inner(), None);
}

#[test]
fn exact_and_nonempty_patterns() {
    let mut rules = MatchRuleSet::new();
    rules.insert(MatchRule::new(
        TokenPattern::Exact("true".to_string()),
        WordKindId("bool".to_string()),
        9,
    ));
    rules.insert(MatchRule::new(
        TokenPattern::NonEmpty,
        WordKindId("text".to_string()),
        1,
    ));
    match rules.first_match(&"true".chars().collect()) {
        MatchRuleResult::Match(id) => assert_eq!(id.0, "bool"),
        MatchRuleResult::NoMatch => panic!("exact pattern matches"),
    }
    match rules.first_match(&"anything".chars().collect()) {
        MatchRuleResult::Match(id) => assert_eq!(id.0, "text"),
        MatchRuleResult::NoMatch => panic!("catch-all matches"),
    }
    assert!(matches!(
        rules.first_match(&Vec::new()),
        MatchRuleResult::NoMatch
    ));
}

#[test]
fn match_rule_test_hands_out_its_identifier() {
    let rule = MatchRule::new(
        TokenPattern::SignedInteger,
        WordKindId("i32".to_string()),
        10,
    );
    match rule.test(&"-5".chars().collect()) {
        MatchRuleResult::Match(id) => assert_eq!(id.0, "i32"),
        MatchRuleResult::NoMatch => panic!("signed integer text matches"),
    }
    assert!(matches!(
        rule.test(&"5x".chars().collect()),
        MatchRuleResult::NoMatch
    ));
    let mapped = rule.test(&"-5".chars().collect()).map(|id| id.0.len());
    assert!(matches!(mapped, MatchRuleResult::Match(3)));
}

#[test]
fn primitive_byte_lengths() {
    assert_eq!(PrimitiveType::Int32.byte_length(), 4);
    assert_eq!(PrimitiveType::UInt32.byte_length(), 4);
    assert_eq!(PrimitiveType::Float32.byte_length(), 4);
}

#[test]
fn iop_statics_describe_the_kinds() {
    assert_eq!(I32Kind::id().0, "i32");
    assert_eq!(U32Kind::id().0, "u32");
    assert_eq!(I32Kind::prim(), PrimitiveType::Int32);
    assert_eq!(U32Kind::prim(), PrimitiveType::UInt32);
}
