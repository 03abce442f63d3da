use mistql::Error;
use mistql::Expression;
use mistql::MistQLParser;
use mistql::Node;
use mistql::Rule;
use mistql::StructureKind;
use mistql::Value;
use mistql::parse_expression;
use mistql::parse_query;
use mistql::parse_value;

fn leaf(rule: Rule, text: &str) -> Node {
    Node { rule, text: text.to_string(), children: Vec::new() }
}

fn wrap(rule: Rule, text: &str, children: Vec<Node>) -> Node {
    Node { rule, text: text.to_string(), children }
}

fn parse_literal(text: &str) -> Result<Value, Error> {
    let nodes = MistQLParser::parse(Rule::Value, text).expect("literal should match grammar");
    parse_value(&nodes[0])
}

#[test]
fn parse_at() {
    let query = "@";

    let nodes = MistQLParser::parse(Rule::At, query).unwrap();
    assert_eq!(nodes.len(), 1);
    assert_eq!(nodes[0].rule, Rule::At);
    assert_eq!(nodes[0].text, "@");
    assert!(nodes[0].children.is_empty());

    let pairs = MistQLParser::parse(Rule::Query, query).unwrap();
    let parsed = parse_expression(&pairs[0]).unwrap();
    assert_eq!(parsed, Expression::At);
}

#[test]
fn query_at_returns_context_reference() {
    assert_eq!(parse_query("@").unwrap(), Expression::At);
    assert_eq!(parse_query("  @  ").unwrap(), Expression::At);
}

#[test]
fn empty_query_is_syntax_error() {
    let err = parse_query("").unwrap_err();
    assert!(matches!(err, Error::Syntax { pos: 0, .. }));
}

#[test]
fn trailing_input_is_syntax_error() {
    let err = parse_query("1 2").unwrap_err();
    assert!(matches!(err, Error::Syntax { pos: 2, .. }));
}

#[test]
fn integer_literals() {
    assert_eq!(parse_literal("42").unwrap(), Value::Int(42));
    assert_eq!(parse_literal("-17").unwrap(), Value::Int(-17));
    assert_eq!(parse_literal("0").unwrap(), Value::Int(0));
    assert_eq!(parse_literal("007").unwrap(), Value::Int(7));
    assert_eq!(
        parse_literal("9223372036854775807").unwrap(),
        Value::Int(i64::MAX)
    );
    assert_eq!(
        parse_literal("-9223372036854775808").unwrap(),
        Value::Int(i64::MIN)
    );
}

#[test]
fn integer_too_large_is_reported() {
    let err = parse_literal("9223372036854775808").unwrap_err();
    assert_eq!(err, Error::Structure { kind: StructureKind::NumberTooLarge });
    let err = parse_literal("-9223372036854775809").unwrap_err();
    assert_eq!(err, Error::Structure { kind: StructureKind::NumberTooLarge });
}

#[test]
fn numeral_round_trip_is_numerically_equal() {
    // Integers re-render to the same numeric value.
    match parse_literal("007").unwrap() {
        Value::Int(i) => assert_eq!(i.to_string().parse::<i64>().unwrap(), "007".parse::<i64>().unwrap()),
        other => panic!("expected an integer, got {:?}", other),
    }
    // Floats keep the exact source text, so re-rendering is the identity.
    match parse_literal("3.5e2").unwrap() {
        Value::Float(t) => {
            assert_eq!(t, "3.5e2");
            assert_eq!(t.parse::<f64>().unwrap(), "3.5e2".parse::<f64>().unwrap());
        },
        other => panic!("expected a float, got {:?}", other),
    }
}

#[test]
fn float_literals_keep_their_text() {
    assert_eq!(parse_literal("3.5").unwrap(), Value::Float("3.5".to_string()));
    assert_eq!(parse_literal("-0.25").unwrap(), Value::Float("-0.25".to_string()));
    assert_eq!(parse_literal("1e9").unwrap(), Value::Float("1e9".to_string()));
    assert_eq!(parse_literal("2E-3").unwrap(), Value::Float("2E-3".to_string()));
}

#[test]
fn keyword_literals() {
    assert_eq!(parse_literal("null").unwrap(), Value::Null);
    assert_eq!(parse_literal("true").unwrap(), Value::Boolean(true));
    assert_eq!(parse_literal("false").unwrap(), Value::Boolean(false));
}

#[test]
fn plain_string_keeps_inner_text() {
    assert_eq!(parse_literal("\"abc\"").unwrap(), Value::Str("abc".to_string()));
    assert_eq!(parse_literal("\"\"").unwrap(), Value::Str(String::new()));
    assert_eq!(parse_literal("\"h\u{e9}llo\"").unwrap(), Value::Str("h\u{e9}llo".to_string()));
}

#[test]
fn escape_sequences_are_decoded() {
    assert_eq!(
        parse_literal("\"a\\nb\\t\\\\\\\"\\/\"").unwrap(),
        Value::Str("a\nb\t\\\"/".to_string())
    );
    assert_eq!(
        parse_literal("\"\\b\\f\\r\"").unwrap(),
        Value::Str("\u{0008}\u{000C}\r".to_string())
    );
}

#[test]
fn unknown_escape_is_encoding_error() {
    let err = parse_literal("\"a\\qb\"").unwrap_err();
    assert_eq!(err, Error::Encoding { escape: 'q' });
}

#[test]
fn lone_backslash_is_encoding_error() {
    // Such a node cannot come out of the grammar; built by hand it is
    // still reported, never defaulted.
    let node = wrap(Rule::Value, "\"\\\"", vec![leaf(Rule::Str, "\"\\\"")]);
    let err = parse_value(&node).unwrap_err();
    assert_eq!(err, Error::Encoding { escape: '\\' });
}

#[test]
fn sequence_literal_in_source_order() {
    let parsed = parse_query("[1, 2, 3]").unwrap();
    assert_eq!(
        parsed,
        Expression::Value(Value::Array(vec![Value::Int(1), Value::Int(2), Value::Int(3)]))
    );
}

#[test]
fn empty_and_nested_containers() {
    assert_eq!(parse_literal("[]").unwrap(), Value::Array(vec![]));
    assert_eq!(parse_literal("[ ]").unwrap(), Value::Array(vec![]));
    assert_eq!(parse_literal("{}").unwrap(), Value::Object(vec![]));
    assert_eq!(
        parse_literal("[[1], {\"k\": [true, null]}]").unwrap(),
        Value::Array(vec![
            Value::Array(vec![Value::Int(1)]),
            Value::Object(vec![(
                "k".to_string(),
                Value::Array(vec![Value::Boolean(true), Value::Null])
            )]),
        ])
    );
}

#[test]
fn mapping_keeps_source_order() {
    assert_eq!(
        parse_literal("{\"b\": 1, \"a\": 2}").unwrap(),
        Value::Object(vec![
            ("b".to_string(), Value::Int(1)),
            ("a".to_string(), Value::Int(2)),
        ])
    );
}

#[test]
fn duplicate_key_last_write_wins() {
    // The documented policy: the last value wins, and the entry keeps the
    // position of the key's first occurrence.
    assert_eq!(
        parse_literal("{\"a\": 1, \"a\": 2}").unwrap(),
        Value::Object(vec![("a".to_string(), Value::Int(2))])
    );
    assert_eq!(
        parse_literal("{\"a\": 1, \"b\": 2, \"a\": 3}").unwrap(),
        Value::Object(vec![
            ("a".to_string(), Value::Int(3)),
            ("b".to_string(), Value::Int(2)),
        ])
    );
}

#[test]
fn parsing_twice_is_deterministic() {
    let text = "{\"a\": [1, 2.5, \"x\\n\"], \"b\": null}";
    let first = parse_query(text).unwrap();
    let second = parse_query(text).unwrap();
    assert_eq!(first, second);
}

#[test]
fn unknown_expression_rule_is_reported() {
    let node = wrap(Rule::Expr, "", vec![leaf(Rule::Pair, "")]);
    let err = parse_expression(&node).unwrap_err();
    assert_eq!(
        err,
        Error::Structure { kind: StructureKind::UnknownExpressionRule { rule: Rule::Pair } }
    );
}

#[test]
fn unknown_value_rule_is_reported() {
    let node = wrap(Rule::Value, "", vec![leaf(Rule::Query, "")]);
    let err = parse_value(&node).unwrap_err();
    assert_eq!(
        err,
        Error::Structure { kind: StructureKind::UnknownValueRule { rule: Rule::Query } }
    );
}

#[test]
fn empty_expression_node_is_reported() {
    let err = parse_expression(&leaf(Rule::Expr, "")).unwrap_err();
    assert_eq!(err, Error::Structure { kind: StructureKind::EmptyExpression });
}

#[test]
fn empty_value_node_is_reported() {
    let err = parse_value(&leaf(Rule::Value, "")).unwrap_err();
    assert_eq!(err, Error::Structure { kind: StructureKind::EmptyValue });
}

#[test]
fn eoi_node_becomes_eoi_expression() {
    let node = wrap(Rule::Expr, "", vec![leaf(Rule::Eoi, "")]);
    assert_eq!(parse_expression(&node).unwrap(), Expression::EOI);
}

#[test]
fn bad_numeral_node_is_reported() {
    let node = wrap(Rule::Value, "abc", vec![leaf(Rule::Number, "abc")]);
    let err = parse_value(&node).unwrap_err();
    assert_eq!(err, Error::Structure { kind: StructureKind::BadNumeral });
}

#[test]
fn bad_string_node_is_reported() {
    let node = wrap(Rule::Value, "abc", vec![leaf(Rule::Str, "abc")]);
    let err = parse_value(&node).unwrap_err();
    assert_eq!(err, Error::Structure { kind: StructureKind::BadStringNode });
}

#[test]
fn malformed_pair_nodes_are_reported() {
    let not_a_pair = wrap(Rule::Value, "", vec![wrap(Rule::Object, "", vec![leaf(Rule::Number, "1")])]);
    assert_eq!(
        parse_value(&not_a_pair).unwrap_err(),
        Error::Structure { kind: StructureKind::ExpectedPair { rule: Rule::Number } }
    );

    let short_pair = wrap(
        Rule::Value,
        "",
        vec![wrap(Rule::Object, "", vec![wrap(Rule::Pair, "", vec![leaf(Rule::Str, "\"a\"")])])],
    );
    assert_eq!(
        parse_value(&short_pair).unwrap_err(),
        Error::Structure { kind: StructureKind::MalformedPair }
    );

    let bad_key = wrap(
        Rule::Value,
        "",
        vec![wrap(
            Rule::Object,
            "",
            vec![wrap(Rule::Pair, "", vec![leaf(Rule::Number, "1"), leaf(Rule::Value, "2")])],
        )],
    );
    assert_eq!(
        parse_value(&bad_key).unwrap_err(),
        Error::Structure { kind: StructureKind::KeyNotString { rule: Rule::Number } }
    );
}

#[test]
fn unsupported_start_rule_is_reported() {
    let err = MistQLParser::parse(Rule::Number, "5").unwrap_err();
    assert_eq!(
        err,
        Error::Structure { kind: StructureKind::UnsupportedStartRule { rule: Rule::Number } }
    );
}

#[test]
fn syntax_errors_carry_positions() {
    let err = parse_query("[1,]").unwrap_err();
    assert!(matches!(err, Error::Syntax { pos: 3, .. }));
    assert!(err.is_syntax());

    let err = parse_query("\"open").unwrap_err();
    assert!(err.is_syntax());

    let err = parse_query("nul").unwrap_err();
    assert!(err.is_syntax());
}

#[test]
fn value_start_rule_ignores_trailing_input() {
    let nodes = MistQLParser::parse(Rule::Value, "7 leftovers").unwrap();
    assert_eq!(parse_value(&nodes[0]).unwrap(), Value::Int(7));
}

#[test]
fn whitespace_is_accepted_between_tokens() {
    assert_eq!(
        parse_literal("{ \"a\" :\t[ 1 ,\n2 ] }").unwrap(),
        Value::Object(vec![(
            "a".to_string(),
            Value::Array(vec![Value::Int(1), Value::Int(2)])
        )])
    );
}
