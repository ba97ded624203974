use lisp_parser::{parse, AstNode, Fraction, LISPParser, MonadicVerb, ParseError, Primitive};

#[test]
fn parse_is_deterministic() {
    let a = parse("+ 5 (* 2 2)");
    let b = parse("+ 5 (* 2 2)");
    assert_eq!(a, b);
    let c = parse("m := 'hello' 1.25 x");
    let d = parse("m := 'hello' 1.25 x");
    assert_eq!(c, d);
}

#[test]
fn parse_integer_literal() {
    let ast = parse("5").unwrap();
    assert_eq!(ast, vec![AstNode::Value(Primitive::Integer(5))]);
}

#[test]
fn parse_negative_integer_literal() {
    let ast = parse("_3").unwrap();
    assert_eq!(ast, vec![AstNode::Value(Primitive::Integer(-3))]);
}

#[test]
fn parse_leading_zeros() {
    let ast = parse("007").unwrap();
    assert_eq!(ast, vec![AstNode::Value(Primitive::Integer(7))]);
}

#[test]
fn parse_decimal_literal() {
    let ast = parse("1.25").unwrap();
    assert_eq!(
        ast,
        vec![AstNode::Value(Primitive::DoublePrecisionFloat(Fraction { num: 125, den: 100 }))]
    );
}

#[test]
fn parse_negative_decimal_literal() {
    let ast = parse("_1.5").unwrap();
    assert_eq!(
        ast,
        vec![AstNode::Value(Primitive::DoublePrecisionFloat(Fraction { num: -15, den: 10 }))]
    );
}

#[test]
fn negative_zero_is_suppressed() {
    // `_0.0` denotes plain zero, not a negative zero.
    let neg = parse("_0.0").unwrap();
    let pos = parse("0.0").unwrap();
    assert_eq!(neg, pos);
    assert_eq!(
        neg,
        vec![AstNode::Value(Primitive::DoublePrecisionFloat(Fraction { num: 0, den: 1 }))]
    );
}

#[test]
fn string_escape_round_trip() {
    // The inner `''` decodes to one quote: 'a''b' is the text a'b.
    let ast = parse("'a''b'").unwrap();
    assert_eq!(ast, vec![AstNode::Value(Primitive::Str(String::from("a'b")))]);
}

#[test]
fn parse_empty_string_literal() {
    let ast = parse("''").unwrap();
    assert_eq!(ast, vec![AstNode::Value(Primitive::Str(String::new()))]);
}

#[test]
fn parse_assignment() {
    let ast = parse("m := 5").unwrap();
    assert_eq!(
        ast,
        vec![AstNode::IsGlobal {
            ident: String::from("m"),
            expr: Box::new(AstNode::Value(Primitive::Integer(5))),
        }]
    );
}

#[test]
fn parse_end_to_end_shape() {
    // `+ 5 (* 2 2)` is Add applied to the terms [5, Mul of [2, 2]].
    let ast = parse("+ 5 (* 2 2)").unwrap();
    let expected = AstNode::MonadicOp {
        operator: MonadicVerb::Addition,
        expr: Box::new(AstNode::Terms(vec![
            AstNode::Value(Primitive::Integer(5)),
            AstNode::MonadicOp {
                operator: MonadicVerb::Multiplication,
                expr: Box::new(AstNode::Terms(vec![
                    AstNode::Value(Primitive::Integer(2)),
                    AstNode::Value(Primitive::Integer(2)),
                ])),
            },
        ])),
    };
    assert_eq!(ast, vec![expected]);
}

#[test]
fn single_term_collapses() {
    // A one-element term list is the term itself, not a Terms node.
    let ast = parse("x").unwrap();
    assert_eq!(ast, vec![AstNode::Ident(String::from("x"))]);
}

#[test]
fn juxtaposed_terms() {
    let ast = parse("1 2 3").unwrap();
    assert_eq!(
        ast,
        vec![AstNode::Terms(vec![
            AstNode::Value(Primitive::Integer(1)),
            AstNode::Value(Primitive::Integer(2)),
            AstNode::Value(Primitive::Integer(3)),
        ])]
    );
}

#[test]
fn operator_tokens() {
    for (src, verb) in [
        (">", MonadicVerb::GreaterThan),
        (">=", MonadicVerb::GreaterThanEqual),
        ("<", MonadicVerb::LessThan),
        ("<=", MonadicVerb::LessThanEqual),
        ("==", MonadicVerb::Equivalency),
        ("!=", MonadicVerb::NotEquivalent),
        ("^", MonadicVerb::Power),
        ("|", MonadicVerb::Or),
        ("&", MonadicVerb::And),
        ("#", MonadicVerb::Tally),
    ] {
        let line = format!("{} 1", src);
        let ast = parse(&line).unwrap();
        assert_eq!(
            ast,
            vec![AstNode::MonadicOp {
                operator: verb,
                expr: Box::new(AstNode::Value(Primitive::Integer(1))),
            }],
            "operator {}",
            src
        );
    }
}

#[test]
fn parser_front_end_matches_free_function() {
    assert_eq!(LISPParser::parse("+ 1 2"), parse("+ 1 2"));
}

#[test]
fn empty_input_parses_to_nothing() {
    assert_eq!(parse("").unwrap(), Vec::<AstNode>::new());
    assert_eq!(parse("   ").unwrap(), Vec::<AstNode>::new());
}

#[test]
fn unexpected_token_is_an_error() {
    assert_eq!(parse(")"), Err(ParseError::UnexpectedToken));
    assert_eq!(parse("= 1"), Err(ParseError::UnexpectedToken));
    assert_eq!(parse("( 1"), Err(ParseError::UnexpectedToken));
}

#[test]
fn unterminated_string_is_an_error() {
    assert_eq!(parse("'abc"), Err(ParseError::UnterminatedString));
}

#[test]
fn invalid_literal_is_an_error() {
    // Twenty digits exceed the 64-bit value range.
    assert_eq!(parse("99999999999999999999"), Err(ParseError::InvalidLiteral));
    // A decimal point must be followed by digits.
    assert_eq!(parse("5."), Err(ParseError::InvalidLiteral));
    // The sign must be followed by digits.
    assert_eq!(parse("_x"), Err(ParseError::InvalidLiteral));
}

#[test]
fn largest_integer_parses() {
    let ast = parse("9223372036854775807").unwrap();
    assert_eq!(ast, vec![AstNode::Value(Primitive::Integer(i64::MAX))]);
}

#[test]
fn integer_just_past_the_range_is_invalid() {
    assert_eq!(parse("9223372036854775808"), Err(ParseError::InvalidLiteral));
    assert_eq!(parse("_9223372036854775808"), Err(ParseError::InvalidLiteral));
}

#[test]
fn most_negative_representable_literal() {
    let ast = parse("_9223372036854775807").unwrap();
    assert_eq!(ast, vec![AstNode::Value(Primitive::Integer(-9223372036854775807))]);
}

#[test]
fn decimal_with_many_fraction_digits() {
    let ast = parse("0.125").unwrap();
    assert_eq!(
        ast,
        vec![AstNode::Value(Primitive::DoublePrecisionFloat(Fraction { num: 125, den: 1000 }))]
    );
    // More than eighteen fraction digits cannot be held exactly.
    assert_eq!(parse("0.0000000000000000001"), Err(ParseError::InvalidLiteral));
}

#[test]
fn whitespace_variants_are_skipped() {
    assert_eq!(parse("  +\t5\r\n6"), parse("+ 5 6"));
}

#[test]
fn nested_parentheses() {
    let ast = parse("((5))").unwrap();
    assert_eq!(ast, vec![AstNode::Value(Primitive::Integer(5))]);
}
