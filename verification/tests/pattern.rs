use stix::pattern::ast::{
    Comparison, ComparisonExpression, ComparisonOperand, ComparisonOperator, Literal, LiteralOf,
    ObservationExpression, PathStep, QualifierOf,
};
use stix::pattern::error::{ParseError, Span};
use stix::pattern::lexer::{is_ident_continue, is_ident_start, tokenize, TokenKind};
use stix::pattern::parser::Parser;
use stix::parse;

fn kinds(src: &str) -> Vec<TokenKind> {
    tokenize(src).unwrap().into_iter().map(|t| t.kind).collect()
}

#[test]
fn lexes_simple_comparison() {
    let k = kinds("[ipv4-addr:value = '1.2.3.4']");
    assert_eq!(
        k,
        vec![
            TokenKind::LBracket,
            TokenKind::Identifier("ipv4-addr".to_string()),
            TokenKind::Colon,
            TokenKind::Identifier("value".to_string()),
            TokenKind::Equal,
            TokenKind::String("1.2.3.4".to_string()),
            TokenKind::RBracket,
        ]
    );
}

#[test]
fn lexes_keywords_case_insensitively() {
    assert_eq!(kinds("AND and"), vec![TokenKind::And, TokenKind::And]);
    assert_eq!(kinds("FOLLOWEDBY"), vec![TokenKind::FollowedBy]);
}

#[test]
fn lexes_operators() {
    assert_eq!(
        kinds("= != < <= > >="),
        vec![
            TokenKind::Equal,
            TokenKind::NotEqual,
            TokenKind::LessThan,
            TokenKind::LessThanOrEqual,
            TokenKind::GreaterThan,
            TokenKind::GreaterThanOrEqual,
        ]
    );
}

#[test]
fn lexes_literals() {
    assert_eq!(kinds("42"), vec![TokenKind::Integer(42)]);
    assert_eq!(kinds("-7"), vec![TokenKind::Integer(-7)]);
    assert_eq!(kinds("2.5"), vec![TokenKind::Float(2.5f64.to_bits())]);
    assert_eq!(
        kinds("true false"),
        vec![TokenKind::Boolean(true), TokenKind::Boolean(false)]
    );
    assert_eq!(
        kinds("t'2014-01-13T07:03:17Z'"),
        vec![TokenKind::Timestamp("2014-01-13T07:03:17Z".to_string())]
    );
    assert_eq!(
        kinds("b'aGVsbG8='"),
        vec![TokenKind::Binary("aGVsbG8=".to_string())]
    );
    assert_eq!(
        kinds("h'1234abcd'"),
        vec![TokenKind::Hex("1234abcd".to_string())]
    );
}

#[test]
fn lexes_string_escapes() {
    assert_eq!(kinds(r"'a\'b'"), vec![TokenKind::String("a'b".to_string())]);
    assert_eq!(kinds(r"'a\\b'"), vec![TokenKind::String(r"a\b".to_string())]);
}

#[test]
fn unterminated_string_errors() {
    let err = tokenize("'oops").unwrap_err();
    assert!(err.message.contains("unterminated"), "got: {}", err.message);
}

#[test]
fn tracks_spans() {
    let toks = tokenize("[a:b]").unwrap();
    assert_eq!(toks[0].span, Span::new(0, 1));
}

fn parse_path(src: &str) -> stix::pattern::ast::ObjectPath {
    let toks = tokenize(src).unwrap();
    let mut p = Parser::new(&toks, src);
    p.parse_object_path().unwrap()
}

#[test]
fn parses_simple_path() {
    let path = parse_path("ipv4-addr:value");
    assert_eq!(path.object_type, "ipv4-addr");
    assert_eq!(path.steps, vec![PathStep::Key("value".to_string())]);
}

#[test]
fn parses_nested_keys() {
    let path = parse_path("file:hashes.MD5");
    assert_eq!(path.object_type, "file");
    assert_eq!(
        path.steps,
        vec![PathStep::Key("hashes".to_string()), PathStep::Key("MD5".to_string())]
    );
}

#[test]
fn parses_index_and_any_index() {
    let path = parse_path("network-traffic:protocols[0]");
    assert_eq!(
        path.steps,
        vec![PathStep::Key("protocols".to_string()), PathStep::Index(0)]
    );

    let path = parse_path("x:list[*]");
    assert_eq!(
        path.steps,
        vec![PathStep::Key("list".to_string()), PathStep::AnyIndex]
    );
}

#[test]
fn parses_quoted_key() {
    let path = parse_path("file:hashes.'SHA-256'");
    assert_eq!(
        path.steps,
        vec![PathStep::Key("hashes".to_string()), PathStep::Key("SHA-256".to_string())]
    );
}

fn parse_comp(src: &str) -> ComparisonExpression {
    let toks = tokenize(src).unwrap();
    let mut p = Parser::new(&toks, src);
    p.parse_comparison_expression().unwrap()
}

#[test]
fn parses_single_comparison() {
    let c = parse_comp("ipv4-addr:value = '1.2.3.4'");
    match c {
        ComparisonExpression::Test(Comparison { operator, negated, value, .. }) => {
            assert_eq!(operator, ComparisonOperator::Equal);
            assert!(!negated);
            assert_eq!(value, ComparisonOperand::Literal(Literal::String("1.2.3.4".into())));
        }
        _ => panic!("expected a single test"),
    }
}

#[test]
fn parses_not_operator() {
    let c = parse_comp("file:size != 0");
    match c {
        ComparisonExpression::Test(Comparison { operator, value, .. }) => {
            assert_eq!(operator, ComparisonOperator::NotEqual);
            assert_eq!(value, ComparisonOperand::Literal(Literal::Integer(0)));
        }
        _ => panic!("expected test"),
    }
}

#[test]
fn parses_not_keyword_prefix() {
    let c = parse_comp("file:name NOT = 'x'");
    match c {
        ComparisonExpression::Test(Comparison { negated, .. }) => assert!(negated),
        _ => panic!("expected test"),
    }
}

#[test]
fn parses_in_set() {
    let c = parse_comp("ipv4-addr:value IN ('1.1.1.1', '8.8.8.8')");
    match c {
        ComparisonExpression::Test(Comparison { operator, value, .. }) => {
            assert_eq!(operator, ComparisonOperator::In);
            assert_eq!(
                value,
                ComparisonOperand::SetLiteral(vec![
                    Literal::String("1.1.1.1".into()),
                    Literal::String("8.8.8.8".into()),
                ])
            );
        }
        _ => panic!("expected test"),
    }
}

#[test]
fn parses_exists() {
    let c = parse_comp("EXISTS file:name");
    match c {
        ComparisonExpression::Test(Comparison { operator, path, .. }) => {
            assert_eq!(operator, ComparisonOperator::Exists);
            assert_eq!(path.object_type, "file");
        }
        _ => panic!("expected test"),
    }
}

#[test]
fn comparison_and_binds_tighter_than_or() {
    let c = parse_comp("file:name = 'a' OR file:name = 'b' AND file:size = 1");
    match c {
        ComparisonExpression::Or(_, right) => match *right {
            ComparisonExpression::And(_, _) => {}
            _ => panic!("right side of OR should be an AND"),
        },
        _ => panic!("top should be OR"),
    }
}

#[test]
fn parses_parenthesized_comparison() {
    let c = parse_comp("(file:name = 'a' OR file:name = 'b') AND file:size = 1");
    match c {
        ComparisonExpression::And(left, _) => match *left {
            ComparisonExpression::Or(_, _) => {}
            _ => panic!("left of AND should be OR"),
        },
        _ => panic!("top should be AND"),
    }
}

#[test]
fn span_records_offsets() {
    let span = Span::new(3, 7);
    assert_eq!(span.start, 3);
    assert_eq!(span.end, 7);
}

#[test]
fn parse_error_displays_with_span() {
    let err = ParseError::new("unexpected token".to_string(), Span::new(5, 6));
    let msg = err.to_string();
    assert!(msg.contains("unexpected token"), "got: {msg}");
    assert!(msg.contains('5'), "span start should appear: {msg}");
}

#[test]
fn parse_error_text_is_exact() {
    let err = ParseError::new("bad".to_string(), Span::new(12, 130));
    assert_eq!(err.to_string(), "parse error at bytes 12..130: bad");
    let zero = ParseError::new("x".to_string(), Span::new(0, 0));
    assert_eq!(zero.to_string(), "parse error at bytes 0..0: x");
}

#[test]
fn doc_example_in_lib_is_valid() {
    let p = parse("[file:hashes.'SHA-256' = 'abc']").unwrap();
    match p.expression {
        ObservationExpression::Observation(c) => match *c {
            ComparisonExpression::Test(t) => {
                assert_eq!(
                    t.path.steps,
                    vec![PathStep::Key("hashes".into()), PathStep::Key("SHA-256".into())]
                );
            }
            _ => panic!("expected a test"),
        },
        _ => panic!("expected an observation"),
    }
}

#[test]
fn parses_observation_operators_with_precedence() {
    // AND binds tighter than OR, which binds tighter than FOLLOWEDBY.
    let p = parse("[a:x = 1] OR [b:y = 2] AND [c:z = 3] FOLLOWEDBY [d:w = 4]").unwrap();
    match p.expression {
        ObservationExpression::FollowedBy(left, _) => match *left {
            ObservationExpression::Or(_, right) => match *right {
                ObservationExpression::And(_, _) => {}
                _ => panic!("expected AND under OR"),
            },
            _ => panic!("expected OR under FOLLOWEDBY"),
        },
        _ => panic!("expected FOLLOWEDBY at the top"),
    }
}

#[test]
fn parses_qualifiers() {
    let p = parse("[a:x = 1] WITHIN 300 SECONDS").unwrap();
    match p.expression {
        ObservationExpression::Qualified { qualifier, .. } => {
            assert_eq!(qualifier, QualifierOf::Within { seconds: 300.0f64.to_bits() });
        }
        _ => panic!("expected a qualifier"),
    }
    let p = parse("[a:x = 1] REPEATS 5 TIMES").unwrap();
    match p.expression {
        ObservationExpression::Qualified { qualifier, .. } => {
            assert_eq!(qualifier, QualifierOf::Repeats { count: 5 });
        }
        _ => panic!("expected a qualifier"),
    }
    let p = parse("[a:x = 1] START t'2020-01-01T00:00:00Z' STOP t'2020-01-02T00:00:00Z'").unwrap();
    match p.expression {
        ObservationExpression::Qualified { qualifier, .. } => {
            assert_eq!(
                qualifier,
                QualifierOf::StartStop {
                    start: "2020-01-01T00:00:00Z".to_string(),
                    stop: "2020-01-02T00:00:00Z".to_string()
                }
            );
        }
        _ => panic!("expected a qualifier"),
    }
}

#[test]
fn rejects_malformed_patterns() {
    assert!(parse("[bad").is_err());
    assert!(parse("").is_err());
    assert!(parse("[a:b = 1] extra").is_err());
    assert!(parse("[a = 1]").is_err());
    assert!(parse("[a:b ~ 1]").is_err());
    assert!(parse("[a:b = 1] WITHIN x SECONDS").is_err());
}

#[test]
fn float_and_integer_literals_in_patterns() {
    let p = parse("[x:y = 0.1]").unwrap();
    match p.expression {
        ObservationExpression::Observation(c) => match *c {
            ComparisonExpression::Test(t) => {
                assert_eq!(t.value, ComparisonOperand::Literal(LiteralOf::Float(0.1f64.to_bits())));
            }
            _ => panic!("expected a test"),
        },
        _ => panic!("expected an observation"),
    }
}

#[test]
fn identifier_character_classes() {
    assert!(is_ident_start(b'a'));
    assert!(is_ident_start(b'Z'));
    assert!(is_ident_start(b'_'));
    assert!(!is_ident_start(b'1'));
    assert!(!is_ident_start(b'-'));
    assert!(is_ident_continue(b'1'));
    assert!(is_ident_continue(b'-'));
    assert!(is_ident_continue(b'_'));
    assert!(!is_ident_continue(b':'));
    assert!(!is_ident_continue(b' '));
}

#[test]
fn parse_error_reports_span_and_message() {
    let err = parse("[ipv4-addr:value = ]").unwrap_err();
    assert_eq!(err.to_string(), "parse error at bytes 19..20: expected a literal value");
}

#[test]
fn build_simple_comparison_pattern() {
    let path = stix::pattern::ast::ObjectPath {
        object_type: "ipv4-addr".to_string(),
        steps: vec![PathStep::Key("value".to_string())],
    };
    let comp = Comparison {
        path,
        operator: ComparisonOperator::Equal,
        negated: false,
        value: ComparisonOperand::Literal(Literal::String("1.2.3.4".to_string())),
    };
    let pattern = stix::pattern::ast::Pattern {
        expression: ObservationExpression::Observation(Box::new(ComparisonExpression::Test(comp))),
    };
    match pattern.expression {
        ObservationExpression::Observation(_) => {}
        _ => panic!("expected observation"),
    }
}

#[test]
fn quoted_strings_decode_utf8() {
    assert_eq!(kinds("'é'"), vec![TokenKind::String("é".to_string())]);
    assert_eq!(kinds("'日本 ✓'"), vec![TokenKind::String("日本 ✓".to_string())]);
    assert_eq!(kinds("'𝄞x'"), vec![TokenKind::String("𝄞x".to_string())]);
    assert_eq!(kinds(r"'\é'"), vec![TokenKind::String(r"\é".to_string())]);
    assert_eq!(kinds("t'é'"), vec![TokenKind::Timestamp("é".to_string())]);
    let toks = tokenize("'é'").unwrap();
    assert_eq!(toks[0].span, Span::new(0, 4));
}

#[test]
fn unexpected_non_ascii_character_names_its_first_byte() {
    let err = tokenize("[a:b = 1] é").unwrap_err();
    assert_eq!(err.message, "unexpected character '\u{c3}'");
    assert_eq!(err.span, Span::new(10, 11));
}

#[test]
fn keywords_ignore_letter_case() {
    assert_eq!(kinds("Like lIkE LIKE"), vec![TokenKind::Like, TokenKind::Like, TokenKind::Like]);
    assert_eq!(kinds("False TRUE"), vec![TokenKind::Boolean(false), TokenKind::Boolean(true)]);
    assert_eq!(kinds("andy"), vec![TokenKind::Identifier("andy".to_string())]);
}

#[test]
fn parses_non_ascii_string_literal() {
    let p = parse("[file:name = 'résumé.pdf']").unwrap();
    let again = parse("[file:name = 'résumé.pdf']").unwrap();
    assert_eq!(p, again);
}

#[test]
fn missing_operator_error_points_at_token() {
    let err = parse("[file:name EXISTS 'x']").unwrap_err();
    assert_eq!(err.message, "expected a comparison operator");
    assert_eq!(err.span, Span::new(11, 17));
}
