use exprlang::parser::{Expected, Parser};
use exprlang::types::{DataValue, Node, Token};

fn parse(input: &str) -> Option<Node> {
    let mut parser = Parser::new(input);
    parser.expr()
}

fn shape(input: &str) -> String {
    format!("{:?}", parse(input))
}

fn int_value(input: &str) -> Option<i32> {
    match parse(input).and_then(|n| n.eval()) {
        Some(DataValue::Int32(v)) => Some(v),
        _ => None,
    }
}

#[test]
fn binary_operations_on_two_integers() {
    assert_eq!(int_value("7 + 5"), Some(12));
    assert_eq!(int_value("7 - 5"), Some(2));
    assert_eq!(int_value("7 * 5"), Some(35));
    assert_eq!(int_value("7 / 2"), Some(3));
    assert_eq!(int_value("12+30"), Some(42));
    assert_eq!(int_value("-7"), None);
}

#[test]
fn binary_operation_consumes_whole_input() {
    for input in ["7 + 5", "100*3", "9 /3", "1 - 2"] {
        let mut parser = Parser::new(input);
        assert!(parser.expr().is_some());
        assert_eq!(parser.current(), None);
        assert_eq!(parser.slice(), "");
        assert!(!parser.aborted());
    }
}

#[test]
fn division_truncates_toward_zero() {
    assert_eq!(int_value("7 / 2"), Some(3));
    assert_eq!(int_value("(0 - 7) / 2"), Some(-3));
}

#[test]
fn parentheses_change_precedence() {
    assert_eq!(int_value("(3 + 5) * (2 + 4)"), Some(48));
    assert_eq!(
        shape("(3 + 5) * (2 + 4)"),
        "Some(Mul(Add(IntLiteral(3), IntLiteral(5)), Add(IntLiteral(2), IntLiteral(4))))"
    );
    assert_eq!(int_value("3 + 5 * 2"), Some(13));
    assert_eq!(
        shape("3 + 5 * 2"),
        "Some(Add(IntLiteral(3), Mul(IntLiteral(5), IntLiteral(2))))"
    );
}

#[test]
fn operators_associate_to_the_left() {
    assert_eq!(int_value("10 - 4 - 3"), Some(3));
    assert_eq!(int_value("100 / 10 / 5"), Some(2));
}

#[test]
fn division_by_literal_zero_has_no_value() {
    let tree = parse("1 / 0").unwrap();
    assert_eq!(format!("{:?}", tree), "Div(IntLiteral(1), IntLiteral(0))");
    assert!(tree.eval().is_none());
    assert!(parse("(4 * 2) / 0").unwrap().eval().is_none());
}

#[test]
fn radix_literals() {
    assert_eq!(int_value("0x1A"), Some(26));
    assert_eq!(int_value("0b101"), Some(5));
    assert_eq!(int_value("0o17"), Some(15));
    assert_eq!(int_value("0xff"), Some(255));
}

#[test]
fn integer_literal_out_of_range() {
    assert_eq!(int_value("2147483647"), Some(2147483647));
    assert!(parse("2147483648").is_none());
    assert!(parse("0x80000000").is_none());
}

#[test]
fn overflowing_arithmetic_has_no_value() {
    assert!(parse("2147483647 + 1").unwrap().eval().is_none());
    assert!(parse("65536 * 65536").unwrap().eval().is_none());
}

#[test]
fn definition_evaluates_to_null() {
    let tree = parse("let a = 1").unwrap();
    assert_eq!(
        format!("{:?}", tree),
        "VariableDefinition(\"a\", None, IntLiteral(1))"
    );
    assert!(matches!(tree.eval(), Some(DataValue::Null)));
    assert_eq!(shape("a"), "Some(Ident(\"a\"))");
    assert!(parse("a").unwrap().eval().is_none());
}

#[test]
fn definition_with_type_name() {
    assert_eq!(
        shape("let b : int = 2 + 3"),
        "Some(VariableDefinition(\"b\", Some(\"int\"), Add(IntLiteral(2), IntLiteral(3))))"
    );
}

#[test]
fn definition_without_equal_sign_aborts() {
    let mut parser = Parser::new("let a 1");
    assert!(parser.expr().is_none());
    assert!(parser.aborted());
}

#[test]
fn assignment_to_undefined_name() {
    let tree = parse("a = 5").unwrap();
    assert_eq!(format!("{:?}", tree), "Assignment(\"a\", IntLiteral(5))");
    assert!(matches!(tree.eval(), Some(DataValue::Null)));
}

#[test]
fn char_literals() {
    assert!(parse("''").is_none());
    assert!(parse("'ab'").is_none());
    assert_eq!(shape("'x'"), "Some(CharLiteral('x'))");
    assert!(matches!(parse("'x'").unwrap().eval(), Some(DataValue::Char('x'))));
}

#[test]
fn string_literal_keeps_quotes() {
    let tree = parse("\"hi there\"").unwrap();
    assert_eq!(format!("{:?}", tree), "StringLiteral(\"\\\"hi there\\\"\")");
    match tree.eval() {
        Some(DataValue::String(s)) => assert_eq!(s, "\"hi there\""),
        _ => panic!("expected a string"),
    }
    assert!(parse("\"a\" + \"b\"").unwrap().eval().is_none());
}

#[test]
fn unbalanced_parenthesis() {
    assert!(parse("(1 + 2").is_none());
    assert!(parse(")").is_none());
    assert!(parse("").is_none());
}

#[test]
fn missing_operand() {
    assert!(parse("1 +").is_none());
    assert!(parse("* 2").is_none());
}

#[test]
fn unknown_character_ends_the_input() {
    assert_eq!(shape("1 # 2"), "Some(IntLiteral(1))");
}

#[test]
fn reparsing_gives_identical_results() {
    for input in ["(3 + 5) * (2 + 4)", "let a = 1", "'x'", "1 / 0", "(1"] {
        let first = parse(input);
        let second = parse(input);
        assert_eq!(format!("{:?}", first), format!("{:?}", second));
        let v1 = first.and_then(|n| n.eval());
        let v2 = second.and_then(|n| n.eval());
        assert_eq!(format!("{:?}", v1), format!("{:?}", v2));
    }
}

#[test]
fn keywords() {
    for w in ["let", "if", "for", "while", "match"] {
        assert!(Parser::is_keyword_lists(w));
    }
    assert!(!Parser::is_keyword_lists("lets"));
    assert!(!Parser::is_keyword_lists(""));
}

#[test]
fn assignment_lookahead_leaves_parser_in_place() {
    let mut parser = Parser::new("x = 1");
    assert_eq!(parser.current(), Some(Token::Ident));
    assert!(parser.is_assignment_statement("x"));
    assert!(!parser.is_assignment_statement(""));
    assert_eq!(parser.current(), Some(Token::Ident));
    assert_eq!(parser.slice(), "x");
    parser.advance();
    assert_eq!(parser.current(), Some(Token::Equal));
    assert!(!parser.is_assignment_statement("="));
}

#[test]
fn expectations() {
    let mut parser = Parser::new("let x");
    parser.expect_error(Expected::Str("let"));
    assert!(!parser.aborted());
    parser.advance();
    parser.expect_error(Expected::Char('x'));
    assert!(!parser.aborted());
    parser.expect_error(Expected::Char('y'));
    assert!(parser.aborted());
}

#[test]
fn scanner_tokens() {
    let mut parser = Parser::new("( ) = + - * / : \"s\" 'c' 12 0b1 0o7 0xF id_2");
    let expected = [
        Token::LParent,
        Token::RParent,
        Token::Equal,
        Token::Add,
        Token::Sub,
        Token::Mul,
        Token::Div,
        Token::Colon,
        Token::StringLiteral,
        Token::CharLiteral,
        Token::Int10Literal,
        Token::Int2Literal,
        Token::Int8Literal,
        Token::Int16Literal,
        Token::Ident,
    ];
    for t in expected {
        assert_eq!(parser.current(), Some(t));
        parser.advance();
    }
    assert_eq!(parser.current(), None);
}

#[test]
fn prefix_without_digits_is_decimal_then_identifier() {
    let mut parser = Parser::new("0x");
    assert_eq!(parser.current(), Some(Token::Int10Literal));
    assert_eq!(parser.slice(), "0");
    parser.advance();
    assert_eq!(parser.current(), Some(Token::Ident));
    assert_eq!(parser.slice(), "x");
}

#[test]
fn assignment_targets_are_not_yet_told_apart() {
    let parser = Parser::new("a");
    assert!(!parser.is_assignment_target_identifier());
    assert!(!parser.is_assignment_target_literal());
}
