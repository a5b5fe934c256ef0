use dnd_spreadsheet::language::parser::{parse, validate_name};
use dnd_spreadsheet::language::s_exprs::ToSExpr;

fn parsed(input: &str) -> String {
    parse(input).unwrap().to_s_expr()
}

fn parse_error(input: &str) -> String {
    parse(input).unwrap_err().message
}

#[test]
fn test_int() {
    assert_eq!(parsed("5"), "5");
}

#[test]
fn test_int2() {
    assert_eq!(parsed("0"), "0");
}

#[test]
fn test_string() {
    assert_eq!(parsed("\"string\""), "\"string\"");
}

#[test]
fn test_list_lit() {
    assert_eq!(parsed("[1, 2, 3]"), "[1, 2, 3]");
}

#[test]
fn test_record_lit() {
    assert_eq!(parsed("{b: 2, a: 1}"), "{a: 1, b: 2}");
}

#[test]
fn test_plus() {
    assert_eq!(parsed("1 + 2"), "(+ 1 2)");
}

#[test]
fn test_minus() {
    assert_eq!(parsed("1 - 2"), "(- 1 2)");
}

#[test]
fn test_multiply() {
    assert_eq!(parsed("1 * 2"), "(* 1 2)");
}

#[test]
fn test_negate() {
    assert_eq!(parsed("-1"), "(negate 1)");
}

#[test]
fn test_negate2() {
    assert_eq!(parsed("--1"), "(negate (negate 1))");
}

#[test]
fn test_prec_left() {
    assert_eq!(parsed("1 * 2 + 3"), "(+ (* 1 2) 3)");
}

#[test]
fn test_prec_right() {
    assert_eq!(parsed("1 + 2 * 3"), "(+ 1 (* 2 3))");
}

#[test]
fn test_dot() {
    assert_eq!(parsed("a.b"), "(dot a \"b\")");
}

#[test]
fn test_dot2() {
    assert_eq!(parsed("a.b.c"), "(dot (dot a \"b\") \"c\")");
}

#[test]
fn test_dot_prec_left() {
    assert_eq!(parsed("a.b + c"), "(+ (dot a \"b\") c)");
}

#[test]
fn test_dot_prec_right() {
    assert_eq!(parsed("a + b.c"), "(+ a (dot b \"c\"))");
}

#[test]
fn left_associative_operators() {
    assert_eq!(parsed("1 - 2 - 3"), "(- (- 1 2) 3)");
    assert_eq!(parsed("1 - 2 + 3"), "(+ (- 1 2) 3)");
    assert_eq!(parsed("2 * 3 * 4"), "(* (* 2 3) 4)");
}

#[test]
fn prefix_minus_binds_tighter_than_infix() {
    assert_eq!(parsed("-A1 - -3"), "(- (negate A1) (negate 3))");
    assert_eq!(parsed("-2 * 3"), "(* (negate 2) 3)");
    assert_eq!(parsed("-a.b"), "(negate (dot a \"b\"))");
}

#[test]
fn grouping_overrides_precedence() {
    assert_eq!(parsed("(1 + 2) * 3"), "(* (+ 1 2) 3)");
    assert_eq!(parsed("((7))"), "7");
}

#[test]
fn calls_and_empty_brackets() {
    assert_eq!(parsed("f(1, x)"), "(f 1 x)");
    assert_eq!(parsed("read()"), "(read )");
    assert_eq!(parsed("[]"), "[]");
    assert_eq!(parsed("{}"), "{}");
    assert_eq!(parsed("push(\"T\", 7)"), "(push \"T\" 7)");
}

#[test]
fn duplicate_record_key_keeps_last() {
    assert_eq!(parsed("{a: 1, b: 2, a: 3}"), "{a: 3, b: 2}");
}

#[test]
fn dollar_stays_in_name() {
    assert_eq!(parsed("$A1 + 1"), "(+ $A1 1)");
}

#[test]
fn whitespace_is_skipped() {
    assert_eq!(parsed(" \t1\n+\r2 "), "(+ 1 2)");
}

#[test]
fn largest_integer_literal() {
    assert_eq!(parsed("9223372036854775807"), "9223372036854775807");
    assert_eq!(parse_error("9223372036854775808"), "Parse Error: Invalid int");
}

#[test]
fn parse_errors() {
    assert_eq!(parse_error(""), "Parse Error: Expected name or lit int");
    assert_eq!(parse_error("1 +"), "Parse Error: Expected name or lit int");
    assert_eq!(parse_error("1 2"), "Parse Error: Unexpected token: 2");
    assert_eq!(parse_error("(1"), "Parse Error: Unexpected token");
    assert_eq!(parse_error("[1, 2"), "Parse Error: Unexpected token");
    assert_eq!(parse_error("{a 1}"), "Parse Error: Unexpected token: }");
    assert_eq!(parse_error("1 / 0"), "Parse Error: Unexpected token: /");
    assert_eq!(parse_error("\"open"), "Parse Error: Unexpected token: open");
    assert_eq!(parse_error("\""), "Parse Error: Expected name or lit int");
    assert_eq!(parse_error("1 == 1"), "Parse Error: Unexpected token: =");
    assert_eq!(parse_error("a."), "Parse Error: Unexpected token");
}

#[test]
fn names_that_can_name_a_cell() {
    assert!(validate_name("A1"));
    assert!(validate_name("_x"));
    assert!(validate_name("a_b_9"));
    assert!(!validate_name(""));
    assert!(!validate_name("1a"));
    assert!(!validate_name("a b"));
    assert!(!validate_name("$a"));
    assert!(!validate_name("a-b"));
}
