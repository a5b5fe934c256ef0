use dnd_spreadsheet::language::errors::Error;
use dnd_spreadsheet::language::keyed::{contains_name, insert_sorted, key_position};
use dnd_spreadsheet::language::lexer::{Lexer, TokenType};
use dnd_spreadsheet::language::text::{
    chars_less, parse_decimal, push_int_text, push_nat_text, str_eq, str_less, to_chars,
};

fn decimal(s: &str) -> Option<i64> {
    parse_decimal(&to_chars(s))
}

fn shown(i: i64) -> String {
    let mut out = String::from("n=");
    push_int_text(&mut out, i);
    out
}

#[test]
fn decimal_literals() {
    assert_eq!(decimal("0"), Some(0));
    assert_eq!(decimal("007"), Some(7));
    assert_eq!(decimal("1234567890"), Some(1234567890));
    assert_eq!(decimal("9223372036854775807"), Some(i64::MAX));
    assert_eq!(decimal("9223372036854775808"), None);
    assert_eq!(decimal("99999999999999999999999999"), None);
    assert_eq!(decimal(""), None);
    assert_eq!(decimal("12a"), None);
    assert_eq!(decimal("-1"), None);
    assert_eq!(decimal("+1"), None);
}

#[test]
fn decimal_notation() {
    assert_eq!(shown(0), "n=0");
    assert_eq!(shown(9), "n=9");
    assert_eq!(shown(10), "n=10");
    assert_eq!(shown(-1), "n=-1");
    assert_eq!(shown(1020304050), "n=1020304050");
    assert_eq!(shown(i64::MAX), "n=9223372036854775807");
    assert_eq!(shown(i64::MIN), "n=-9223372036854775808");
    let mut out = String::new();
    push_nat_text(&mut out, u64::MAX);
    assert_eq!(out, "18446744073709551615");
}

#[test]
fn texts_are_ordered_by_code_point() {
    assert!(str_less("a", "b"));
    assert!(!str_less("b", "a"));
    assert!(!str_less("a", "a"));
    assert!(str_less("", "a"));
    assert!(!str_less("", ""));
    assert!(str_less("a", "ab"));
    assert!(str_less("B", "a"));
    assert!(str_less("W1", "W10"));
    assert!(str_less("W10", "W2"));
    assert!(str_less("z", "\u{e9}"));
    assert!(chars_less(&vec!['a', 'b'], &vec!['a', 'c']));
    assert!(str_eq("abc", "abc"));
    assert!(!str_eq("abc", "abd"));
    assert_eq!(to_chars("h\u{e9}!"), vec!['h', '\u{e9}', '!']);
}

#[test]
fn keyed_lists_stay_in_key_order() {
    let mut entries: Vec<(String, u32)> = Vec::new();
    insert_sorted(&mut entries, "m".to_string(), 1);
    insert_sorted(&mut entries, "a".to_string(), 2);
    insert_sorted(&mut entries, "z".to_string(), 3);
    insert_sorted(&mut entries, "m".to_string(), 4);
    assert_eq!(
        entries,
        vec![("a".to_string(), 2), ("m".to_string(), 4), ("z".to_string(), 3)]
    );
    assert_eq!(key_position(&entries, &"m".to_string()), 1);
    assert_eq!(key_position(&entries, &"q".to_string()), 3);
    let names = vec!["x".to_string(), "y".to_string()];
    assert!(contains_name(&names, &"y".to_string()));
    assert!(!contains_name(&names, &"z".to_string()));
}

#[test]
fn the_lexer_hands_out_tokens_one_by_one() {
    let mut lexer = Lexer::new(" foo(12,\"a b\") $x.y\t{k:-1}*[?");
    let mut seen: Vec<(TokenType, String)> = Vec::new();
    while let Some(token) = lexer.next() {
        seen.push((token.token_type, token.text.to_string()));
    }
    let expected = vec![
        (TokenType::Name, "foo"),
        (TokenType::LParen, "("),
        (TokenType::IntLit, "12"),
        (TokenType::Comma, ","),
        (TokenType::StringLit, "\"a b\""),
        (TokenType::RParen, ")"),
        (TokenType::Name, "$x"),
        (TokenType::Dot, "."),
        (TokenType::Name, "y"),
        (TokenType::LBrace, "{"),
        (TokenType::Name, "k"),
        (TokenType::Colon, ":"),
        (TokenType::Minus, "-"),
        (TokenType::IntLit, "1"),
        (TokenType::RBrace, "}"),
        (TokenType::Star, "*"),
        (TokenType::LBrack, "["),
        (TokenType::Error, "?"),
    ];
    let expected: Vec<(TokenType, String)> =
        expected.into_iter().map(|(k, t)| (k, t.to_string())).collect();
    assert_eq!(seen, expected);
    assert!(lexer.next().is_none());
}

#[test]
fn a_lone_quote_and_other_text_are_error_tokens() {
    let mut lexer = Lexer::new("\"abc \u{e9}");
    let first = lexer.next().unwrap();
    assert_eq!((first.token_type, first.text), (TokenType::Error, "\""));
    let second = lexer.next().unwrap();
    assert_eq!((second.token_type, second.text), (TokenType::Name, "abc"));
    let third = lexer.next().unwrap();
    assert_eq!((third.token_type, third.text), (TokenType::Error, "\u{e9}"));
    assert!(lexer.next().is_none());
}

#[test]
fn error_messages() {
    assert_eq!(Error::with_message("x").message, "x");
    assert_eq!(Error::propogated_error("A1").message, "Error in read cell A1");
    assert_eq!(Error::parse_error("bad").message, "Parse Error: bad");
    assert_eq!(Error::with_message("x").clone().message, "x");
}
