//! The parser: precedence climbing over the tokens of a text.
use crate::language::ast::{asts_view, fields_view, AST, Expr};
use crate::language::errors::{parse_message, Error};
use crate::language::keyed::{entry_keys, insert_sorted, keys_of, sorted_insert};
use crate::language::lexer::{
    in_class, is_letter, lexer_next, run_end, token_at, tokenize, tokens_from, CharClass, Lexer,
    Tok,
};
pub use crate::language::lexer::{Token, TokenType};
use crate::language::text::{decimal_i64, is_digit, parse_decimal, to_chars};
use vstd::prelude::*;
use vstd::string::{StrSliceExecFns, StringExecFns};

verus! {

/// The message for a token that is not the one the grammar asks for.
pub open spec fn unexpected_token() -> Seq<char> {
    parse_message("Unexpected token"@)
}

/// The message for a token that starts no expression.
pub open spec fn expected_operand() -> Seq<char> {
    parse_message("Expected name or lit int"@)
}

/// The message for an integer literal that does not fit in 64 bits.
pub open spec fn invalid_int() -> Seq<char> {
    parse_message("Invalid int"@)
}

/// The message for a token left over after a whole expression.
pub open spec fn trailing_token(text: Seq<char>) -> Seq<char> {
    parse_message("Unexpected token: "@ + text)
}

/// The kind of the token at `pos`, if there is one.
pub open spec fn peek_kind(toks: Seq<Tok>, pos: int) -> Option<TokenType> {
    if 0 <= pos < toks.len() {
        Some(toks[pos].kind)
    } else {
        None
    }
}

/// Takes the token at `pos`, whatever it is, and gives its text when it is
/// of the given kind.
pub open spec fn expect_spec(toks: Seq<Tok>, pos: int, kind: TokenType) -> (
    Result<Seq<char>, Seq<char>>,
    int,
) {
    if 0 <= pos < toks.len() {
        if toks[pos].kind == kind {
            (Ok(toks[pos].text), pos + 1)
        } else {
            (Err(unexpected_token()), pos + 1)
        }
    } else {
        (Err(unexpected_token()), pos)
    }
}

/// The text of a string literal without its two quotes.
pub open spec fn unquote(text: Seq<char>) -> Seq<char> {
    if text.len() >= 2 {
        text.subrange(1, text.len() - 1)
    } else {
        text
    }
}

/// The level and the function name of an infix operator.
pub open spec fn infix_operator(kind: TokenType) -> Option<(int, Seq<char>)> {
    match kind {
        TokenType::Plus => Some((1, "+"@)),
        TokenType::Minus => Some((1, "-"@)),
        TokenType::Star => Some((2, "*"@)),
        _ => None,
    }
}

/// The call of the function named `name` on the given arguments.
pub open spec fn call_of(name: Seq<char>, args: Seq<Expr>) -> Expr {
    Expr::Call(Box::new(Expr::Name(name)), args)
}

/// What the parser makes of the tokens from `pos` on, for operators that
/// bind at least as tightly as `min_bp`: an expression or an error, and the
/// position it stops at.
///
/// Here and in the definitions below, the test that a part that parsed has
/// taken a token makes the recursion well-founded. It never fails: see
/// `parse_expr_advances`.
pub open spec fn parse_expr_spec(toks: Seq<Tok>, pos: int, min_bp: int) -> (
    Result<Expr, Seq<char>>,
    int,
)
    decreases toks.len() - pos, 2int,
{
    let (r, p) = parse_prefix_spec(toks, pos);
    match r {
        Ok(lhs) => if pos < p <= toks.len() {
            parse_infix_spec(toks, p, min_bp, lhs)
        } else {
            (Err(unexpected_token()), p)
        },
        Err(m) => (Err(m), p),
    }
}

/// An operand: a literal, a list, a record, a name, a call, a negation or
/// an expression in brackets.
pub open spec fn parse_prefix_spec(toks: Seq<Tok>, pos: int) -> (Result<Expr, Seq<char>>, int)
    decreases toks.len() - pos, 1int,
{
    if 0 <= pos < toks.len() {
        let tok = toks[pos];
        match tok.kind {
            TokenType::IntLit => (
                match decimal_i64(tok.text) {
                    Some(i) => Ok(Expr::Integer(i)),
                    None => Err(invalid_int()),
                },
                pos + 1,
            ),
            TokenType::StringLit => (Ok(Expr::Str(unquote(tok.text))), pos + 1),
            TokenType::LBrack => {
                let (r, p) = parse_items_spec(toks, pos + 1, TokenType::RBrack);
                (
                    match r {
                        Ok(items) => Ok(Expr::List(items)),
                        Err(m) => Err(m),
                    },
                    p,
                )
            },
            TokenType::LBrace => {
                let (r, p) = parse_fields_spec(toks, pos + 1);
                (
                    match r {
                        Ok(fields) => Ok(Expr::Record(fields)),
                        Err(m) => Err(m),
                    },
                    p,
                )
            },
            TokenType::Name => if peek_kind(toks, pos + 1) == Some(TokenType::LParen) {
                let (r, p) = parse_items_spec(toks, pos + 2, TokenType::RParen);
                (
                    match r {
                        Ok(args) => Ok(call_of(tok.text, args)),
                        Err(m) => Err(m),
                    },
                    p,
                )
            } else {
                (Ok(Expr::Name(tok.text)), pos + 1)
            },
            TokenType::Minus => {
                let (r, p) = parse_expr_spec(toks, pos + 1, 9);
                (
                    match r {
                        Ok(rhs) => Ok(call_of("negate"@, seq![rhs])),
                        Err(m) => Err(m),
                    },
                    p,
                )
            },
            TokenType::LParen => {
                let (r, p) = parse_expr_spec(toks, pos + 1, 0);
                match r {
                    Ok(e) => {
                        let (c, q) = expect_spec(toks, p, TokenType::RParen);
                        (
                            match c {
                                Ok(_) => Ok(e),
                                Err(m) => Err(m),
                            },
                            q,
                        )
                    },
                    Err(m) => (Err(m), p),
                }
            },
            _ => (Err(expected_operand()), pos + 1),
        }
    } else {
        (Err(expected_operand()), pos)
    }
}

/// The operators that follow an operand `lhs`, as long as they bind at
/// least as tightly as `min_bp`.
pub open spec fn parse_infix_spec(toks: Seq<Tok>, pos: int, min_bp: int, lhs: Expr) -> (
    Result<Expr, Seq<char>>,
    int,
)
    decreases toks.len() - pos, 0int,
{
    if 0 <= pos < toks.len() {
        match infix_operator(toks[pos].kind) {
            Some((level, name)) => if 2 * level - 1 < min_bp {
                (Ok(lhs), pos)
            } else {
                let (r, p) = parse_expr_spec(toks, pos + 1, 2 * level);
                match r {
                    Ok(rhs) => if pos < p <= toks.len() {
                        parse_infix_spec(toks, p, min_bp, call_of(name, seq![lhs, rhs]))
                    } else {
                        (Err(unexpected_token()), p)
                    },
                    Err(m) => (Err(m), p),
                }
            },
            None => if toks[pos].kind == TokenType::Dot {
                if 19 < min_bp {
                    (Ok(lhs), pos)
                } else {
                    let (f, p) = expect_spec(toks, pos + 1, TokenType::Name);
                    match f {
                        Ok(field) => if pos < p <= toks.len() {
                            parse_infix_spec(
                                toks,
                                p,
                                min_bp,
                                call_of("dot"@, seq![lhs, Expr::Str(field)]),
                            )
                        } else {
                            (Err(unexpected_token()), p)
                        },
                        Err(m) => (Err(m), p),
                    }
                }
            } else {
                (Ok(lhs), pos)
            },
        }
    } else {
        (Ok(lhs), pos)
    }
}

/// Expressions separated by commas, up to and including the closing token.
pub open spec fn parse_items_spec(toks: Seq<Tok>, pos: int, close: TokenType) -> (
    Result<Seq<Expr>, Seq<char>>,
    int,
)
    decreases toks.len() - pos, 3int,
{
    if peek_kind(toks, pos) == Some(close) {
        (Ok(Seq::empty()), pos + 1)
    } else {
        let (r, p) = parse_expr_spec(toks, pos, 0);
        match r {
            Ok(e) => if pos < p <= toks.len() {
                parse_items_rest_spec(toks, p, close, seq![e])
            } else {
                (Err(unexpected_token()), p)
            },
            Err(m) => (Err(m), p),
        }
    }
}

/// The rest of a list of expressions, after the items in `acc`.
pub open spec fn parse_items_rest_spec(
    toks: Seq<Tok>,
    pos: int,
    close: TokenType,
    acc: Seq<Expr>,
) -> (Result<Seq<Expr>, Seq<char>>, int)
    decreases toks.len() - pos, 0int,
{
    if peek_kind(toks, pos) == Some(TokenType::Comma) {
        let (r, p) = parse_expr_spec(toks, pos + 1, 0);
        match r {
            Ok(e) => if pos < p <= toks.len() {
                parse_items_rest_spec(toks, p, close, acc.push(e))
            } else {
                (Err(unexpected_token()), p)
            },
            Err(m) => (Err(m), p),
        }
    } else {
        let (c, q) = expect_spec(toks, pos, close);
        (
            match c {
                Ok(_) => Ok(acc),
                Err(m) => Err(m),
            },
            q,
        )
    }
}

/// One field of a record: a name, a colon and an expression.
pub open spec fn parse_field_spec(toks: Seq<Tok>, pos: int) -> (
    Result<(Seq<char>, Expr), Seq<char>>,
    int,
)
    decreases toks.len() - pos, 3int,
{
    let (n, p1) = expect_spec(toks, pos, TokenType::Name);
    match n {
        Ok(name) => {
            let (c, p2) = expect_spec(toks, p1, TokenType::Colon);
            match c {
                Ok(_) => {
                    let (r, p3) = parse_expr_spec(toks, p2, 0);
                    (
                        match r {
                            Ok(e) => Ok((name, e)),
                            Err(m) => Err(m),
                        },
                        p3,
                    )
                },
                Err(m) => (Err(m), p2),
            }
        },
        Err(m) => (Err(m), p1),
    }
}

/// The fields of a record, up to and including the closing brace, in key
/// order; of two fields with one name the later one stays.
pub open spec fn parse_fields_spec(toks: Seq<Tok>, pos: int) -> (
    Result<Seq<(Seq<char>, Expr)>, Seq<char>>,
    int,
)
    decreases toks.len() - pos, 4int,
{
    if peek_kind(toks, pos) == Some(TokenType::RBrace) {
        (Ok(Seq::empty()), pos + 1)
    } else {
        let (r, p) = parse_field_spec(toks, pos);
        match r {
            Ok(field) => if pos < p <= toks.len() {
                parse_fields_rest_spec(
                    toks,
                    p,
                    sorted_insert(Seq::empty(), field.0, field.1),
                )
            } else {
                (Err(unexpected_token()), p)
            },
            Err(m) => (Err(m), p),
        }
    }
}

/// The rest of the fields of a record, after those in `acc`.
pub open spec fn parse_fields_rest_spec(
    toks: Seq<Tok>,
    pos: int,
    acc: Seq<(Seq<char>, Expr)>,
) -> (Result<Seq<(Seq<char>, Expr)>, Seq<char>>, int)
    decreases toks.len() - pos, 0int,
{
    if peek_kind(toks, pos) == Some(TokenType::Comma) {
        let (r, p) = parse_field_spec(toks, pos + 1);
        match r {
            Ok(field) => if pos < p <= toks.len() {
                parse_fields_rest_spec(toks, p, sorted_insert(acc, field.0, field.1))
            } else {
                (Err(unexpected_token()), p)
            },
            Err(m) => (Err(m), p),
        }
    } else {
        let (c, q) = expect_spec(toks, pos, TokenType::RBrace);
        (
            match c {
                Ok(_) => Ok(acc),
                Err(m) => Err(m),
            },
            q,
        )
    }
}

/// An expression that parses takes at least one token and ends within the
/// tokens: the parser always advances.
pub proof fn parse_expr_advances(toks: Seq<Tok>, pos: int, min_bp: int)
    requires
        0 <= pos,
    ensures
        parse_expr_spec(toks, pos, min_bp).0 is Ok ==> pos < parse_expr_spec(toks, pos, min_bp).1
            <= toks.len(),
    decreases toks.len() - pos, 2int,
{
    let (r, p) = parse_prefix_spec(toks, pos);
    parse_prefix_advances(toks, pos);
    if r is Ok && pos < p <= toks.len() {
        parse_infix_advances(toks, p, min_bp, r->Ok_0);
    }
}

/// An operand that parses takes at least one token and ends within the
/// tokens.
pub proof fn parse_prefix_advances(toks: Seq<Tok>, pos: int)
    requires
        0 <= pos,
    ensures
        parse_prefix_spec(toks, pos).0 is Ok ==> pos < parse_prefix_spec(toks, pos).1
            <= toks.len(),
    decreases toks.len() - pos, 1int,
{
    if pos < toks.len() {
        match toks[pos].kind {
            TokenType::LBrack => {
                parse_items_advances(toks, pos + 1, TokenType::RBrack);
            },
            TokenType::LBrace => {
                parse_fields_advances(toks, pos + 1);
            },
            TokenType::Name => {
                if peek_kind(toks, pos + 1) == Some(TokenType::LParen) {
                    parse_items_advances(toks, pos + 2, TokenType::RParen);
                }
            },
            TokenType::Minus => {
                parse_expr_advances(toks, pos + 1, 9);
            },
            TokenType::LParen => {
                parse_expr_advances(toks, pos + 1, 0);
            },
            _ => {},
        }
    }
}

/// The operators after an operand end within the tokens, at or after the
/// place they start.
pub proof fn parse_infix_advances(toks: Seq<Tok>, pos: int, min_bp: int, lhs: Expr)
    requires
        0 <= pos <= toks.len(),
    ensures
        parse_infix_spec(toks, pos, min_bp, lhs).0 is Ok ==> pos <= parse_infix_spec(
            toks,
            pos,
            min_bp,
            lhs,
        ).1 <= toks.len(),
    decreases toks.len() - pos, 0int,
{
    if pos < toks.len() {
        match infix_operator(toks[pos].kind) {
            Some((level, name)) => {
                if !(2 * level - 1 < min_bp) {
                    let (r, p) = parse_expr_spec(toks, pos + 1, 2 * level);
                    parse_expr_advances(toks, pos + 1, 2 * level);
                    if r is Ok && pos < p <= toks.len() {
                        parse_infix_advances(toks, p, min_bp, call_of(name, seq![lhs, r->Ok_0]));
                    }
                }
            },
            None => {
                if toks[pos].kind == TokenType::Dot && !(19 < min_bp) {
                    let (f, p) = expect_spec(toks, pos + 1, TokenType::Name);
                    if f is Ok && pos < p <= toks.len() {
                        parse_infix_advances(
                            toks,
                            p,
                            min_bp,
                            call_of("dot"@, seq![lhs, Expr::Str(f->Ok_0)]),
                        );
                    }
                }
            },
        }
    }
}

/// A list of expressions that parses takes at least its closing token and
/// ends within the tokens.
pub proof fn parse_items_advances(toks: Seq<Tok>, pos: int, close: TokenType)
    requires
        0 <= pos,
    ensures
        parse_items_spec(toks, pos, close).0 is Ok ==> pos < parse_items_spec(toks, pos, close).1
            <= toks.len(),
    decreases toks.len() - pos, 3int,
{
    if peek_kind(toks, pos) != Some(close) {
        let (r, p) = parse_expr_spec(toks, pos, 0);
        parse_expr_advances(toks, pos, 0);
        if r is Ok && pos < p <= toks.len() {
            parse_items_rest_advances(toks, p, close, seq![r->Ok_0]);
        }
    }
}

/// The rest of a list of expressions that parses takes at least its closing
/// token and ends within the tokens.
pub proof fn parse_items_rest_advances(toks: Seq<Tok>, pos: int, close: TokenType, acc: Seq<Expr>)
    requires
        0 <= pos,
    ensures
        parse_items_rest_spec(toks, pos, close, acc).0 is Ok ==> pos < parse_items_rest_spec(
            toks,
            pos,
            close,
            acc,
        ).1 <= toks.len(),
    decreases toks.len() - pos, 0int,
{
    if peek_kind(toks, pos) == Some(TokenType::Comma) {
        let (r, p) = parse_expr_spec(toks, pos + 1, 0);
        parse_expr_advances(toks, pos + 1, 0);
        if r is Ok && pos < p <= toks.len() {
            parse_items_rest_advances(toks, p, close, acc.push(r->Ok_0));
        }
    }
}

/// A field that parses takes at least one token and ends within the
/// tokens.
pub proof fn parse_field_advances(toks: Seq<Tok>, pos: int)
    requires
        0 <= pos,
    ensures
        parse_field_spec(toks, pos).0 is Ok ==> pos < parse_field_spec(toks, pos).1 <= toks.len(),
    decreases toks.len() - pos, 3int,
{
    let (n, p1) = expect_spec(toks, pos, TokenType::Name);
    if n is Ok {
        let (c, p2) = expect_spec(toks, p1, TokenType::Colon);
        if c is Ok {
            parse_expr_advances(toks, p2, 0);
        }
    }
}

/// The fields of a record that parse take at least the closing brace and
/// end within the tokens.
pub proof fn parse_fields_advances(toks: Seq<Tok>, pos: int)
    requires
        0 <= pos,
    ensures
        parse_fields_spec(toks, pos).0 is Ok ==> pos < parse_fields_spec(toks, pos).1
            <= toks.len(),
    decreases toks.len() - pos, 4int,
{
    if peek_kind(toks, pos) != Some(TokenType::RBrace) {
        let (r, p) = parse_field_spec(toks, pos);
        parse_field_advances(toks, pos);
        if r is Ok && pos < p <= toks.len() {
            parse_fields_rest_advances(
                toks,
                p,
                sorted_insert(Seq::empty(), r->Ok_0.0, r->Ok_0.1),
            );
        }
    }
}

/// The rest of the fields of a record that parse take at least the closing
/// brace and end within the tokens.
pub proof fn parse_fields_rest_advances(toks: Seq<Tok>, pos: int, acc: Seq<(Seq<char>, Expr)>)
    requires
        0 <= pos,
    ensures
        parse_fields_rest_spec(toks, pos, acc).0 is Ok ==> pos < parse_fields_rest_spec(
            toks,
            pos,
            acc,
        ).1 <= toks.len(),
    decreases toks.len() - pos, 0int,
{
    if peek_kind(toks, pos) == Some(TokenType::Comma) {
        let (r, p) = parse_field_spec(toks, pos + 1);
        parse_field_advances(toks, pos + 1);
        if r is Ok && pos < p <= toks.len() {
            parse_fields_rest_advances(toks, p, sorted_insert(acc, r->Ok_0.0, r->Ok_0.1));
        }
    }
}

/// What a text parses to: the expression that its tokens spell, or a parse
/// error. Tokens left over after the expression are an error, which takes
/// the place of any earlier one.
pub open spec fn parse_spec(text: Seq<char>) -> Result<Expr, Seq<char>> {
    let toks = tokenize(text);
    let (r, p) = parse_expr_spec(toks, 0, 0);
    if 0 <= p < toks.len() {
        Err(trailing_token(toks[p].text))
    } else {
        r
    }
}

/// Whether `s` can name a cell: a letter or an underscore, then letters,
/// digits and underscores.
pub open spec fn valid_name(s: Seq<char>) -> bool {
    &&& s.len() > 0
    &&& is_letter(s[0])
    &&& forall|i: int| 0 < i < s.len() ==> is_letter(#[trigger] s[i]) || is_digit(s[i])
}

/// A run of characters of a class goes on to the end of the text when all
/// the characters from its start on are of the class.
pub proof fn run_to_end(s: Seq<char>, pos: int, class: CharClass)
    requires
        0 <= pos <= s.len(),
        forall|i: int| pos <= i < s.len() ==> in_class(class, #[trigger] s[i]),
    ensures
        run_end(s, pos, class) == s.len(),
    decreases s.len() - pos,
{
    if pos < s.len() {
        run_to_end(s, pos + 1, class);
    }
}

/// A name that can name a cell is one token, a name, and parses to the
/// expression that is that name.
pub proof fn valid_name_parses(s: Seq<char>)
    requires
        valid_name(s),
    ensures
        tokenize(s) == seq![Tok { kind: TokenType::Name, text: s }],
        parse_spec(s) == Ok::<Expr, Seq<char>>(Expr::Name(s)),
{
    run_to_end(s, 1, CharClass::NamePart);
    assert(s.subrange(0, s.len() as int) =~= s);
    let tok = Tok { kind: TokenType::Name, text: s };
    assert(token_at(s, 0) == (TokenType::Name, s.len() as int));
    assert(lexer_next(s, 0) == Some((tok, s.len() as int)));
    assert(lexer_next(s, s.len() as int) is None);
    assert(tokens_from(s, s.len() as int) =~= Seq::empty());
    assert(tokens_from(s, 0) =~= seq![tok] + tokens_from(s, s.len() as int));
    assert(tokenize(s) =~= seq![tok]);
    let toks = tokenize(s);
    assert(parse_prefix_spec(toks, 0) == (Ok::<Expr, Seq<char>>(Expr::Name(s)), 1int));
    assert(parse_infix_spec(toks, 1, 0, Expr::Name(s)) == (
        Ok::<Expr, Seq<char>>(Expr::Name(s)),
        1int,
    ));
}

/// Decides whether `s` can name a cell.
pub fn validate_name(s: &str) -> (r: bool)
    ensures
        r == valid_name(s@),
{
    let chars = to_chars(s);
    if chars.len() == 0 {
        return false;
    }
    let first = chars[0];
    if !((first >= 'a' && first <= 'z') || (first >= 'A' && first <= 'Z') || first == '_') {
        return false;
    }
    let mut i: usize = 1;
    while i < chars.len()
        invariant
            1 <= i <= chars.len(),
            chars@ == s@,
            forall|j: int| 0 < j < i ==> is_letter(#[trigger] chars@[j]) || is_digit(chars@[j]),
        decreases chars.len() - i,
    {
        let c = chars[i];
        if !((c >= 'a' && c <= 'z') || (c >= 'A' && c <= 'Z') || c == '_' || (c >= '0' && c
            <= '9')) {
            return false;
        }
        i = i + 1;
    }
    true
}

/// The binding powers of a left-associative infix operator of the given
/// level: the left one is the lower.
fn assoc_left(bp: u8) -> (r: (u8, u8))
    requires
        1 <= bp <= 127,
    ensures
        r.0 == 2 * bp - 1,
        r.1 == 2 * bp,
{
    (bp * 2 - 1, bp * 2)
}

/// The binding power to the right of a prefix operator of the given level.
fn prefix(bp: u8) -> (r: ((), u8))
    requires
        1 <= bp <= 127,
    ensures
        r.1 == 2 * bp - 1,
{
    ((), bp * 2 - 1)
}

/// The binding power to the left of a postfix operator of the given level.
fn postfix(bp: u8) -> (r: (u8, ()))
    requires
        1 <= bp <= 127,
    ensures
        r.0 == 2 * bp - 1,
{
    (bp * 2 - 1, ())
}

/// The model of the outcome of parsing an expression.
pub open spec fn ast_result(r: Result<AST, Error>) -> Result<Expr, Seq<char>> {
    match r {
        Ok(ast) => Ok(ast@),
        Err(e) => Err(e@),
    }
}

/// The model of the outcome of parsing a list of expressions.
pub open spec fn asts_result(r: Result<Vec<AST>, Error>) -> Result<Seq<Expr>, Seq<char>> {
    match r {
        Ok(items) => Ok(asts_view(items@)),
        Err(e) => Err(e@),
    }
}

/// The model of the outcome of parsing one field.
pub open spec fn field_result(r: Result<(String, AST), Error>) -> Result<
    (Seq<char>, Expr),
    Seq<char>,
> {
    match r {
        Ok(field) => Ok((field.0@, field.1@)),
        Err(e) => Err(e@),
    }
}

/// The model of the outcome of parsing the fields of a record.
pub open spec fn fields_result(r: Result<Vec<(String, AST)>, Error>) -> Result<
    Seq<(Seq<char>, Expr)>,
    Seq<char>,
> {
    match r {
        Ok(fields) => Ok(fields_view(fields@)),
        Err(e) => Err(e@),
    }
}

/// The model of the outcome of taking one token.
pub open spec fn token_result(r: Result<Token, Error>) -> Result<Seq<char>, Seq<char>> {
    match r {
        Ok(t) => Ok(t.text@),
        Err(e) => Err(e@),
    }
}

/// Binds a field in the fields of a record literal, keeping them in key
/// order.
fn insert_field(fields: &mut Vec<(String, AST)>, key: String, value: AST)
    ensures
        fields_view(final(fields)@) == sorted_insert(fields_view(old(fields)@), key@, value@),
{
    proof {
        assert(keys_of(fields_view(fields@)) =~= entry_keys(fields@));
    }
    insert_sorted(fields, key, value);
    proof {
        assert(fields_view(fields@) =~= sorted_insert(fields_view(old(fields)@), key@, value@));
    }
}

/// A parser over the tokens of a text.
pub struct Parser<'a> {
    tokens: Vec<Token<'a>>,
    pos: usize,
}

impl<'a> Parser<'a> {
    /// The tokens that the parser reads.
    pub closed spec fn toks(&self) -> Seq<Tok> {
        Seq::new(self.tokens@.len(), |i: int| self.tokens@[i]@)
    }

    /// How many tokens the parser has taken.
    pub closed spec fn position(&self) -> int {
        self.pos as int
    }

    /// The parser's invariant: it has not read past its last token.
    #[verifier::type_invariant]
    spec fn wf(&self) -> bool {
        self.pos <= self.tokens.len()
    }

    /// A parser at the first token of `text`.
    pub fn new(text: &'a str) -> (parser: Parser<'a>)
        ensures
            parser.toks() == tokenize(text@),
            parser.position() == 0,
    {
        let mut lexer = Lexer::new(text);
        let mut tokens: Vec<Token<'a>> = Vec::new();
        loop
            invariant
                lexer.source() == text@,
                0 <= lexer.position(),
                tokenize(text@) == Seq::new(tokens@.len(), |i: int| tokens@[i]@) + tokens_from(
                    text@,
                    lexer.position(),
                ),
            decreases text@.len() - lexer.position(),
        {
            let ghost before = lexer.position();
            proof {
                crate::language::lexer::lexer_next_bounds(text@, before);
            }
            match lexer.next() {
                Some(t) => {
                    proof {
                        let done = Seq::new(tokens@.len(), |i: int| tokens@[i]@);
                        assert(Seq::new(tokens@.push(t).len(), |i: int| tokens@.push(t)[i]@)
                            =~= done + seq![t@]);
                        assert((done + seq![t@]) + tokens_from(text@, lexer.position()) =~= done
                            + (seq![t@] + tokens_from(text@, lexer.position())));
                    }
                    tokens.push(t);
                },
                None => {
                    let parser = Parser { tokens, pos: 0 };
                    assert(parser.toks() =~= tokenize(text@));
                    return parser;
                },
            }
        }
    }

    /// The next token, without taking it.
    pub fn peek(&self) -> (r: Option<Token<'a>>)
        ensures
            match r {
                Some(t) => 0 <= self.position() < self.toks().len() && t@
                    == self.toks()[self.position()],
                None => self.position() >= self.toks().len(),
            },
            (match r {
                Some(t) => Some(t.token_type),
                None => None,
            }) == peek_kind(self.toks(), self.position()),
    {
        if self.pos < self.tokens.len() {
            Some(self.tokens[self.pos])
        } else {
            None
        }
    }

    /// Takes the next token.
    pub fn next(&mut self) -> (r: Option<Token<'a>>)
        ensures
            final(self).position() <= final(self).toks().len(),
            final(self).toks() == old(self).toks(),
            match r {
                Some(t) => 0 <= old(self).position() < old(self).toks().len() && t@
                    == old(self).toks()[old(self).position()] && final(self).position() == old(
                    self,
                ).position() + 1,
                None => old(self).position() >= old(self).toks().len() && final(self).position()
                    == old(self).position(),
            },
    {
        proof {
            use_type_invariant(&*self);
        }
        if self.pos < self.tokens.len() {
            let t = self.tokens[self.pos];
            self.pos = self.pos + 1;
            Some(t)
        } else {
            None
        }
    }

    /// Takes the next token, whatever it is, and hands it out when it is of
    /// the given kind.
    pub fn expect_token(&mut self, token_type: TokenType) -> (r: Result<Token<'a>, Error>)
        ensures
            final(self).position() <= final(self).toks().len(),
            final(self).toks() == old(self).toks(),
            old(self).position() <= final(self).position() <= old(self).position() + 1,
            r is Ok ==> final(self).position() == old(self).position() + 1,
            (token_result(r), final(self).position()) == expect_spec(
                old(self).toks(),
                old(self).position(),
                token_type,
            ),
    {
        match self.next() {
            Some(t) => {
                if t.token_type == token_type {
                    Ok(t)
                } else {
                    Err(Error::parse_error("Unexpected token"))
                }
            },
            None => Err(Error::parse_error("Unexpected token")),
        }
    }

    /// Takes the next token when it is of the given kind.
    pub fn next_if_eq(&mut self, token_type: TokenType) -> (r: Option<Token<'a>>)
        ensures
            final(self).position() <= final(self).toks().len(),
            final(self).toks() == old(self).toks(),
            r is Some <==> peek_kind(old(self).toks(), old(self).position()) == Some(token_type),
            match r {
                Some(t) => t@ == old(self).toks()[old(self).position()] && final(self).position()
                    == old(self).position() + 1,
                None => final(self).position() == old(self).position(),
            },
    {
        proof {
            use_type_invariant(&*self);
        }
        if self.pos < self.tokens.len() && self.tokens[self.pos].token_type == token_type {
            let t = self.tokens[self.pos];
            self.pos = self.pos + 1;
            Some(t)
        } else {
            None
        }
    }

    /// The text of a string literal without its two quotes.
    fn unquoted(text: &str) -> (r: String)
        ensures
            r@ == unquote(text@),
    {
        let n = text.unicode_len();
        if n >= 2 {
            text.substring_char(1, n - 1).to_owned()
        } else {
            text.to_owned()
        }
    }

    /// Parses expressions separated by commas, up to and including the
    /// closing token.
    fn parse_items(&mut self, close: TokenType) -> (r: Result<Vec<AST>, Error>)
        ensures
            final(self).position() <= final(self).toks().len(),
            final(self).toks() == old(self).toks(),
            old(self).position() <= final(self).position(),
            (asts_result(r), final(self).position()) == parse_items_spec(
                old(self).toks(),
                old(self).position(),
                close,
            ),
        decreases old(self).toks().len() - old(self).position(), 3int,
    {
        let mut items: Vec<AST> = Vec::new();
        if self.next_if_eq(close).is_some() {
            assert(asts_view(items@) =~= Seq::empty());
            return Ok(items);
        }
        match self.parse_expr(0) {
            Ok(e) => {
                assert(asts_view(items@.push(e)) =~= seq![e@]);
                items.push(e);
            },
            Err(e) => {
                return Err(e);
            },
        }
        loop
            invariant
                self.position() <= self.toks().len(),
                self.toks() == old(self).toks(),
                old(self).position() < self.position(),
                parse_items_spec(old(self).toks(), old(self).position(), close)
                    == parse_items_rest_spec(
                    self.toks(),
                    self.position(),
                    close,
                    asts_view(items@),
                ),
            decreases self.tokens.len() - self.pos,
        {
            if self.next_if_eq(TokenType::Comma).is_some() {
                match self.parse_expr(0) {
                    Ok(e) => {
                        assert(asts_view(items@.push(e)) =~= asts_view(items@).push(e@));
                        items.push(e);
                    },
                    Err(e) => {
                        return Err(e);
                    },
                }
            } else {
                match self.expect_token(close) {
                    Ok(_) => {
                        return Ok(items);
                    },
                    Err(e) => {
                        return Err(e);
                    },
                }
            }
        }
    }

    /// Parses one field of a record: a name, a colon and an expression.
    fn parse_field(&mut self) -> (r: Result<(String, AST), Error>)
        ensures
            final(self).position() <= final(self).toks().len(),
            final(self).toks() == old(self).toks(),
            old(self).position() <= final(self).position(),
            r is Ok ==> old(self).position() < final(self).position(),
            (field_result(r), final(self).position()) == parse_field_spec(
                old(self).toks(),
                old(self).position(),
            ),
        decreases old(self).toks().len() - old(self).position(), 3int,
    {
        let name = match self.expect_token(TokenType::Name) {
            Ok(t) => t.text.to_owned(),
            Err(e) => {
                return Err(e);
            },
        };
        match self.expect_token(TokenType::Colon) {
            Ok(_) => {},
            Err(e) => {
                return Err(e);
            },
        }
        match self.parse_expr(0) {
            Ok(value) => Ok((name, value)),
            Err(e) => Err(e),
        }
    }

    /// Parses the fields of a record, up to and including the closing
    /// brace.
    fn parse_fields(&mut self) -> (r: Result<Vec<(String, AST)>, Error>)
        ensures
            final(self).position() <= final(self).toks().len(),
            final(self).toks() == old(self).toks(),
            old(self).position() <= final(self).position(),
            (fields_result(r), final(self).position()) == parse_fields_spec(
                old(self).toks(),
                old(self).position(),
            ),
        decreases old(self).toks().len() - old(self).position(), 4int,
    {
        let mut fields: Vec<(String, AST)> = Vec::new();
        if self.next_if_eq(TokenType::RBrace).is_some() {
            assert(fields_view(fields@) =~= Seq::empty());
            return Ok(fields);
        }
        assert(fields_view(fields@) =~= Seq::empty());
        match self.parse_field() {
            Ok(field) => {
                insert_field(&mut fields, field.0, field.1);
            },
            Err(e) => {
                return Err(e);
            },
        }
        loop
            invariant
                self.position() <= self.toks().len(),
                self.toks() == old(self).toks(),
                old(self).position() < self.position(),
                parse_fields_spec(old(self).toks(), old(self).position())
                    == parse_fields_rest_spec(self.toks(), self.position(), fields_view(fields@)),
            decreases self.tokens.len() - self.pos,
        {
            if self.next_if_eq(TokenType::Comma).is_some() {
                match self.parse_field() {
                    Ok(field) => {
                        insert_field(&mut fields, field.0, field.1);
                    },
                    Err(e) => {
                        return Err(e);
                    },
                }
            } else {
                match self.expect_token(TokenType::RBrace) {
                    Ok(_) => {
                        return Ok(fields);
                    },
                    Err(e) => {
                        return Err(e);
                    },
                }
            }
        }
    }

    /// Parses an operand.
    fn parse_prefix(&mut self) -> (r: Result<AST, Error>)
        ensures
            final(self).position() <= final(self).toks().len(),
            final(self).toks() == old(self).toks(),
            old(self).position() <= final(self).position(),
            r is Ok ==> old(self).position() < final(self).position(),
            (ast_result(r), final(self).position()) == parse_prefix_spec(
                old(self).toks(),
                old(self).position(),
            ),
        decreases old(self).toks().len() - old(self).position(), 1int,
    {
        let token = match self.next() {
            Some(t) => t,
            None => {
                return Err(Error::parse_error("Expected name or lit int"));
            },
        };
        match token.token_type {
            TokenType::IntLit => {
                let digits = to_chars(token.text);
                match parse_decimal(&digits) {
                    Some(i) => Ok(AST::integer(i)),
                    None => Err(Error::parse_error("Invalid int")),
                }
            },
            TokenType::StringLit => Ok(AST::string(Self::unquoted(token.text))),
            TokenType::LBrack => {
                match self.parse_items(TokenType::RBrack) {
                    Ok(items) => Ok(AST::list(items)),
                    Err(e) => Err(e),
                }
            },
            TokenType::LBrace => {
                match self.parse_fields() {
                    Ok(fields) => Ok(AST::record(fields)),
                    Err(e) => Err(e),
                }
            },
            TokenType::Name => {
                if self.next_if_eq(TokenType::LParen).is_some() {
                    match self.parse_items(TokenType::RParen) {
                        Ok(args) => Ok(AST::function(token.text, args)),
                        Err(e) => Err(e),
                    }
                } else {
                    Ok(AST::Name(token.text.to_owned()))
                }
            },
            TokenType::Minus => {
                let (_, right_bp) = prefix(5);
                match self.parse_expr(right_bp) {
                    Ok(rhs) => {
                        let args = vec![rhs];
                        assert(asts_view(args@) =~= seq![rhs@]);
                        Ok(AST::function("negate", args))
                    },
                    Err(e) => Err(e),
                }
            },
            TokenType::LParen => {
                let expr = match self.parse_expr(0) {
                    Ok(expr) => expr,
                    Err(e) => {
                        return Err(e);
                    },
                };
                match self.expect_token(TokenType::RParen) {
                    Ok(_) => Ok(expr),
                    Err(e) => Err(e),
                }
            },
            _ => Err(Error::parse_error("Expected name or lit int")),
        }
    }

    /// The level and the function name of an infix operator.
    fn infix_of(kind: TokenType) -> (r: Option<(u8, &'static str)>)
        ensures
            match r {
                Some((level, name)) => infix_operator(kind) == Some((level as int, name@)) && 1
                    <= level <= 2,
                None => infix_operator(kind) is None,
            },
    {
        match kind {
            TokenType::Plus => Some((1, "+")),
            TokenType::Minus => Some((1, "-")),
            TokenType::Star => Some((2, "*")),
            _ => None,
        }
    }

    /// Parses an expression whose operators bind at least as tightly as
    /// `min_bp`.
    pub fn parse_expr(&mut self, min_bp: u8) -> (r: Result<AST, Error>)
        ensures
            final(self).position() <= final(self).toks().len(),
            final(self).toks() == old(self).toks(),
            old(self).position() <= final(self).position(),
            r is Ok ==> old(self).position() < final(self).position(),
            (ast_result(r), final(self).position()) == parse_expr_spec(
                old(self).toks(),
                old(self).position(),
                min_bp as int,
            ),
        decreases old(self).toks().len() - old(self).position(), 2int,
    {
        let mut lhs = match self.parse_prefix() {
            Ok(lhs) => lhs,
            Err(e) => {
                return Err(e);
            },
        };
        loop
            invariant
                self.position() <= self.toks().len(),
                self.toks() == old(self).toks(),
                old(self).position() < self.position(),
                parse_expr_spec(old(self).toks(), old(self).position(), min_bp as int)
                    == parse_infix_spec(self.toks(), self.position(), min_bp as int, lhs@),
            decreases self.tokens.len() - self.pos,
        {
            let kind = match self.peek() {
                Some(t) => t.token_type,
                None => {
                    return Ok(lhs);
                },
            };
            match Self::infix_of(kind) {
                Some((level, name)) => {
                    let (left_bp, right_bp) = assoc_left(level);
                    if left_bp < min_bp {
                        return Ok(lhs);
                    }
                    self.next();
                    match self.parse_expr(right_bp) {
                        Ok(rhs) => {
                            let ghost left = lhs@;
                            let args = vec![lhs, rhs];
                            assert(asts_view(args@) =~= seq![left, rhs@]);
                            lhs = AST::function(name, args);
                        },
                        Err(e) => {
                            return Err(e);
                        },
                    }
                },
                None => {
                    if kind == TokenType::Dot {
                        let (left_bp, _) = postfix(10);
                        if left_bp < min_bp {
                            return Ok(lhs);
                        }
                        self.next();
                        let field = match self.expect_token(TokenType::Name) {
                            Ok(t) => t.text.to_owned(),
                            Err(e) => {
                                return Err(e);
                            },
                        };
                        let rhs = AST::string(field);
                        let ghost left = lhs@;
                        let ghost right = rhs@;
                        let args = vec![lhs, rhs];
                        assert(asts_view(args@) =~= seq![left, right]);
                        lhs = AST::function("dot", args);
                    } else {
                        return Ok(lhs);
                    }
                },
            }
        }
    }
}

/// Parses a text into an expression tree.
pub fn parse(text: &str) -> (r: Result<AST, Error>)
    ensures
        ast_result(r) == parse_spec(text@),
{
    let mut parser = Parser::new(text);
    let expr = parser.parse_expr(0);
    match parser.next() {
        None => expr,
        Some(t) => Err(Error::parse_error("Unexpected token: ".to_owned().concat(t.text).as_str())),
    }
}

} // verus!
