//! The lexer: from source text to tokens.
use crate::language::text::{is_digit, to_chars};
use vstd::prelude::*;
use vstd::string::StrSliceExecFns;

verus! {

/// The kinds of token. `Whitespace` is skipped and never handed out;
/// `Error` stands for a character that starts no token.
#[derive(Debug, Clone, Copy, PartialEq, Eq, Structural)]
pub enum TokenType {
    Whitespace,
    Error,
    IntLit,
    StringLit,
    Name,
    LParen,
    RParen,
    LBrack,
    RBrack,
    LBrace,
    RBrace,
    Comma,
    Dot,
    Colon,
    Plus,
    Minus,
    Star,
}

/// A token: its kind and the piece of source text it covers.
#[derive(Debug, Clone, Copy)]
pub struct Token<'a> {
    pub token_type: TokenType,
    pub text: &'a str,
}

/// The mathematical model of a token.
pub struct Tok {
    pub kind: TokenType,
    pub text: Seq<char>,
}

impl<'a> View for Token<'a> {
    type V = Tok;

    open spec fn view(&self) -> Tok {
        Tok { kind: self.token_type, text: self.text@ }
    }
}

/// The classes of character that a token may run over.
#[derive(Debug, Clone, Copy, PartialEq, Eq, Structural)]
pub enum CharClass {
    Space,
    Digit,
    NamePart,
    StringBody,
}

/// Whether `c` is an ASCII letter or an underscore.
pub open spec fn is_letter(c: char) -> bool {
    ('a' <= c <= 'z') || ('A' <= c <= 'Z') || c == '_'
}

/// Whether `c` is blank.
pub open spec fn is_space(c: char) -> bool {
    c == ' ' || c == '\t' || c == '\n' || c == '\r'
}

/// Whether `c` belongs to the class.
pub open spec fn in_class(class: CharClass, c: char) -> bool {
    match class {
        CharClass::Space => is_space(c),
        CharClass::Digit => is_digit(c),
        CharClass::NamePart => is_letter(c) || is_digit(c),
        CharClass::StringBody => c != '"',
    }
}

/// Where the longest run of characters of the class that starts at `pos`
/// ends.
pub open spec fn run_end(s: Seq<char>, pos: int, class: CharClass) -> int
    decreases s.len() - pos,
{
    if 0 <= pos < s.len() && in_class(class, s[pos]) {
        run_end(s, pos + 1, class)
    } else {
        pos
    }
}

/// A run ends at or after its start and, when it starts inside the text,
/// inside the text or at its end.
pub proof fn run_end_bounds(s: Seq<char>, pos: int, class: CharClass)
    ensures
        pos <= run_end(s, pos, class),
        pos <= s.len() ==> run_end(s, pos, class) <= s.len(),
    decreases s.len() - pos,
{
    if 0 <= pos < s.len() && in_class(class, s[pos]) {
        run_end_bounds(s, pos + 1, class);
    }
}

/// The kind of the token that starts at `pos`, and where it ends. A double
/// quote without a closing one is an `Error` token of one character, as is
/// any character that starts no token.
pub open spec fn token_at(s: Seq<char>, pos: int) -> (TokenType, int)
    recommends
        0 <= pos < s.len(),
{
    let c = s[pos];
    if is_space(c) {
        (TokenType::Whitespace, run_end(s, pos + 1, CharClass::Space))
    } else if c == '(' {
        (TokenType::LParen, pos + 1)
    } else if c == ')' {
        (TokenType::RParen, pos + 1)
    } else if c == '[' {
        (TokenType::LBrack, pos + 1)
    } else if c == ']' {
        (TokenType::RBrack, pos + 1)
    } else if c == '{' {
        (TokenType::LBrace, pos + 1)
    } else if c == '}' {
        (TokenType::RBrace, pos + 1)
    } else if c == ',' {
        (TokenType::Comma, pos + 1)
    } else if c == '.' {
        (TokenType::Dot, pos + 1)
    } else if c == ':' {
        (TokenType::Colon, pos + 1)
    } else if c == '+' {
        (TokenType::Plus, pos + 1)
    } else if c == '-' {
        (TokenType::Minus, pos + 1)
    } else if c == '*' {
        (TokenType::Star, pos + 1)
    } else if is_digit(c) {
        (TokenType::IntLit, run_end(s, pos + 1, CharClass::Digit))
    } else if c == '"' {
        let close = run_end(s, pos + 1, CharClass::StringBody);
        if close < s.len() {
            (TokenType::StringLit, close + 1)
        } else {
            (TokenType::Error, pos + 1)
        }
    } else if is_letter(c) || c == '$' {
        (TokenType::Name, run_end(s, pos + 1, CharClass::NamePart))
    } else {
        (TokenType::Error, pos + 1)
    }
}

/// Every token covers at least one character and ends inside the text.
pub proof fn token_at_bounds(s: Seq<char>, pos: int)
    requires
        0 <= pos < s.len(),
    ensures
        pos < token_at(s, pos).1 <= s.len(),
{
    run_end_bounds(s, pos + 1, CharClass::Space);
    run_end_bounds(s, pos + 1, CharClass::Digit);
    run_end_bounds(s, pos + 1, CharClass::NamePart);
    run_end_bounds(s, pos + 1, CharClass::StringBody);
}

/// The first token at or after `pos` that is not whitespace, and where it
/// ends; nothing when only whitespace is left.
pub open spec fn lexer_next(s: Seq<char>, pos: int) -> Option<(Tok, int)>
    decreases s.len() - pos,
{
    if 0 <= pos < s.len() {
        let (kind, end) = token_at(s, pos);
        if kind == TokenType::Whitespace {
            proof {
                token_at_bounds(s, pos);
            }
            lexer_next(s, end)
        } else {
            Some((Tok { kind, text: s.subrange(pos, end) }, end))
        }
    } else {
        None
    }
}

/// A token handed out ends after the position the search started from, and
/// inside the text.
pub proof fn lexer_next_bounds(s: Seq<char>, pos: int)
    requires
        0 <= pos,
    ensures
        lexer_next(s, pos) matches Some((_, end)) ==> pos < end <= s.len(),
    decreases s.len() - pos,
{
    if 0 <= pos < s.len() {
        token_at_bounds(s, pos);
        let (kind, end) = token_at(s, pos);
        if kind == TokenType::Whitespace {
            lexer_next_bounds(s, end);
        }
    }
}

/// The tokens of the text from `pos` on.
pub open spec fn tokens_from(s: Seq<char>, pos: int) -> Seq<Tok>
    decreases s.len() - pos,
{
    if 0 <= pos {
        match lexer_next(s, pos) {
            Some((tok, end)) => {
                proof {
                    lexer_next_bounds(s, pos);
                }
                seq![tok] + tokens_from(s, end)
            },
            None => Seq::empty(),
        }
    } else {
        Seq::empty()
    }
}

/// The tokens of a text.
pub open spec fn tokenize(s: Seq<char>) -> Seq<Tok> {
    tokens_from(s, 0)
}

/// Whether `c` belongs to the class.
fn class_holds(class: CharClass, c: char) -> (r: bool)
    ensures
        r == in_class(class, c),
{
    match class {
        CharClass::Space => c == ' ' || c == '\t' || c == '\n' || c == '\r',
        CharClass::Digit => c >= '0' && c <= '9',
        CharClass::NamePart => (c >= 'a' && c <= 'z') || (c >= 'A' && c <= 'Z') || c == '_' || (c
            >= '0' && c <= '9'),
        CharClass::StringBody => c != '"',
    }
}

/// Finds the end of the run of characters of the class that starts at `pos`.
fn scan(chars: &Vec<char>, pos: usize, class: CharClass) -> (end: usize)
    requires
        pos <= chars.len(),
    ensures
        end == run_end(chars@, pos as int, class),
        pos <= end <= chars.len(),
{
    let mut end: usize = pos;
    while end < chars.len() && class_holds(class, chars[end])
        invariant
            pos <= end <= chars.len(),
            run_end(chars@, pos as int, class) == run_end(chars@, end as int, class),
        decreases chars.len() - end,
    {
        end = end + 1;
    }
    end
}

/// Finds the kind and the end of the token that starts at `pos`.
fn scan_token(chars: &Vec<char>, pos: usize) -> (r: (TokenType, usize))
    requires
        pos < chars.len(),
    ensures
        r.0 == token_at(chars@, pos as int).0,
        r.1 == token_at(chars@, pos as int).1,
        pos < r.1 <= chars.len(),
{
    proof {
        token_at_bounds(chars@, pos as int);
    }
    let c = chars[pos];
    if c == ' ' || c == '\t' || c == '\n' || c == '\r' {
        (TokenType::Whitespace, scan(chars, pos + 1, CharClass::Space))
    } else if c == '(' {
        (TokenType::LParen, pos + 1)
    } else if c == ')' {
        (TokenType::RParen, pos + 1)
    } else if c == '[' {
        (TokenType::LBrack, pos + 1)
    } else if c == ']' {
        (TokenType::RBrack, pos + 1)
    } else if c == '{' {
        (TokenType::LBrace, pos + 1)
    } else if c == '}' {
        (TokenType::RBrace, pos + 1)
    } else if c == ',' {
        (TokenType::Comma, pos + 1)
    } else if c == '.' {
        (TokenType::Dot, pos + 1)
    } else if c == ':' {
        (TokenType::Colon, pos + 1)
    } else if c == '+' {
        (TokenType::Plus, pos + 1)
    } else if c == '-' {
        (TokenType::Minus, pos + 1)
    } else if c == '*' {
        (TokenType::Star, pos + 1)
    } else if c >= '0' && c <= '9' {
        (TokenType::IntLit, scan(chars, pos + 1, CharClass::Digit))
    } else if c == '"' {
        let close = scan(chars, pos + 1, CharClass::StringBody);
        if close < chars.len() {
            (TokenType::StringLit, close + 1)
        } else {
            (TokenType::Error, pos + 1)
        }
    } else if (c >= 'a' && c <= 'z') || (c >= 'A' && c <= 'Z') || c == '_' || c == '$' {
        (TokenType::Name, scan(chars, pos + 1, CharClass::NamePart))
    } else {
        (TokenType::Error, pos + 1)
    }
}

/// A lexer over a source text: hands out its tokens one by one.
pub struct Lexer<'a> {
    text: &'a str,
    chars: Vec<char>,
    pos: usize,
}

impl<'a> Lexer<'a> {
    /// The text that the lexer reads.
    pub closed spec fn source(&self) -> Seq<char> {
        self.text@
    }

    /// How many characters the lexer has read.
    pub closed spec fn position(&self) -> int {
        self.pos as int
    }

    /// The lexer's invariant: it has not read past the end of its text.
    #[verifier::type_invariant]
    spec fn wf(&self) -> bool {
        &&& self.chars@ == self.text@
        &&& self.pos <= self.chars.len()
    }

    /// A lexer at the start of `text`.
    pub fn new(text: &'a str) -> (lexer: Lexer<'a>)
        ensures
            lexer.source() == text@,
            lexer.position() == 0,
    {
        Lexer { text, chars: to_chars(text), pos: 0 }
    }

    /// Hands out the next token that is not whitespace, or nothing at the end
    /// of the text.
    pub fn next(&mut self) -> (r: Option<Token<'a>>)
        ensures
            final(self).source() == old(self).source(),
            0 <= old(self).position() <= final(self).position(),
            match lexer_next(old(self).source(), old(self).position()) {
                Some((tok, end)) => r matches Some(t) && t@ == tok && final(self).position()
                    == end,
                None => r is None,
            },
    {
        proof {
            use_type_invariant(&*self);
        }
        loop
            invariant
                self.wf(),
                self.source() == old(self).source(),
                old(self).position() <= self.position(),
                lexer_next(old(self).source(), old(self).position()) == lexer_next(
                    self.source(),
                    self.position(),
                ),
            decreases self.chars.len() - self.pos,
        {
            if self.pos >= self.chars.len() {
                return None;
            }
            let start = self.pos;
            let (kind, end) = scan_token(&self.chars, start);
            self.pos = end;
            if kind != TokenType::Whitespace {
                let text = self.text.substring_char(start, end);
                return Some(Token { token_type: kind, text });
            }
        }
    }
}

} // verus!
