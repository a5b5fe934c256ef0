//! Records are kept in key order: the parser makes them so, and evaluation
//! keeps them so.
use crate::language::ast::{sorted_fields, Expr, Val};
use crate::language::keyed::{
    keys_of, lower_bound, lower_bound_from_found, sorted_insert, sorted_insert_keeps_order,
    strictly_sorted,
};
use crate::language::lexer::{tokenize, Tok, TokenType};
use crate::language::parser::{
    call_of, expect_spec, infix_operator, parse_expr_spec, parse_field_spec, parse_fields_rest_spec,
    parse_fields_spec, parse_infix_spec, parse_items_rest_spec, parse_items_spec, parse_prefix_spec,
    parse_spec, peek_kind,
};
use crate::language::semantics::{
    capture, capture_bindings, capture_fields, capture_items, embed, embed_entries, embed_items,
    is_cell_reference, latest, local,
};
use vstd::prelude::*;

verus! {

/// Whether every record in the expression has its fields in strictly
/// ascending key order.
pub open spec fn ordered_expr(e: Expr) -> bool
    decreases e, 0int,
{
    match e {
        Expr::Record(fields) => strictly_sorted(keys_of(fields)) && ordered_fields(fields),
        Expr::List(items) => ordered_exprs(items),
        Expr::Lambda(_, body) => ordered_expr(*body),
        Expr::Call(f, args) => ordered_expr(*f) && ordered_exprs(args),
        Expr::FieldAccess(record, _) => ordered_expr(*record),
        Expr::Let(bindings, body) => ordered_fields(bindings) && ordered_expr(*body),
        _ => true,
    }
}

/// Whether every expression of the list is ordered.
pub open spec fn ordered_exprs(items: Seq<Expr>) -> bool
    decreases items, 0int,
{
    forall|i: int| 0 <= i < items.len() ==> ordered_expr(#[trigger] items[i])
}

/// Whether the expression of every entry is ordered.
pub open spec fn ordered_fields(fields: Seq<(Seq<char>, Expr)>) -> bool
    decreases fields, 0int,
{
    forall|i: int| 0 <= i < fields.len() ==> ordered_expr((#[trigger] fields[i]).1)
}

/// Whether every record in the value has its entries in strictly ascending
/// key order.
pub open spec fn ordered_val(v: Val) -> bool
    decreases v, 0int,
{
    match v {
        Val::Record(entries) => strictly_sorted(keys_of(entries)) && ordered_entries(entries),
        Val::List(items) => ordered_vals(items),
        Val::Lambda(_, body) => ordered_expr(body),
        _ => true,
    }
}

/// Whether every value of the list is ordered.
pub open spec fn ordered_vals(items: Seq<Val>) -> bool
    decreases items, 0int,
{
    forall|i: int| 0 <= i < items.len() ==> ordered_val(#[trigger] items[i])
}

/// Whether the value of every entry is ordered.
pub open spec fn ordered_entries(entries: Seq<(Seq<char>, Val)>) -> bool
    decreases entries, 0int,
{
    forall|i: int| 0 <= i < entries.len() ==> ordered_val((#[trigger] entries[i]).1)
}

/// Every entry of a list after a key is bound in it is the new entry or an
/// entry of the list before.
pub proof fn sorted_insert_entries<V>(s: Seq<(Seq<char>, V)>, key: Seq<char>, value: V, j: int)
    requires
        0 <= j < sorted_insert(s, key, value).len(),
    ensures
        sorted_insert(s, key, value)[j] == (key, value) || exists|i: int|
            0 <= i < s.len() && sorted_insert(s, key, value)[j] == #[trigger] s[i],
{
    let i = lower_bound(keys_of(s), key);
    lower_bound_from_found(keys_of(s), key, 0);
    let r = sorted_insert(s, key, value);
    if i < s.len() && s[i].0 == key {
        if j != i {
            assert(r[j] == s[j]);
        }
    } else {
        if j < i {
            assert(r[j] == s[j]);
        } else if j > i {
            assert(r[j] == s[j - 1]);
        }
    }
}

/// Binding an ordered expression in ordered fields leaves ordered fields.
pub proof fn sorted_insert_ordered(fields: Seq<(Seq<char>, Expr)>, key: Seq<char>, value: Expr)
    requires
        ordered_fields(fields),
        ordered_expr(value),
    ensures
        ordered_fields(sorted_insert(fields, key, value)),
{
    let r = sorted_insert(fields, key, value);
    assert forall|j: int| 0 <= j < r.len() implies ordered_expr((#[trigger] r[j]).1) by {
        sorted_insert_entries(fields, key, value, j);
    }
}

/// Ordered expressions bound one after the other make the ordered fields
/// of a record in key order.
pub proof fn sorted_fields_ordered(fields: Seq<(Seq<char>, Expr)>, n: int)
    requires
        ordered_fields(fields),
    ensures
        strictly_sorted(keys_of(sorted_fields(fields, n))),
        ordered_fields(sorted_fields(fields, n)),
    decreases n,
{
    if 0 < n <= fields.len() {
        sorted_fields_ordered(fields, n - 1);
        assert(ordered_expr(fields[n - 1].1));
        sorted_insert_keeps_order(sorted_fields(fields, n - 1), fields[n - 1].0, fields[n - 1].1);
        sorted_insert_ordered(sorted_fields(fields, n - 1), fields[n - 1].0, fields[n - 1].1);
    }
}

/// A value that is ordered is an ordered expression as a literal.
pub proof fn embed_ordered(v: Val)
    requires
        ordered_val(v),
    ensures
        ordered_expr(embed(v)),
    decreases v,
{
    match v {
        Val::Record(entries) => {
            let fields = embed_entries(entries);
            assert(ordered_entries(entries));
            assert(keys_of(fields) =~= keys_of(entries));
            assert forall|i: int| 0 <= i < fields.len() implies ordered_expr(
                (#[trigger] fields[i]).1,
            ) by {
                assert(ordered_val(entries[i].1));
                embed_ordered(entries[i].1);
            }
            assert(ordered_fields(fields));
        },
        Val::List(items) => {
            let exprs = embed_items(items);
            assert(ordered_vals(items));
            assert forall|i: int| 0 <= i < exprs.len() implies ordered_expr(
                #[trigger] exprs[i],
            ) by {
                assert(ordered_val(items[i]));
                embed_ordered(items[i]);
            }
            assert(ordered_exprs(exprs));
        },
        _ => {},
    }
}

/// The value of a local name in a scope of ordered values is ordered.
pub proof fn latest_ordered(scope: Seq<(Seq<char>, Val)>, name: Seq<char>, n: int)
    requires
        ordered_entries(scope),
    ensures
        latest(scope, name, n) matches Some(v) ==> ordered_val(v),
    decreases n,
{
    if 0 < n <= scope.len() {
        if scope[n - 1].0 == name {
            assert(ordered_val(scope[n - 1].1));
        } else {
            latest_ordered(scope, name, n - 1);
        }
    }
}

/// Putting ordered values into an ordered expression leaves it ordered.
pub proof fn capture_ordered(scope: Seq<(Seq<char>, Val)>, bound: Seq<Seq<char>>, e: Expr)
    requires
        ordered_entries(scope),
        ordered_expr(e),
    ensures
        ordered_expr(capture(scope, bound, e)),
    decreases e,
{
    match e {
        Expr::Record(fields) => {
            let captured = capture_fields(scope, bound, fields);
            assert(ordered_fields(fields));
            assert(keys_of(captured) =~= keys_of(fields));
            assert forall|i: int| 0 <= i < captured.len() implies ordered_expr(
                (#[trigger] captured[i]).1,
            ) by {
                assert(ordered_expr(fields[i].1));
                capture_ordered(scope, bound, fields[i].1);
            }
            assert(ordered_fields(captured));
        },
        Expr::List(items) => {
            capture_items_ordered(scope, bound, items);
        },
        Expr::Lambda(params, body) => {
            capture_ordered(scope, bound + params, *body);
        },
        Expr::Name(n) => {
            latest_ordered(scope, n, scope.len() as int);
            if !(is_cell_reference(n) || bound.contains(n)) {
                if local(scope, n) is Some {
                    embed_ordered(local(scope, n)->Some_0);
                }
            }
        },
        Expr::Call(f, args) => {
            capture_ordered(scope, bound, *f);
            capture_items_ordered(scope, bound, args);
        },
        Expr::FieldAccess(record, field) => {
            capture_ordered(scope, bound, *record);
        },
        Expr::Let(bindings, body) => {
            let captured = capture_bindings(scope, bound, bindings);
            assert(ordered_fields(bindings));
            assert forall|i: int| 0 <= i < captured.len() implies ordered_expr(
                (#[trigger] captured[i]).1,
            ) by {
                assert(ordered_expr(bindings[i].1));
                capture_ordered(scope, bound + keys_of(bindings).take(i), bindings[i].1);
            }
            assert(ordered_fields(captured));
            capture_ordered(scope, bound + keys_of(bindings), *body);
        },
        _ => {},
    }
}

/// Putting ordered values into ordered expressions leaves them ordered.
pub proof fn capture_items_ordered(
    scope: Seq<(Seq<char>, Val)>,
    bound: Seq<Seq<char>>,
    items: Seq<Expr>,
)
    requires
        ordered_entries(scope),
        ordered_exprs(items),
    ensures
        ordered_exprs(capture_items(scope, bound, items)),
    decreases items,
{
    let captured = capture_items(scope, bound, items);
    assert forall|i: int| 0 <= i < captured.len() implies ordered_expr(#[trigger] captured[i]) by {
        assert(ordered_expr(items[i]));
        capture_ordered(scope, bound, items[i]);
    }
}

/// A call of a named function on ordered arguments is ordered.
pub proof fn call_ordered(name: Seq<char>, args: Seq<Expr>)
    requires
        ordered_exprs(args),
    ensures
        ordered_expr(call_of(name, args)),
{
    assert(ordered_expr(Expr::Name(name)));
}

/// An expression that parses is ordered.
pub proof fn parse_expr_ordered(toks: Seq<Tok>, pos: int, min_bp: int)
    requires
        0 <= pos,
    ensures
        parse_expr_spec(toks, pos, min_bp).0 matches Ok(e) ==> ordered_expr(e),
    decreases toks.len() - pos, 2int,
{
    let (r, p) = parse_prefix_spec(toks, pos);
    parse_prefix_ordered(toks, pos);
    if r is Ok && pos < p <= toks.len() {
        parse_infix_ordered(toks, p, min_bp, r->Ok_0);
    }
}

/// An operand that parses is ordered.
pub proof fn parse_prefix_ordered(toks: Seq<Tok>, pos: int)
    requires
        0 <= pos,
    ensures
        parse_prefix_spec(toks, pos).0 matches Ok(e) ==> ordered_expr(e),
    decreases toks.len() - pos, 1int,
{
    if pos < toks.len() {
        let tok = toks[pos];
        match tok.kind {
            TokenType::LBrack => {
                parse_items_ordered(toks, pos + 1, TokenType::RBrack);
            },
            TokenType::LBrace => {
                parse_fields_ordered(toks, pos + 1);
            },
            TokenType::Name => {
                if peek_kind(toks, pos + 1) == Some(TokenType::LParen) {
                    parse_items_ordered(toks, pos + 2, TokenType::RParen);
                    let r = parse_items_spec(toks, pos + 2, TokenType::RParen).0;
                    if r is Ok {
                        call_ordered(tok.text, r->Ok_0);
                    }
                }
            },
            TokenType::Minus => {
                parse_expr_ordered(toks, pos + 1, 9);
                let r = parse_expr_spec(toks, pos + 1, 9).0;
                if r is Ok {
                    call_ordered("negate"@, seq![r->Ok_0]);
                }
            },
            TokenType::LParen => {
                parse_expr_ordered(toks, pos + 1, 0);
            },
            _ => {},
        }
    }
}

/// The operators after an ordered operand give an ordered expression.
pub proof fn parse_infix_ordered(toks: Seq<Tok>, pos: int, min_bp: int, lhs: Expr)
    requires
        0 <= pos,
        ordered_expr(lhs),
    ensures
        parse_infix_spec(toks, pos, min_bp, lhs).0 matches Ok(e) ==> ordered_expr(e),
    decreases toks.len() - pos, 0int,
{
    if pos < toks.len() {
        match infix_operator(toks[pos].kind) {
            Some((level, name)) => {
                if !(2 * level - 1 < min_bp) {
                    let (r, p) = parse_expr_spec(toks, pos + 1, 2 * level);
                    parse_expr_ordered(toks, pos + 1, 2 * level);
                    if r is Ok && pos < p <= toks.len() {
                        call_ordered(name, seq![lhs, r->Ok_0]);
                        parse_infix_ordered(toks, p, min_bp, call_of(name, seq![lhs, r->Ok_0]));
                    }
                }
            },
            None => {
                if toks[pos].kind == TokenType::Dot && !(19 < min_bp) {
                    let (f, p) = expect_spec(toks, pos + 1, TokenType::Name);
                    if f is Ok && pos < p <= toks.len() {
                        let field = Expr::Str(f->Ok_0);
                        assert(ordered_expr(field));
                        call_ordered("dot"@, seq![lhs, field]);
                        parse_infix_ordered(toks, p, min_bp, call_of("dot"@, seq![lhs, field]));
                    }
                }
            },
        }
    }
}

/// The expressions of a list that parses are ordered.
pub proof fn parse_items_ordered(toks: Seq<Tok>, pos: int, close: TokenType)
    requires
        0 <= pos,
    ensures
        parse_items_spec(toks, pos, close).0 matches Ok(items) ==> ordered_exprs(items),
    decreases toks.len() - pos, 3int,
{
    if peek_kind(toks, pos) != Some(close) {
        let (r, p) = parse_expr_spec(toks, pos, 0);
        parse_expr_ordered(toks, pos, 0);
        if r is Ok && pos < p <= toks.len() {
            parse_items_rest_ordered(toks, p, close, seq![r->Ok_0]);
        }
    }
}

/// The expressions of the rest of a list that parses are ordered.
pub proof fn parse_items_rest_ordered(toks: Seq<Tok>, pos: int, close: TokenType, acc: Seq<Expr>)
    requires
        0 <= pos,
        ordered_exprs(acc),
    ensures
        parse_items_rest_spec(toks, pos, close, acc).0 matches Ok(items) ==> ordered_exprs(items),
    decreases toks.len() - pos, 0int,
{
    if peek_kind(toks, pos) == Some(TokenType::Comma) {
        let (r, p) = parse_expr_spec(toks, pos + 1, 0);
        parse_expr_ordered(toks, pos + 1, 0);
        if r is Ok && pos < p <= toks.len() {
            parse_items_rest_ordered(toks, p, close, acc.push(r->Ok_0));
        }
    }
}

/// The expression of a field that parses is ordered.
pub proof fn parse_field_ordered(toks: Seq<Tok>, pos: int)
    requires
        0 <= pos,
    ensures
        parse_field_spec(toks, pos).0 matches Ok(field) ==> ordered_expr(field.1),
    decreases toks.len() - pos, 3int,
{
    let (n, p1) = expect_spec(toks, pos, TokenType::Name);
    if n is Ok {
        let (c, p2) = expect_spec(toks, p1, TokenType::Colon);
        if c is Ok {
            parse_expr_ordered(toks, p2, 0);
        }
    }
}

/// The fields of a record that parses are in key order, and their
/// expressions are ordered.
pub proof fn parse_fields_ordered(toks: Seq<Tok>, pos: int)
    requires
        0 <= pos,
    ensures
        parse_fields_spec(toks, pos).0 matches Ok(fields) ==> strictly_sorted(keys_of(fields))
            && ordered_fields(fields),
    decreases toks.len() - pos, 4int,
{
    if peek_kind(toks, pos) != Some(TokenType::RBrace) {
        let (r, p) = parse_field_spec(toks, pos);
        parse_field_ordered(toks, pos);
        if r is Ok && pos < p <= toks.len() {
            let none: Seq<(Seq<char>, Expr)> = Seq::empty();
            sorted_insert_keeps_order(none, r->Ok_0.0, r->Ok_0.1);
            sorted_insert_ordered(none, r->Ok_0.0, r->Ok_0.1);
            parse_fields_rest_ordered(toks, p, sorted_insert(none, r->Ok_0.0, r->Ok_0.1));
        }
    }
}

/// The fields of the rest of a record that parses are in key order, and
/// their expressions are ordered.
pub proof fn parse_fields_rest_ordered(toks: Seq<Tok>, pos: int, acc: Seq<(Seq<char>, Expr)>)
    requires
        0 <= pos,
        strictly_sorted(keys_of(acc)),
        ordered_fields(acc),
    ensures
        parse_fields_rest_spec(toks, pos, acc).0 matches Ok(fields) ==> strictly_sorted(
            keys_of(fields),
        ) && ordered_fields(fields),
    decreases toks.len() - pos, 0int,
{
    if peek_kind(toks, pos) == Some(TokenType::Comma) {
        let (r, p) = parse_field_spec(toks, pos + 1);
        parse_field_ordered(toks, pos + 1);
        if r is Ok && pos < p <= toks.len() {
            sorted_insert_keeps_order(acc, r->Ok_0.0, r->Ok_0.1);
            sorted_insert_ordered(acc, r->Ok_0.0, r->Ok_0.1);
            parse_fields_rest_ordered(toks, p, sorted_insert(acc, r->Ok_0.0, r->Ok_0.1));
        }
    }
}

/// Every record in an expression that a text parses to has its fields in
/// strictly ascending key order.
pub proof fn parse_ordered(text: Seq<char>)
    ensures
        parse_spec(text) matches Ok(e) ==> ordered_expr(e),
{
    parse_expr_ordered(tokenize(text), 0, 0);
}

} // verus!
