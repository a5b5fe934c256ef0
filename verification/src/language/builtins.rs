//! The fixed table of primitive operations.
use crate::language::text::str_eq;
use vstd::prelude::*;

verus! {

/// The tag of a primitive operation.
#[derive(Debug, Clone, Copy, PartialEq, Eq, Structural)]
pub enum BuiltinFunction {
    Add,
    Sub,
    Mul,
    Negate,
    Push,
    Read,
    Index,
    Dot,
    LessThan,
    GreaterThan,
    LessThanEqual,
    GreaterThanEqual,
    Equals,
    And,
    Or,
    Not,
    If,
    MapEach,
    Fold,
    Filter,
}

/// The source symbol of a primitive operation.
pub open spec fn builtin_symbol(builtin: BuiltinFunction) -> Seq<char> {
    match builtin {
        BuiltinFunction::Add => "+"@,
        BuiltinFunction::Sub => "-"@,
        BuiltinFunction::Mul => "*"@,
        BuiltinFunction::Negate => "negate"@,
        BuiltinFunction::Push => "push"@,
        BuiltinFunction::Read => "read"@,
        BuiltinFunction::Index => "index"@,
        BuiltinFunction::Dot => "dot"@,
        BuiltinFunction::LessThan => "<"@,
        BuiltinFunction::GreaterThan => ">"@,
        BuiltinFunction::LessThanEqual => "<="@,
        BuiltinFunction::GreaterThanEqual => ">="@,
        BuiltinFunction::Equals => "=="@,
        BuiltinFunction::And => "and"@,
        BuiltinFunction::Or => "or"@,
        BuiltinFunction::Not => "not"@,
        BuiltinFunction::If => "if"@,
        BuiltinFunction::MapEach => "map"@,
        BuiltinFunction::Fold => "fold"@,
        BuiltinFunction::Filter => "filter"@,
    }
}

/// The primitive operation that a symbol names, if any.
pub open spec fn builtin_named(name: Seq<char>) -> Option<BuiltinFunction> {
    if exists|b: BuiltinFunction| builtin_symbol(b) == name {
        Some(choose|b: BuiltinFunction| builtin_symbol(b) == name)
    } else {
        None
    }
}

/// No two primitive operations share a symbol.
pub proof fn builtin_symbols_distinct(a: BuiltinFunction, b: BuiltinFunction)
    requires
        builtin_symbol(a) == builtin_symbol(b),
    ensures
        a == b,
{
    reveal_strlit("+");
    reveal_strlit("-");
    reveal_strlit("*");
    reveal_strlit("negate");
    reveal_strlit("push");
    reveal_strlit("read");
    reveal_strlit("index");
    reveal_strlit("dot");
    reveal_strlit("<");
    reveal_strlit(">");
    reveal_strlit("<=");
    reveal_strlit(">=");
    reveal_strlit("==");
    reveal_strlit("and");
    reveal_strlit("or");
    reveal_strlit("not");
    reveal_strlit("if");
    reveal_strlit("map");
    reveal_strlit("fold");
    reveal_strlit("filter");
    let x = builtin_symbol(a);
    let y = builtin_symbol(b);
    assert(x.len() == y.len());
    assert(x[0] == y[0]);
    if x.len() > 1 {
        assert(x[1] == y[1]);
    }
}

/// Looking up the symbol of a primitive operation finds that operation.
pub proof fn builtin_named_symbol(b: BuiltinFunction)
    ensures
        builtin_named(builtin_symbol(b)) == Some(b),
{
    let found = choose|c: BuiltinFunction| builtin_symbol(c) == builtin_symbol(b);
    builtin_symbols_distinct(found, b);
}

/// Looks a symbol up in the table of primitive operations.
pub fn lookup_builtin(name: &str) -> (r: Option<BuiltinFunction>)
    ensures
        r == builtin_named(name@),
{
    let r = if str_eq(name, "+") {
        Some(BuiltinFunction::Add)
    } else if str_eq(name, "-") {
        Some(BuiltinFunction::Sub)
    } else if str_eq(name, "*") {
        Some(BuiltinFunction::Mul)
    } else if str_eq(name, "negate") {
        Some(BuiltinFunction::Negate)
    } else if str_eq(name, "push") {
        Some(BuiltinFunction::Push)
    } else if str_eq(name, "read") {
        Some(BuiltinFunction::Read)
    } else if str_eq(name, "index") {
        Some(BuiltinFunction::Index)
    } else if str_eq(name, "dot") {
        Some(BuiltinFunction::Dot)
    } else if str_eq(name, "<") {
        Some(BuiltinFunction::LessThan)
    } else if str_eq(name, ">") {
        Some(BuiltinFunction::GreaterThan)
    } else if str_eq(name, "<=") {
        Some(BuiltinFunction::LessThanEqual)
    } else if str_eq(name, ">=") {
        Some(BuiltinFunction::GreaterThanEqual)
    } else if str_eq(name, "==") {
        Some(BuiltinFunction::Equals)
    } else if str_eq(name, "and") {
        Some(BuiltinFunction::And)
    } else if str_eq(name, "or") {
        Some(BuiltinFunction::Or)
    } else if str_eq(name, "not") {
        Some(BuiltinFunction::Not)
    } else if str_eq(name, "if") {
        Some(BuiltinFunction::If)
    } else if str_eq(name, "map") {
        Some(BuiltinFunction::MapEach)
    } else if str_eq(name, "fold") {
        Some(BuiltinFunction::Fold)
    } else if str_eq(name, "filter") {
        Some(BuiltinFunction::Filter)
    } else {
        None
    };
    proof {
        match r {
            Some(b) => {
                assert(builtin_symbol(b) == name@);
                builtin_named_symbol(b);
            },
            None => {
                assert forall|b: BuiltinFunction| builtin_symbol(b) != name@ by {}
            },
        }
    }
    r
}

/// The source symbol of a primitive operation, as text.
pub fn stringify_builtin(builtin: BuiltinFunction) -> (r: String)
    ensures
        r@ == builtin_symbol(builtin),
{
    let symbol = match builtin {
        BuiltinFunction::Add => "+",
        BuiltinFunction::Sub => "-",
        BuiltinFunction::Mul => "*",
        BuiltinFunction::Negate => "negate",
        BuiltinFunction::Push => "push",
        BuiltinFunction::Read => "read",
        BuiltinFunction::Index => "index",
        BuiltinFunction::Dot => "dot",
        BuiltinFunction::LessThan => "<",
        BuiltinFunction::GreaterThan => ">",
        BuiltinFunction::LessThanEqual => "<=",
        BuiltinFunction::GreaterThanEqual => ">=",
        BuiltinFunction::Equals => "==",
        BuiltinFunction::And => "and",
        BuiltinFunction::Or => "or",
        BuiltinFunction::Not => "not",
        BuiltinFunction::If => "if",
        BuiltinFunction::MapEach => "map",
        BuiltinFunction::Fold => "fold",
        BuiltinFunction::Filter => "filter",
    };
    symbol.to_owned()
}

} // verus!
