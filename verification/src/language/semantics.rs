//! The meaning of expressions: what evaluating an expression gives, which
//! cells it reads and which values it pushes. The interpreter is proved
//! against these definitions.
use crate::language::ast::{Expr, Val};
use crate::language::builtins::{builtin_named, BuiltinFunction};
use crate::language::errors::propagated_message;
use crate::language::keyed::{keys_of, lookup};
use crate::reactive::language::{record_push, record_read, Effects};
use crate::reactive::model::{cell_value, CellModel};
use vstd::prelude::*;

verus! {

/// What an evaluation reads and never changes: the cells of the sheet, and
/// the values that were pushed into the cell under evaluation.
pub struct Env {
    pub cells: Seq<CellModel>,
    pub inbox: Seq<Val>,
}

/// The message of an evaluation that nests deeper than the sheet allows.
pub open spec fn too_deep() -> Seq<char> {
    "Evaluation nested too deeply"@
}

/// The message for a `$` reference to a cell that does not exist.
pub open spec fn unknown_cell(cell: Seq<char>) -> Seq<char> {
    "Unknown cell name "@ + cell
}

/// The message for a name that nothing defines.
pub open spec fn unknown_name(name: Seq<char>) -> Seq<char> {
    "Unknown name "@ + name
}

/// The message for a record without the field asked for.
pub open spec fn no_field() -> Seq<char> {
    "Field does not exist"@
}

/// The message for a field access on a value that is no record.
pub open spec fn not_a_record() -> Seq<char> {
    "Cannot access the field of a non-record type"@
}

/// The message for a call of a function value with the wrong number of
/// arguments.
pub open spec fn wrong_arity() -> Seq<char> {
    "Incorrect number of arguments"@
}

/// The message for a primitive operation applied to arguments of the wrong
/// number or type.
pub open spec fn invalid_arguments() -> Seq<char> {
    "Invalid arguments"@
}

/// The message for an index outside a list.
pub open spec fn out_of_range() -> Seq<char> {
    "Index out of range"@
}

/// The message for a call of a value that is no function.
pub open spec fn uncallable() -> Seq<char> {
    "Uncallable type"@
}

/// The value that the last of the first `n` bindings of `name` gives to it.
pub open spec fn latest<V>(scope: Seq<(Seq<char>, V)>, name: Seq<char>, n: int) -> Option<V>
    decreases n,
{
    if n <= 0 || n > scope.len() {
        None
    } else if scope[n - 1].0 == name {
        Some(scope[n - 1].1)
    } else {
        latest(scope, name, n - 1)
    }
}

/// The value of a local name: that of its innermost binding.
pub open spec fn local<V>(scope: Seq<(Seq<char>, V)>, name: Seq<char>) -> Option<V> {
    latest(scope, name, scope.len() as int)
}

/// Whether the name refers to a cell whatever else is in scope: it begins
/// with `$`.
pub open spec fn is_cell_reference(name: Seq<char>) -> bool {
    name.len() > 0 && name[0] == '$'
}

/// The value as the literal expression that evaluates to it.
pub open spec fn embed(v: Val) -> Expr
    decreases v, 0int,
{
    match v {
        Val::Unit => Expr::Unit,
        Val::Integer(i) => Expr::Integer(i),
        Val::Str(s) => Expr::Str(s),
        Val::Boolean(b) => Expr::Boolean(b),
        Val::Record(entries) => Expr::Record(embed_entries(entries)),
        Val::List(items) => Expr::List(embed_items(items)),
        Val::Builtin(b) => Expr::Builtin(b),
        Val::Lambda(params, body) => Expr::Lambda(params, Box::new(body)),
    }
}

/// The values as literal expressions.
pub open spec fn embed_items(items: Seq<Val>) -> Seq<Expr>
    decreases items, 0int,
{
    Seq::new(
        items.len(),
        |i: int|
            if 0 <= i < items.len() {
                embed(items[i])
            } else {
                Expr::Unit
            },
    )
}

/// The entries of a record value as the fields of a record literal.
pub open spec fn embed_entries(entries: Seq<(Seq<char>, Val)>) -> Seq<(Seq<char>, Expr)>
    decreases entries, 0int,
{
    Seq::new(
        entries.len(),
        |i: int|
            if 0 <= i < entries.len() {
                (entries[i].0, embed(entries[i].1))
            } else {
                (Seq::empty(), Expr::Unit)
            },
    )
}

/// The expression with the values of the scope put in the place of its
/// free names. A name is left as it is when it refers to a cell by `$`,
/// when it is among `bound`, the names that the expression's surroundings
/// bind, or when a lambda or a `Let` inside the expression binds it.
pub open spec fn capture(scope: Seq<(Seq<char>, Val)>, bound: Seq<Seq<char>>, e: Expr) -> Expr
    decreases e, 0int,
{
    match e {
        Expr::Record(fields) => Expr::Record(capture_fields(scope, bound, fields)),
        Expr::List(items) => Expr::List(capture_items(scope, bound, items)),
        Expr::Lambda(params, body) => Expr::Lambda(
            params,
            Box::new(capture(scope, bound + params, *body)),
        ),
        Expr::Name(n) => if is_cell_reference(n) || bound.contains(n) {
            e
        } else {
            match local(scope, n) {
                Some(v) => embed(v),
                None => e,
            }
        },
        Expr::Call(f, args) => Expr::Call(
            Box::new(capture(scope, bound, *f)),
            capture_items(scope, bound, args),
        ),
        Expr::FieldAccess(record, field) => Expr::FieldAccess(
            Box::new(capture(scope, bound, *record)),
            field,
        ),
        Expr::Let(bindings, body) => Expr::Let(
            capture_bindings(scope, bound, bindings),
            Box::new(capture(scope, bound + keys_of(bindings), *body)),
        ),
        _ => e,
    }
}

/// Each expression of the list with the values of the scope put in.
pub open spec fn capture_items(
    scope: Seq<(Seq<char>, Val)>,
    bound: Seq<Seq<char>>,
    items: Seq<Expr>,
) -> Seq<Expr>
    decreases items, 0int,
{
    Seq::new(
        items.len(),
        |i: int|
            if 0 <= i < items.len() {
                capture(scope, bound, items[i])
            } else {
                Expr::Unit
            },
    )
}

/// Each field of a record literal with the values of the scope put in.
pub open spec fn capture_fields(
    scope: Seq<(Seq<char>, Val)>,
    bound: Seq<Seq<char>>,
    fields: Seq<(Seq<char>, Expr)>,
) -> Seq<(Seq<char>, Expr)>
    decreases fields, 0int,
{
    Seq::new(
        fields.len(),
        |i: int|
            if 0 <= i < fields.len() {
                (fields[i].0, capture(scope, bound, fields[i].1))
            } else {
                (Seq::empty(), Expr::Unit)
            },
    )
}

/// Each binding of a `Let` with the values of the scope put in; the names
/// of the bindings before it are bound in it.
pub open spec fn capture_bindings(
    scope: Seq<(Seq<char>, Val)>,
    bound: Seq<Seq<char>>,
    bindings: Seq<(Seq<char>, Expr)>,
) -> Seq<(Seq<char>, Expr)>
    decreases bindings, 0int,
{
    Seq::new(
        bindings.len(),
        |i: int|
            if 0 <= i < bindings.len() {
                (
                    bindings[i].0,
                    capture(scope, bound + keys_of(bindings).take(i), bindings[i].1),
                )
            } else {
                (Seq::empty(), Expr::Unit)
            },
    )
}

/// What a read of the cell `cell` gives when the cell exists: its value, or
/// the error of a cell that read an errored cell.
pub open spec fn cell_outcome(value: Result<Val, Seq<char>>, cell: Seq<char>) -> Result<
    Val,
    Seq<char>,
> {
    match value {
        Ok(v) => Ok(v),
        Err(_) => Err(propagated_message(cell)),
    }
}

/// What a name stands for. A name with `$` is the cell named after the `$`,
/// and the read is recorded whether or not the cell exists. Any other name
/// is a local name, else a primitive operation, else a cell, whose read is
/// then recorded.
pub open spec fn resolve(
    env: Env,
    scope: Seq<(Seq<char>, Val)>,
    fx: Effects,
    name: Seq<char>,
) -> (Result<Val, Seq<char>>, Effects) {
    if is_cell_reference(name) {
        let cell = name.subrange(1, name.len() as int);
        match cell_value(env.cells, cell) {
            Some(value) => (cell_outcome(value, cell), record_read(fx, cell)),
            None => (Err(unknown_cell(cell)), record_read(fx, cell)),
        }
    } else {
        match local(scope, name) {
            Some(v) => (Ok(v), fx),
            None => match builtin_named(name) {
                Some(b) => (Ok(Val::Builtin(b)), fx),
                None => match cell_value(env.cells, name) {
                    Some(value) => (cell_outcome(value, name), record_read(fx, name)),
                    None => (Err(unknown_name(name)), fx),
                },
            },
        }
    }
}

/// The scope of the body of a function value: its parameters bound to the
/// arguments, and nothing else.
pub open spec fn bind(params: Seq<Seq<char>>, args: Seq<Val>) -> Seq<(Seq<char>, Val)> {
    Seq::new(params.len(), |i: int| (params[i], args[i]))
}

/// Whether the primitive operation takes its arguments unevaluated.
pub open spec fn is_lazy(b: BuiltinFunction) -> bool {
    b == BuiltinFunction::And || b == BuiltinFunction::Or || b == BuiltinFunction::If
}

/// Whether the value can be called.
pub open spec fn is_function(v: Val) -> bool {
    v is Lambda || v is Builtin
}

/// The two arguments, when they are two integers.
pub open spec fn two_integers(args: Seq<Val>) -> Option<(i64, i64)> {
    if args.len() == 2 {
        match (args[0], args[1]) {
            (Val::Integer(x), Val::Integer(y)) => Some((x, y)),
            _ => None,
        }
    } else {
        None
    }
}

/// The two arguments, when they are two truth values.
pub open spec fn two_booleans(args: Seq<Val>) -> Option<(bool, bool)> {
    if args.len() == 2 {
        match (args[0], args[1]) {
            (Val::Boolean(x), Val::Boolean(y)) => Some((x, y)),
            _ => None,
        }
    } else {
        None
    }
}

/// The two arguments, when they are two strings.
pub open spec fn two_strings(args: Seq<Val>) -> Option<(Seq<char>, Seq<char>)> {
    if args.len() == 2 {
        match (args[0], args[1]) {
            (Val::Str(x), Val::Str(y)) => Some((x, y)),
            _ => None,
        }
    } else {
        None
    }
}

/// The argument, when it is one integer.
pub open spec fn one_integer(args: Seq<Val>) -> Option<i64> {
    if args.len() == 1 {
        match args[0] {
            Val::Integer(x) => Some(x),
            _ => None,
        }
    } else {
        None
    }
}

/// The argument, when it is one truth value.
pub open spec fn one_boolean(args: Seq<Val>) -> Option<bool> {
    if args.len() == 1 {
        match args[0] {
            Val::Boolean(x) => Some(x),
            _ => None,
        }
    } else {
        None
    }
}

/// The value of the field `key` of a record.
pub open spec fn field_of(entries: Seq<(Seq<char>, Val)>, key: Seq<char>) -> Result<
    Val,
    Seq<char>,
> {
    match lookup(entries, key) {
        Some(v) => Ok(v),
        None => Err(no_field()),
    }
}

/// The field of a record, when the two arguments are a record and a string.
pub open spec fn field_access(args: Seq<Val>) -> Result<Val, Seq<char>> {
    if args.len() == 2 {
        match (args[0], args[1]) {
            (Val::Record(entries), Val::Str(key)) => field_of(entries, key),
            _ => Err(invalid_arguments()),
        }
    } else {
        Err(invalid_arguments())
    }
}

/// The element of a list at an index, when the two arguments are a list and
/// an integer; the field of a record, when they are a record and a string.
pub open spec fn index_access(args: Seq<Val>) -> Result<Val, Seq<char>> {
    if args.len() == 2 {
        match (args[0], args[1]) {
            (Val::List(items), Val::Integer(i)) => if 0 <= i < items.len() {
                Ok(items[i as int])
            } else {
                Err(out_of_range())
            },
            (Val::Record(entries), Val::Str(key)) => field_of(entries, key),
            _ => Err(invalid_arguments()),
        }
    } else {
        Err(invalid_arguments())
    }
}

/// The branch that the first of three arguments, a truth value, selects.
pub open spec fn choice(args: Seq<Val>) -> Result<Val, Seq<char>> {
    if args.len() == 3 {
        match args[0] {
            Val::Boolean(c) => if c {
                Ok(args[1])
            } else {
                Ok(args[2])
            },
            _ => Err(invalid_arguments()),
        }
    } else {
        Err(invalid_arguments())
    }
}

/// The equality of the two arguments: two integers, two strings or two
/// truth values.
pub open spec fn equality(args: Seq<Val>) -> Result<Val, Seq<char>> {
    match two_integers(args) {
        Some((x, y)) => Ok(Val::Boolean(x == y)),
        None => match two_strings(args) {
            Some((x, y)) => Ok(Val::Boolean(x == y)),
            None => match two_booleans(args) {
                Some((x, y)) => Ok(Val::Boolean(x == y)),
                None => Err(invalid_arguments()),
            },
        },
    }
}

/// The integer that an operation on two integers gives.
pub open spec fn arithmetic(b: BuiltinFunction, x: i64, y: i64) -> i64 {
    match b {
        BuiltinFunction::Add => x.wrapping_add(y),
        BuiltinFunction::Sub => x.wrapping_sub(y),
        _ => x.wrapping_mul(y),
    }
}

/// The truth value that a comparison of two integers gives.
pub open spec fn comparison(b: BuiltinFunction, x: i64, y: i64) -> bool {
    match b {
        BuiltinFunction::LessThan => x < y,
        BuiltinFunction::GreaterThan => x > y,
        BuiltinFunction::LessThanEqual => x <= y,
        _ => x >= y,
    }
}

/// What a primitive operation that calls nothing and has no effect gives on
/// its arguments. Arithmetic wraps around on overflow.
pub open spec fn apply_simple(b: BuiltinFunction, args: Seq<Val>) -> Result<Val, Seq<char>> {
    match b {
        BuiltinFunction::Add | BuiltinFunction::Sub | BuiltinFunction::Mul => match two_integers(
            args,
        ) {
            Some((x, y)) => Ok(Val::Integer(arithmetic(b, x, y))),
            None => Err(invalid_arguments()),
        },
        BuiltinFunction::Negate => match one_integer(args) {
            Some(x) => Ok(Val::Integer(0i64.wrapping_sub(x))),
            None => Err(invalid_arguments()),
        },
        BuiltinFunction::Index => index_access(args),
        BuiltinFunction::Dot => field_access(args),
        BuiltinFunction::LessThan
        | BuiltinFunction::GreaterThan
        | BuiltinFunction::LessThanEqual
        | BuiltinFunction::GreaterThanEqual => match two_integers(args) {
            Some((x, y)) => Ok(Val::Boolean(comparison(b, x, y))),
            None => Err(invalid_arguments()),
        },
        BuiltinFunction::Equals => equality(args),
        BuiltinFunction::Not => match one_boolean(args) {
            Some(x) => Ok(Val::Boolean(!x)),
            None => Err(invalid_arguments()),
        },
        BuiltinFunction::And => match two_booleans(args) {
            Some((x, y)) => Ok(Val::Boolean(x && y)),
            None => Err(invalid_arguments()),
        },
        BuiltinFunction::Or => match two_booleans(args) {
            Some((x, y)) => Ok(Val::Boolean(x || y)),
            None => Err(invalid_arguments()),
        },
        BuiltinFunction::If => choice(args),
        _ => Err(invalid_arguments()),
    }
}

/// What evaluating the expression gives, and the effects after it, when an
/// evaluation may still nest `depth` deep. An error ends the evaluation;
/// the reads and pushes made before it stay.
pub open spec fn eval(
    depth: nat,
    env: Env,
    scope: Seq<(Seq<char>, Val)>,
    fx: Effects,
    e: Expr,
) -> (Result<Val, Seq<char>>, Effects)
    decreases depth, 0int, 0int,
{
    if depth == 0 {
        (Err(too_deep()), fx)
    } else {
        let d = (depth - 1) as nat;
        match e {
            Expr::Unit => (Ok(Val::Unit), fx),
            Expr::Integer(i) => (Ok(Val::Integer(i)), fx),
            Expr::Str(s) => (Ok(Val::Str(s)), fx),
            Expr::Boolean(b) => (Ok(Val::Boolean(b)), fx),
            Expr::Builtin(b) => (Ok(Val::Builtin(b)), fx),
            Expr::Lambda(params, body) => (
                Ok(Val::Lambda(params, capture(scope, params, *body))),
                fx,
            ),
            Expr::List(items) => {
                let (r, fx1) = eval_items(d, env, scope, fx, items, 0, Seq::empty());
                (
                    match r {
                        Ok(vals) => Ok(Val::List(vals)),
                        Err(m) => Err(m),
                    },
                    fx1,
                )
            },
            Expr::Record(fields) => {
                let (r, fx1) = eval_fields(d, env, scope, fx, fields, 0, Seq::empty());
                (
                    match r {
                        Ok(entries) => Ok(Val::Record(entries)),
                        Err(m) => Err(m),
                    },
                    fx1,
                )
            },
            Expr::Name(n) => resolve(env, scope, fx, n),
            Expr::FieldAccess(record, field) => {
                let (r, fx1) = eval(d, env, scope, fx, *record);
                (
                    match r {
                        Ok(Val::Record(entries)) => field_of(entries, field),
                        Ok(_) => Err(not_a_record()),
                        Err(m) => Err(m),
                    },
                    fx1,
                )
            },
            Expr::Let(bindings, body) => {
                let (r, fx1) = eval_bindings(d, env, scope, fx, bindings, 0);
                match r {
                    Ok(inner) => eval(d, env, inner, fx1, *body),
                    Err(m) => (Err(m), fx1),
                }
            },
            Expr::Call(callee, args) => {
                let (f, fx1) = eval(d, env, scope, fx, *callee);
                match f {
                    Ok(fv) => if fv matches Val::Builtin(b) && is_lazy(b) {
                        eval_lazy(d, env, scope, fx1, fv->Builtin_0, args)
                    } else if is_function(fv) {
                        let (a, fx2) = eval_items(d, env, scope, fx1, args, 0, Seq::empty());
                        match a {
                            Ok(vals) => apply_value(d, env, fx2, fv, vals),
                            Err(m) => (Err(m), fx2),
                        }
                    } else {
                        (Err(uncallable()), fx1)
                    },
                    Err(m) => (Err(m), fx1),
                }
            },
        }
    }
}

/// The values of the expressions from position `i` on, after those in
/// `acc`, evaluated from left to right.
pub open spec fn eval_items(
    depth: nat,
    env: Env,
    scope: Seq<(Seq<char>, Val)>,
    fx: Effects,
    items: Seq<Expr>,
    i: int,
    acc: Seq<Val>,
) -> (Result<Seq<Val>, Seq<char>>, Effects)
    decreases depth, 1int, items.len() - i,
{
    if i < 0 || i >= items.len() {
        (Ok(acc), fx)
    } else {
        let (r, fx1) = eval(depth, env, scope, fx, items[i]);
        match r {
            Ok(v) => eval_items(depth, env, scope, fx1, items, i + 1, acc.push(v)),
            Err(m) => (Err(m), fx1),
        }
    }
}

/// The entries that the fields of a record literal from position `i` on
/// evaluate to, after those in `acc`, in the order of the fields.
pub open spec fn eval_fields(
    depth: nat,
    env: Env,
    scope: Seq<(Seq<char>, Val)>,
    fx: Effects,
    fields: Seq<(Seq<char>, Expr)>,
    i: int,
    acc: Seq<(Seq<char>, Val)>,
) -> (Result<Seq<(Seq<char>, Val)>, Seq<char>>, Effects)
    decreases depth, 1int, fields.len() - i,
{
    if i < 0 || i >= fields.len() {
        (Ok(acc), fx)
    } else {
        let (r, fx1) = eval(depth, env, scope, fx, fields[i].1);
        match r {
            Ok(v) => eval_fields(depth, env, scope, fx1, fields, i + 1, acc.push((fields[i].0, v))),
            Err(m) => (Err(m), fx1),
        }
    }
}

/// The scope after the bindings of a `Let` from position `i` on: each is
/// evaluated in the scope that the bindings before it have made.
pub open spec fn eval_bindings(
    depth: nat,
    env: Env,
    scope: Seq<(Seq<char>, Val)>,
    fx: Effects,
    bindings: Seq<(Seq<char>, Expr)>,
    i: int,
) -> (Result<Seq<(Seq<char>, Val)>, Seq<char>>, Effects)
    decreases depth, 1int, bindings.len() - i,
{
    if i < 0 || i >= bindings.len() {
        (Ok(scope), fx)
    } else {
        let (r, fx1) = eval(depth, env, scope, fx, bindings[i].1);
        match r {
            Ok(v) => eval_bindings(
                depth,
                env,
                scope.push((bindings[i].0, v)),
                fx1,
                bindings,
                i + 1,
            ),
            Err(m) => (Err(m), fx1),
        }
    }
}

/// What `and`, `or` and `if` give when they are called: they evaluate only
/// the arguments that decide the result.
pub open spec fn eval_lazy(
    depth: nat,
    env: Env,
    scope: Seq<(Seq<char>, Val)>,
    fx: Effects,
    b: BuiltinFunction,
    args: Seq<Expr>,
) -> (Result<Val, Seq<char>>, Effects)
    decreases depth, 1int, 0int,
{
    if b == BuiltinFunction::If {
        if args.len() == 3 {
            let (c, fx1) = eval(depth, env, scope, fx, args[0]);
            match c {
                Ok(Val::Boolean(x)) => if x {
                    eval(depth, env, scope, fx1, args[1])
                } else {
                    eval(depth, env, scope, fx1, args[2])
                },
                Ok(_) => (Err(invalid_arguments()), fx1),
                Err(m) => (Err(m), fx1),
            }
        } else {
            (Err(invalid_arguments()), fx)
        }
    } else if args.len() == 2 {
        let (first, fx1) = eval(depth, env, scope, fx, args[0]);
        match first {
            Ok(Val::Boolean(x)) => if x == (b == BuiltinFunction::Or) {
                (Ok(Val::Boolean(x)), fx1)
            } else {
                let (second, fx2) = eval(depth, env, scope, fx1, args[1]);
                (
                    match second {
                        Ok(Val::Boolean(y)) => Ok(Val::Boolean(y)),
                        Ok(_) => Err(invalid_arguments()),
                        Err(m) => Err(m),
                    },
                    fx2,
                )
            },
            Ok(_) => (Err(invalid_arguments()), fx1),
            Err(m) => (Err(m), fx1),
        }
    } else {
        (Err(invalid_arguments()), fx)
    }
}

/// What calling the function value `f` on the arguments gives. The body of
/// a function written in the language runs in a scope that holds its
/// parameters and nothing else.
pub open spec fn apply_value(depth: nat, env: Env, fx: Effects, f: Val, args: Seq<Val>) -> (
    Result<Val, Seq<char>>,
    Effects,
)
    decreases depth, 2int, 0int,
{
    match f {
        Val::Lambda(params, body) => if params.len() != args.len() {
            (Err(wrong_arity()), fx)
        } else {
            eval(depth, env, bind(params, args), fx, body)
        },
        Val::Builtin(b) => if depth == 0 {
            (Err(too_deep()), fx)
        } else {
            apply_builtin((depth - 1) as nat, env, fx, b, args)
        },
        _ => (Err(uncallable()), fx),
    }
}

/// What a primitive operation gives on evaluated arguments.
pub open spec fn apply_builtin(
    depth: nat,
    env: Env,
    fx: Effects,
    b: BuiltinFunction,
    args: Seq<Val>,
) -> (Result<Val, Seq<char>>, Effects)
    decreases depth, 4int, 0int,
{
    match b {
        BuiltinFunction::Push => if args.len() == 2 {
            match args[0] {
                Val::Str(target) => (Ok(Val::Unit), record_push(fx, target, args[1])),
                _ => (Err(invalid_arguments()), fx),
            }
        } else {
            (Err(invalid_arguments()), fx)
        },
        BuiltinFunction::Read => if args.len() == 0 {
            (Ok(Val::List(env.inbox)), fx)
        } else {
            (Err(invalid_arguments()), fx)
        },
        BuiltinFunction::MapEach => if args.len() == 2 && is_function(args[0]) {
            match args[1] {
                Val::List(items) => {
                    let (r, fx1) = map_items(depth, env, fx, args[0], items, 0, Seq::empty());
                    (
                        match r {
                            Ok(vals) => Ok(Val::List(vals)),
                            Err(m) => Err(m),
                        },
                        fx1,
                    )
                },
                Val::Record(entries) => {
                    let (r, fx1) = map_entries(depth, env, fx, args[0], entries, 0, Seq::empty());
                    (
                        match r {
                            Ok(mapped) => Ok(Val::Record(mapped)),
                            Err(m) => Err(m),
                        },
                        fx1,
                    )
                },
                _ => (Err(invalid_arguments()), fx),
            }
        } else {
            (Err(invalid_arguments()), fx)
        },
        BuiltinFunction::Fold => if args.len() == 3 && is_function(args[0]) {
            match args[2] {
                Val::List(items) => fold_items(depth, env, fx, args[0], args[1], items, 0),
                Val::Record(entries) => fold_entries(depth, env, fx, args[0], args[1], entries, 0),
                _ => (Err(invalid_arguments()), fx),
            }
        } else {
            (Err(invalid_arguments()), fx)
        },
        BuiltinFunction::Filter => if args.len() == 2 && is_function(args[0]) {
            match args[1] {
                Val::List(items) => {
                    let (r, fx1) = filter_items(depth, env, fx, args[0], items, 0, Seq::empty());
                    (
                        match r {
                            Ok(vals) => Ok(Val::List(vals)),
                            Err(m) => Err(m),
                        },
                        fx1,
                    )
                },
                Val::Record(entries) => {
                    let (r, fx1) = filter_entries(
                        depth,
                        env,
                        fx,
                        args[0],
                        entries,
                        0,
                        Seq::empty(),
                    );
                    (
                        match r {
                            Ok(kept) => Ok(Val::Record(kept)),
                            Err(m) => Err(m),
                        },
                        fx1,
                    )
                },
                _ => (Err(invalid_arguments()), fx),
            }
        } else {
            (Err(invalid_arguments()), fx)
        },
        _ => (apply_simple(b, args), fx),
    }
}

/// `f` applied to each item from position `i` on, after the results in
/// `acc`.
pub open spec fn map_items(
    depth: nat,
    env: Env,
    fx: Effects,
    f: Val,
    items: Seq<Val>,
    i: int,
    acc: Seq<Val>,
) -> (Result<Seq<Val>, Seq<char>>, Effects)
    decreases depth, 3int, items.len() - i,
{
    if i < 0 || i >= items.len() {
        (Ok(acc), fx)
    } else {
        let (r, fx1) = apply_value(depth, env, fx, f, seq![items[i]]);
        match r {
            Ok(v) => map_items(depth, env, fx1, f, items, i + 1, acc.push(v)),
            Err(m) => (Err(m), fx1),
        }
    }
}

/// `f` applied to the key and the value of each entry from position `i`
/// on, after the results in `acc`; the keys stay.
pub open spec fn map_entries(
    depth: nat,
    env: Env,
    fx: Effects,
    f: Val,
    entries: Seq<(Seq<char>, Val)>,
    i: int,
    acc: Seq<(Seq<char>, Val)>,
) -> (Result<Seq<(Seq<char>, Val)>, Seq<char>>, Effects)
    decreases depth, 3int, entries.len() - i,
{
    if i < 0 || i >= entries.len() {
        (Ok(acc), fx)
    } else {
        let (r, fx1) = apply_value(
            depth,
            env,
            fx,
            f,
            seq![Val::Str(entries[i].0), entries[i].1],
        );
        match r {
            Ok(v) => map_entries(depth, env, fx1, f, entries, i + 1, acc.push((entries[i].0, v))),
            Err(m) => (Err(m), fx1),
        }
    }
}

/// The left fold of `f` over the items from position `i` on, from `acc`.
pub open spec fn fold_items(
    depth: nat,
    env: Env,
    fx: Effects,
    f: Val,
    acc: Val,
    items: Seq<Val>,
    i: int,
) -> (Result<Val, Seq<char>>, Effects)
    decreases depth, 3int, items.len() - i,
{
    if i < 0 || i >= items.len() {
        (Ok(acc), fx)
    } else {
        let (r, fx1) = apply_value(depth, env, fx, f, seq![acc, items[i]]);
        match r {
            Ok(v) => fold_items(depth, env, fx1, f, v, items, i + 1),
            Err(m) => (Err(m), fx1),
        }
    }
}

/// The left fold of `f` over the entries from position `i` on, from `acc`:
/// `f` takes the accumulator, the key and the value.
pub open spec fn fold_entries(
    depth: nat,
    env: Env,
    fx: Effects,
    f: Val,
    acc: Val,
    entries: Seq<(Seq<char>, Val)>,
    i: int,
) -> (Result<Val, Seq<char>>, Effects)
    decreases depth, 3int, entries.len() - i,
{
    if i < 0 || i >= entries.len() {
        (Ok(acc), fx)
    } else {
        let (r, fx1) = apply_value(
            depth,
            env,
            fx,
            f,
            seq![acc, Val::Str(entries[i].0), entries[i].1],
        );
        match r {
            Ok(v) => fold_entries(depth, env, fx1, f, v, entries, i + 1),
            Err(m) => (Err(m), fx1),
        }
    }
}

/// The items from position `i` on for which `f` gives `true`, after those
/// in `acc`. A result of `f` that is no truth value is an error.
pub open spec fn filter_items(
    depth: nat,
    env: Env,
    fx: Effects,
    f: Val,
    items: Seq<Val>,
    i: int,
    acc: Seq<Val>,
) -> (Result<Seq<Val>, Seq<char>>, Effects)
    decreases depth, 3int, items.len() - i,
{
    if i < 0 || i >= items.len() {
        (Ok(acc), fx)
    } else {
        let (r, fx1) = apply_value(depth, env, fx, f, seq![items[i]]);
        match r {
            Ok(Val::Boolean(keep)) => filter_items(
                depth,
                env,
                fx1,
                f,
                items,
                i + 1,
                if keep {
                    acc.push(items[i])
                } else {
                    acc
                },
            ),
            Ok(_) => (Err(invalid_arguments()), fx1),
            Err(m) => (Err(m), fx1),
        }
    }
}

/// The entries from position `i` on for whose key and value `f` gives
/// `true`, after those in `acc`. A result of `f` that is no truth value is
/// an error.
pub open spec fn filter_entries(
    depth: nat,
    env: Env,
    fx: Effects,
    f: Val,
    entries: Seq<(Seq<char>, Val)>,
    i: int,
    acc: Seq<(Seq<char>, Val)>,
) -> (Result<Seq<(Seq<char>, Val)>, Seq<char>>, Effects)
    decreases depth, 3int, entries.len() - i,
{
    if i < 0 || i >= entries.len() {
        (Ok(acc), fx)
    } else {
        let (r, fx1) = apply_value(
            depth,
            env,
            fx,
            f,
            seq![Val::Str(entries[i].0), entries[i].1],
        );
        match r {
            Ok(Val::Boolean(keep)) => filter_entries(
                depth,
                env,
                fx1,
                f,
                entries,
                i + 1,
                if keep {
                    acc.push(entries[i])
                } else {
                    acc
                },
            ),
            Ok(_) => (Err(invalid_arguments()), fx1),
            Err(m) => (Err(m), fx1),
        }
    }
}

} // verus!
