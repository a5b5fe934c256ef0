//! Evaluation keeps records in key order: when the values that an
//! evaluation starts from are ordered, so are the value that it gives and
//! the values that it pushes.
use crate::language::ast::{Expr, Val};
use crate::language::builtins::BuiltinFunction;
use crate::language::keyed::{find_from_found, keys_of, position_of, strictly_sorted};
use crate::language::ordered::{
    capture_ordered, latest_ordered, ordered_entries, ordered_expr, ordered_exprs, ordered_fields,
    ordered_val, ordered_vals,
};
use crate::language::semantics::{
    apply_builtin, apply_simple, apply_value, bind, eval, eval_bindings, eval_fields, eval_items,
    eval_lazy, field_of, filter_entries, filter_items, fold_entries, fold_items, is_cell_reference,
    is_function, is_lazy, map_entries, map_items, resolve, Env,
};
use crate::language::text::text_less;
use crate::reactive::language::{record_push, Effects};
use crate::reactive::model::cell_names;
use vstd::prelude::*;

verus! {

/// Whether the values that an evaluation can read are ordered: the values
/// of the cells and the values in the inbox.
pub open spec fn ordered_env(env: Env) -> bool {
    &&& forall|i: int|
        0 <= i < env.cells.len() ==> ((#[trigger] env.cells[i]).value matches Ok(v)
            ==> ordered_val(v))
    &&& ordered_vals(env.inbox)
}

/// Whether the values pushed so far are ordered.
pub open spec fn ordered_fx(fx: Effects) -> bool {
    ordered_entries(fx.pushes)
}

/// The value of a field of an ordered record is ordered.
pub proof fn field_of_ordered(entries: Seq<(Seq<char>, Val)>, key: Seq<char>)
    requires
        ordered_entries(entries),
    ensures
        field_of(entries, key) matches Ok(v) ==> ordered_val(v),
{
    let i = position_of(keys_of(entries), key);
    find_from_found(keys_of(entries), key, 0);
    if i < entries.len() {
        assert(ordered_val(entries[i].1));
    }
}

/// A primitive operation that calls nothing gives an ordered value on
/// ordered arguments.
pub proof fn apply_simple_ordered(b: BuiltinFunction, args: Seq<Val>)
    requires
        ordered_vals(args),
    ensures
        apply_simple(b, args) matches Ok(v) ==> ordered_val(v),
{
    if args.len() >= 1 {
        assert(ordered_val(args[0]));
    }
    if args.len() >= 2 {
        assert(ordered_val(args[1]));
    }
    if args.len() >= 3 {
        assert(ordered_val(args[2]));
    }
    if args.len() == 2 {
        match (args[0], args[1]) {
            (Val::List(items), Val::Integer(i)) => {
                assert(ordered_vals(items));
                if 0 <= i < items.len() {
                    assert(ordered_val(items[i as int]));
                }
            },
            (Val::Record(entries), Val::Str(key)) => {
                assert(ordered_entries(entries));
                field_of_ordered(entries, key);
            },
            _ => {},
        }
    }
}

/// What a name stands for is ordered.
pub proof fn resolve_ordered(env: Env, scope: Seq<(Seq<char>, Val)>, fx: Effects, name: Seq<char>)
    requires
        ordered_env(env),
        ordered_entries(scope),
        ordered_fx(fx),
    ensures
        ordered_fx(resolve(env, scope, fx, name).1),
        resolve(env, scope, fx, name).0 matches Ok(v) ==> ordered_val(v),
{
    latest_ordered(scope, name, scope.len() as int);
    let cell = if is_cell_reference(name) {
        name.subrange(1, name.len() as int)
    } else {
        name
    };
    let i = position_of(cell_names(env.cells), cell);
    find_from_found(cell_names(env.cells), cell, 0);
    if 0 <= i < env.cells.len() {
        assert(env.cells[i].value matches Ok(v) ==> ordered_val(v));
    }
}

/// The scope of a function's body is ordered when the arguments are.
pub proof fn bind_ordered(params: Seq<Seq<char>>, args: Seq<Val>)
    requires
        ordered_vals(args),
        params.len() == args.len(),
    ensures
        ordered_entries(bind(params, args)),
{
    let scope = bind(params, args);
    assert forall|i: int| 0 <= i < scope.len() implies ordered_val((#[trigger] scope[i]).1) by {
        assert(ordered_val(args[i]));
    }
}

/// Evaluating an ordered expression among ordered values gives an ordered
/// value and pushes ordered values.
pub proof fn eval_ordered(
    depth: nat,
    env: Env,
    scope: Seq<(Seq<char>, Val)>,
    fx: Effects,
    e: Expr,
)
    requires
        ordered_env(env),
        ordered_entries(scope),
        ordered_fx(fx),
        ordered_expr(e),
    ensures
        ordered_fx(eval(depth, env, scope, fx, e).1),
        eval(depth, env, scope, fx, e).0 matches Ok(v) ==> ordered_val(v),
    decreases depth, 0int, 0int,
{
    if depth > 0 {
        let d = (depth - 1) as nat;
        match e {
            Expr::Lambda(params, body) => {
                capture_ordered(scope, params, *body);
            },
            Expr::List(items) => {
                let none: Seq<Val> = Seq::empty();
                eval_items_ordered(d, env, scope, fx, items, 0, none);
                let r = eval_items(d, env, scope, fx, items, 0, none).0;
                if r is Ok {
                    assert(ordered_val(Val::List(r->Ok_0)));
                }
            },
            Expr::Record(fields) => {
                let none: Seq<(Seq<char>, Val)> = Seq::empty();
                assert(keys_of(none) =~= keys_of(fields).take(0));
                assert(ordered_fields(fields));
                eval_fields_ordered(d, env, scope, fx, fields, 0, none);
                let r = eval_fields(d, env, scope, fx, fields, 0, none).0;
                if r is Ok {
                    assert(ordered_val(Val::Record(r->Ok_0)));
                }
            },
            Expr::Name(n) => {
                resolve_ordered(env, scope, fx, n);
            },
            Expr::FieldAccess(record, field) => {
                eval_ordered(d, env, scope, fx, *record);
                let r = eval(d, env, scope, fx, *record).0;
                match r {
                    Ok(Val::Record(entries)) => {
                        assert(ordered_entries(entries));
                        field_of_ordered(entries, field);
                    },
                    _ => {},
                }
            },
            Expr::Let(bindings, body) => {
                assert(ordered_fields(bindings));
                eval_bindings_ordered(d, env, scope, fx, bindings, 0);
                let (r, fx1) = eval_bindings(d, env, scope, fx, bindings, 0);
                if r is Ok {
                    eval_ordered(d, env, r->Ok_0, fx1, *body);
                }
            },
            Expr::Call(callee, args) => {
                eval_ordered(d, env, scope, fx, *callee);
                let (f, fx1) = eval(d, env, scope, fx, *callee);
                if f is Ok {
                    let fv = f->Ok_0;
                    if fv matches Val::Builtin(b) && is_lazy(b) {
                        eval_lazy_ordered(d, env, scope, fx1, fv->Builtin_0, args);
                    } else if is_function(fv) {
                        let none: Seq<Val> = Seq::empty();
                        eval_items_ordered(d, env, scope, fx1, args, 0, none);
                        let (a, fx2) = eval_items(d, env, scope, fx1, args, 0, none);
                        if a is Ok {
                            apply_value_ordered(d, env, fx2, fv, a->Ok_0);
                        }
                    }
                }
            },
            _ => {},
        }
    }
}

/// Evaluating ordered expressions among ordered values gives ordered values
/// and pushes ordered values.
pub proof fn eval_items_ordered(
    depth: nat,
    env: Env,
    scope: Seq<(Seq<char>, Val)>,
    fx: Effects,
    items: Seq<Expr>,
    i: int,
    acc: Seq<Val>,
)
    requires
        ordered_env(env),
        ordered_entries(scope),
        ordered_fx(fx),
        ordered_exprs(items),
        ordered_vals(acc),
    ensures
        ordered_fx(eval_items(depth, env, scope, fx, items, i, acc).1),
        eval_items(depth, env, scope, fx, items, i, acc).0 matches Ok(vals) ==> ordered_vals(vals),
    decreases depth, 1int, items.len() - i,
{
    if 0 <= i < items.len() {
        assert(ordered_expr(items[i]));
        eval_ordered(depth, env, scope, fx, items[i]);
        let (r, fx1) = eval(depth, env, scope, fx, items[i]);
        if r is Ok {
            eval_items_ordered(depth, env, scope, fx1, items, i + 1, acc.push(r->Ok_0));
        }
    }
}

/// Evaluating the ordered fields of a record among ordered values gives
/// ordered entries under the keys of the fields, and pushes ordered values.
pub proof fn eval_fields_ordered(
    depth: nat,
    env: Env,
    scope: Seq<(Seq<char>, Val)>,
    fx: Effects,
    fields: Seq<(Seq<char>, Expr)>,
    i: int,
    acc: Seq<(Seq<char>, Val)>,
)
    requires
        ordered_env(env),
        ordered_entries(scope),
        ordered_fx(fx),
        ordered_fields(fields),
        ordered_entries(acc),
        0 <= i <= fields.len(),
        keys_of(acc) == keys_of(fields).take(i),
    ensures
        ordered_fx(eval_fields(depth, env, scope, fx, fields, i, acc).1),
        eval_fields(depth, env, scope, fx, fields, i, acc).0 matches Ok(entries)
            ==> ordered_entries(entries) && keys_of(entries) == keys_of(fields),
    decreases depth, 1int, fields.len() - i,
{
    if i < fields.len() {
        assert(ordered_expr(fields[i].1));
        eval_ordered(depth, env, scope, fx, fields[i].1);
        let (r, fx1) = eval(depth, env, scope, fx, fields[i].1);
        if r is Ok {
            let next = acc.push((fields[i].0, r->Ok_0));
            assert(keys_of(acc).len() == i);
            assert forall|j: int| 0 <= j < i implies keys_of(next)[j] == keys_of(fields)[j] by {
                assert(keys_of(acc)[j] == keys_of(fields).take(i)[j]);
            }
            assert(keys_of(next) =~= keys_of(fields).take(i + 1));
            eval_fields_ordered(depth, env, scope, fx1, fields, i + 1, next);
        }
    } else {
        assert(keys_of(fields).take(i) =~= keys_of(fields));
    }
}

/// Evaluating the ordered bindings of a `Let` among ordered values gives a
/// scope of ordered values, and pushes ordered values.
pub proof fn eval_bindings_ordered(
    depth: nat,
    env: Env,
    scope: Seq<(Seq<char>, Val)>,
    fx: Effects,
    bindings: Seq<(Seq<char>, Expr)>,
    i: int,
)
    requires
        ordered_env(env),
        ordered_entries(scope),
        ordered_fx(fx),
        ordered_fields(bindings),
    ensures
        ordered_fx(eval_bindings(depth, env, scope, fx, bindings, i).1),
        eval_bindings(depth, env, scope, fx, bindings, i).0 matches Ok(inner) ==> ordered_entries(
            inner,
        ),
    decreases depth, 1int, bindings.len() - i,
{
    if 0 <= i < bindings.len() {
        assert(ordered_expr(bindings[i].1));
        eval_ordered(depth, env, scope, fx, bindings[i].1);
        let (r, fx1) = eval(depth, env, scope, fx, bindings[i].1);
        if r is Ok {
            eval_bindings_ordered(
                depth,
                env,
                scope.push((bindings[i].0, r->Ok_0)),
                fx1,
                bindings,
                i + 1,
            );
        }
    }
}

/// A call of `and`, `or` or `if` on ordered expressions gives an ordered
/// value and pushes ordered values.
pub proof fn eval_lazy_ordered(
    depth: nat,
    env: Env,
    scope: Seq<(Seq<char>, Val)>,
    fx: Effects,
    b: BuiltinFunction,
    args: Seq<Expr>,
)
    requires
        ordered_env(env),
        ordered_entries(scope),
        ordered_fx(fx),
        ordered_exprs(args),
    ensures
        ordered_fx(eval_lazy(depth, env, scope, fx, b, args).1),
        eval_lazy(depth, env, scope, fx, b, args).0 matches Ok(v) ==> ordered_val(v),
    decreases depth, 1int, 0int,
{
    if b == BuiltinFunction::If {
        if args.len() == 3 {
            assert(ordered_expr(args[0]));
            assert(ordered_expr(args[1]));
            assert(ordered_expr(args[2]));
            eval_ordered(depth, env, scope, fx, args[0]);
            let (c, fx1) = eval(depth, env, scope, fx, args[0]);
            match c {
                Ok(Val::Boolean(x)) => {
                    if x {
                        eval_ordered(depth, env, scope, fx1, args[1]);
                    } else {
                        eval_ordered(depth, env, scope, fx1, args[2]);
                    }
                },
                _ => {},
            }
        }
    } else if args.len() == 2 {
        assert(ordered_expr(args[0]));
        assert(ordered_expr(args[1]));
        eval_ordered(depth, env, scope, fx, args[0]);
        let (first, fx1) = eval(depth, env, scope, fx, args[0]);
        match first {
            Ok(Val::Boolean(x)) => {
                if x != (b == BuiltinFunction::Or) {
                    eval_ordered(depth, env, scope, fx1, args[1]);
                }
            },
            _ => {},
        }
    }
}

/// Calling an ordered function value on ordered arguments gives an ordered
/// value and pushes ordered values.
pub proof fn apply_value_ordered(depth: nat, env: Env, fx: Effects, f: Val, args: Seq<Val>)
    requires
        ordered_env(env),
        ordered_fx(fx),
        ordered_val(f),
        ordered_vals(args),
    ensures
        ordered_fx(apply_value(depth, env, fx, f, args).1),
        apply_value(depth, env, fx, f, args).0 matches Ok(v) ==> ordered_val(v),
    decreases depth, 2int, 0int,
{
    match f {
        Val::Lambda(params, body) => {
            if params.len() == args.len() {
                bind_ordered(params, args);
                eval_ordered(depth, env, bind(params, args), fx, body);
            }
        },
        Val::Builtin(b) => {
            if depth > 0 {
                apply_builtin_ordered((depth - 1) as nat, env, fx, b, args);
            }
        },
        _ => {},
    }
}

/// A primitive operation gives an ordered value on ordered arguments and
/// pushes ordered values.
pub proof fn apply_builtin_ordered(
    depth: nat,
    env: Env,
    fx: Effects,
    b: BuiltinFunction,
    args: Seq<Val>,
)
    requires
        ordered_env(env),
        ordered_fx(fx),
        ordered_vals(args),
    ensures
        ordered_fx(apply_builtin(depth, env, fx, b, args).1),
        apply_builtin(depth, env, fx, b, args).0 matches Ok(v) ==> ordered_val(v),
    decreases depth, 4int, 0int,
{
    if args.len() >= 1 {
        assert(ordered_val(args[0]));
    }
    if args.len() >= 2 {
        assert(ordered_val(args[1]));
    }
    if args.len() >= 3 {
        assert(ordered_val(args[2]));
    }
    match b {
        BuiltinFunction::Push => {
            if args.len() == 2 {
                match args[0] {
                    Val::Str(target) => {
                        let after = record_push(fx, target, args[1]);
                        assert forall|i: int| 0 <= i < after.pushes.len() implies ordered_val(
                            (#[trigger] after.pushes[i]).1,
                        ) by {
                            if i < fx.pushes.len() {
                                assert(ordered_val(fx.pushes[i].1));
                            }
                        }
                    },
                    _ => {},
                }
            }
        },
        BuiltinFunction::Read => {
            if args.len() == 0 {
                assert(ordered_val(Val::List(env.inbox)));
            }
        },
        BuiltinFunction::MapEach => {
            if args.len() == 2 && is_function(args[0]) {
                match args[1] {
                    Val::List(items) => {
                        let none: Seq<Val> = Seq::empty();
                        assert(ordered_vals(items));
                        map_items_ordered(depth, env, fx, args[0], items, 0, none);
                        let r = map_items(depth, env, fx, args[0], items, 0, none).0;
                        if r is Ok {
                            assert(ordered_val(Val::List(r->Ok_0)));
                        }
                    },
                    Val::Record(entries) => {
                        let none: Seq<(Seq<char>, Val)> = Seq::empty();
                        assert(ordered_entries(entries));
                        assert(keys_of(none) =~= keys_of(entries).take(0));
                        map_entries_ordered(depth, env, fx, args[0], entries, 0, none);
                        let r = map_entries(depth, env, fx, args[0], entries, 0, none).0;
                        if r is Ok {
                            assert(ordered_val(Val::Record(r->Ok_0)));
                        }
                    },
                    _ => {},
                }
            }
        },
        BuiltinFunction::Fold => {
            if args.len() == 3 && is_function(args[0]) {
                match args[2] {
                    Val::List(items) => {
                        assert(ordered_vals(items));
                        fold_items_ordered(depth, env, fx, args[0], args[1], items, 0);
                    },
                    Val::Record(entries) => {
                        assert(ordered_entries(entries));
                        fold_entries_ordered(depth, env, fx, args[0], args[1], entries, 0);
                    },
                    _ => {},
                }
            }
        },
        BuiltinFunction::Filter => {
            if args.len() == 2 && is_function(args[0]) {
                match args[1] {
                    Val::List(items) => {
                        let none: Seq<Val> = Seq::empty();
                        assert(ordered_vals(items));
                        filter_items_ordered(depth, env, fx, args[0], items, 0, none);
                        let r = filter_items(depth, env, fx, args[0], items, 0, none).0;
                        if r is Ok {
                            assert(ordered_val(Val::List(r->Ok_0)));
                        }
                    },
                    Val::Record(entries) => {
                        let none: Seq<(Seq<char>, Val)> = Seq::empty();
                        assert(ordered_entries(entries));
                        filter_entries_ordered(depth, env, fx, args[0], entries, 0, none);
                        let r = filter_entries(depth, env, fx, args[0], entries, 0, none).0;
                        if r is Ok {
                            assert(ordered_val(Val::Record(r->Ok_0)));
                        }
                    },
                    _ => {},
                }
            }
        },
        _ => {
            apply_simple_ordered(b, args);
        },
    }
}

/// Mapping an ordered function over ordered values gives ordered values.
pub proof fn map_items_ordered(
    depth: nat,
    env: Env,
    fx: Effects,
    f: Val,
    items: Seq<Val>,
    i: int,
    acc: Seq<Val>,
)
    requires
        ordered_env(env),
        ordered_fx(fx),
        ordered_val(f),
        ordered_vals(items),
        ordered_vals(acc),
    ensures
        ordered_fx(map_items(depth, env, fx, f, items, i, acc).1),
        map_items(depth, env, fx, f, items, i, acc).0 matches Ok(vals) ==> ordered_vals(vals),
    decreases depth, 3int, items.len() - i,
{
    if 0 <= i < items.len() {
        assert(ordered_val(items[i]));
        apply_value_ordered(depth, env, fx, f, seq![items[i]]);
        let (r, fx1) = apply_value(depth, env, fx, f, seq![items[i]]);
        if r is Ok {
            map_items_ordered(depth, env, fx1, f, items, i + 1, acc.push(r->Ok_0));
        }
    }
}

/// Mapping an ordered function over the ordered entries of a record gives
/// ordered entries under the same keys.
pub proof fn map_entries_ordered(
    depth: nat,
    env: Env,
    fx: Effects,
    f: Val,
    entries: Seq<(Seq<char>, Val)>,
    i: int,
    acc: Seq<(Seq<char>, Val)>,
)
    requires
        ordered_env(env),
        ordered_fx(fx),
        ordered_val(f),
        ordered_entries(entries),
        ordered_entries(acc),
        0 <= i <= entries.len(),
        keys_of(acc) == keys_of(entries).take(i),
    ensures
        ordered_fx(map_entries(depth, env, fx, f, entries, i, acc).1),
        map_entries(depth, env, fx, f, entries, i, acc).0 matches Ok(mapped) ==> ordered_entries(
            mapped,
        ) && keys_of(mapped) == keys_of(entries),
    decreases depth, 3int, entries.len() - i,
{
    if i < entries.len() {
        assert(ordered_val(entries[i].1));
        let call = seq![Val::Str(entries[i].0), entries[i].1];
        apply_value_ordered(depth, env, fx, f, call);
        let (r, fx1) = apply_value(depth, env, fx, f, call);
        if r is Ok {
            let next = acc.push((entries[i].0, r->Ok_0));
            assert(keys_of(acc).len() == i);
            assert forall|j: int| 0 <= j < i implies keys_of(next)[j] == keys_of(entries)[j] by {
                assert(keys_of(acc)[j] == keys_of(entries).take(i)[j]);
            }
            assert(keys_of(next) =~= keys_of(entries).take(i + 1));
            map_entries_ordered(depth, env, fx1, f, entries, i + 1, next);
        }
    } else {
        assert(keys_of(entries).take(i) =~= keys_of(entries));
    }
}

/// Folding an ordered function over ordered values gives an ordered value.
pub proof fn fold_items_ordered(
    depth: nat,
    env: Env,
    fx: Effects,
    f: Val,
    acc: Val,
    items: Seq<Val>,
    i: int,
)
    requires
        ordered_env(env),
        ordered_fx(fx),
        ordered_val(f),
        ordered_val(acc),
        ordered_vals(items),
    ensures
        ordered_fx(fold_items(depth, env, fx, f, acc, items, i).1),
        fold_items(depth, env, fx, f, acc, items, i).0 matches Ok(v) ==> ordered_val(v),
    decreases depth, 3int, items.len() - i,
{
    if 0 <= i < items.len() {
        assert(ordered_val(items[i]));
        apply_value_ordered(depth, env, fx, f, seq![acc, items[i]]);
        let (r, fx1) = apply_value(depth, env, fx, f, seq![acc, items[i]]);
        if r is Ok {
            fold_items_ordered(depth, env, fx1, f, r->Ok_0, items, i + 1);
        }
    }
}

/// Folding an ordered function over the ordered entries of a record gives
/// an ordered value.
pub proof fn fold_entries_ordered(
    depth: nat,
    env: Env,
    fx: Effects,
    f: Val,
    acc: Val,
    entries: Seq<(Seq<char>, Val)>,
    i: int,
)
    requires
        ordered_env(env),
        ordered_fx(fx),
        ordered_val(f),
        ordered_val(acc),
        ordered_entries(entries),
    ensures
        ordered_fx(fold_entries(depth, env, fx, f, acc, entries, i).1),
        fold_entries(depth, env, fx, f, acc, entries, i).0 matches Ok(v) ==> ordered_val(v),
    decreases depth, 3int, entries.len() - i,
{
    if 0 <= i < entries.len() {
        assert(ordered_val(entries[i].1));
        let call = seq![acc, Val::Str(entries[i].0), entries[i].1];
        apply_value_ordered(depth, env, fx, f, call);
        let (r, fx1) = apply_value(depth, env, fx, f, call);
        if r is Ok {
            fold_entries_ordered(depth, env, fx1, f, r->Ok_0, entries, i + 1);
        }
    }
}

/// Filtering ordered values gives ordered values.
pub proof fn filter_items_ordered(
    depth: nat,
    env: Env,
    fx: Effects,
    f: Val,
    items: Seq<Val>,
    i: int,
    acc: Seq<Val>,
)
    requires
        ordered_env(env),
        ordered_fx(fx),
        ordered_val(f),
        ordered_vals(items),
        ordered_vals(acc),
    ensures
        ordered_fx(filter_items(depth, env, fx, f, items, i, acc).1),
        filter_items(depth, env, fx, f, items, i, acc).0 matches Ok(vals) ==> ordered_vals(vals),
    decreases depth, 3int, items.len() - i,
{
    if 0 <= i < items.len() {
        assert(ordered_val(items[i]));
        apply_value_ordered(depth, env, fx, f, seq![items[i]]);
        let (r, fx1) = apply_value(depth, env, fx, f, seq![items[i]]);
        match r {
            Ok(Val::Boolean(keep)) => {
                let next = if keep {
                    acc.push(items[i])
                } else {
                    acc
                };
                filter_items_ordered(depth, env, fx1, f, items, i + 1, next);
            },
            _ => {},
        }
    }
}

/// Filtering the entries of a record in key order gives entries in key
/// order.
pub proof fn filter_entries_ordered(
    depth: nat,
    env: Env,
    fx: Effects,
    f: Val,
    entries: Seq<(Seq<char>, Val)>,
    i: int,
    acc: Seq<(Seq<char>, Val)>,
)
    requires
        ordered_env(env),
        ordered_fx(fx),
        ordered_val(f),
        ordered_entries(entries),
        strictly_sorted(keys_of(entries)),
        ordered_entries(acc),
        strictly_sorted(keys_of(acc)),
        0 <= i <= entries.len(),
        forall|a: int, j: int|
            0 <= a < acc.len() && i <= j < entries.len() ==> text_less(
                (#[trigger] acc[a]).0,
                (#[trigger] entries[j]).0,
            ),
    ensures
        ordered_fx(filter_entries(depth, env, fx, f, entries, i, acc).1),
        filter_entries(depth, env, fx, f, entries, i, acc).0 matches Ok(kept) ==> ordered_entries(
            kept,
        ) && strictly_sorted(keys_of(kept)),
    decreases depth, 3int, entries.len() - i,
{
    if i < entries.len() {
        assert(ordered_val(entries[i].1));
        let call = seq![Val::Str(entries[i].0), entries[i].1];
        apply_value_ordered(depth, env, fx, f, call);
        let (r, fx1) = apply_value(depth, env, fx, f, call);
        if r is Ok && r->Ok_0 is Boolean {
            let keep = r->Ok_0->Boolean_0;
            let next = if keep {
                acc.push(entries[i])
            } else {
                acc
            };
            let keys = keys_of(entries);
            assert forall|a: int, j: int|
                0 <= a < next.len() && i + 1 <= j < entries.len() implies text_less(
                (#[trigger] next[a]).0,
                (#[trigger] entries[j]).0,
            ) by {
                if a < acc.len() {
                    assert(text_less(acc[a].0, entries[j].0));
                } else {
                    assert(text_less(keys[i], keys[j]));
                }
            }
            assert forall|x: int, y: int| 0 <= x < y < keys_of(next).len() implies text_less(
                #[trigger] keys_of(next)[x],
                #[trigger] keys_of(next)[y],
            ) by {
                if y < acc.len() {
                    assert(text_less(keys_of(acc)[x], keys_of(acc)[y]));
                } else {
                    assert(text_less(acc[x].0, entries[i].0));
                }
            }
            filter_entries_ordered(depth, env, fx1, f, entries, i + 1, next);
        }
    }
}

} // verus!
