//! The limit on the depth of an evaluation cuts an evaluation short and
//! changes nothing else: an evaluation that does not run out of depth gives
//! the same with any greater depth.
use crate::language::ast::{Expr, Val};
use crate::language::builtins::BuiltinFunction;
use crate::language::semantics::{
    apply_builtin, apply_value, bind, eval, eval_bindings, eval_fields, eval_items, eval_lazy,
    filter_entries, filter_items, fold_entries, fold_items, is_function, is_lazy, map_entries,
    map_items, too_deep, Env,
};
use crate::reactive::language::Effects;
use vstd::prelude::*;

verus! {

/// Whether an evaluation ran out of depth.
pub open spec fn cut_short<T>(r: Result<T, Seq<char>>) -> bool {
    r matches Err(m) && m == too_deep()
}

/// An evaluation of an expression that does not run out of depth gives the
/// same with any greater depth.
pub proof fn eval_deeper(
    depth: nat,
    deeper: nat,
    env: Env,
    scope: Seq<(Seq<char>, Val)>,
    fx: Effects,
    e: Expr,
)
    requires
        depth <= deeper,
        !cut_short(eval(depth, env, scope, fx, e).0),
    ensures
        eval(deeper, env, scope, fx, e) == eval(depth, env, scope, fx, e),
    decreases depth, 0int, 0int,
{
    let d = (depth - 1) as nat;
    let dd = (deeper - 1) as nat;
    match e {
        Expr::List(items) => {
            eval_items_deeper(d, dd, env, scope, fx, items, 0, Seq::empty());
        },
        Expr::Record(fields) => {
            eval_fields_deeper(d, dd, env, scope, fx, fields, 0, Seq::empty());
        },
        Expr::FieldAccess(record, field) => {
            eval_deeper(d, dd, env, scope, fx, *record);
        },
        Expr::Let(bindings, body) => {
            eval_bindings_deeper(d, dd, env, scope, fx, bindings, 0);
            let (r, fx1) = eval_bindings(d, env, scope, fx, bindings, 0);
            if r is Ok {
                eval_deeper(d, dd, env, r->Ok_0, fx1, *body);
            }
        },
        Expr::Call(callee, args) => {
            eval_deeper(d, dd, env, scope, fx, *callee);
            let (f, fx1) = eval(d, env, scope, fx, *callee);
            if f is Ok {
                let fv = f->Ok_0;
                if fv matches Val::Builtin(b) && is_lazy(b) {
                    eval_lazy_deeper(d, dd, env, scope, fx1, fv->Builtin_0, args);
                } else if is_function(fv) {
                    eval_items_deeper(d, dd, env, scope, fx1, args, 0, Seq::empty());
                    let (a, fx2) = eval_items(d, env, scope, fx1, args, 0, Seq::empty());
                    if a is Ok {
                        apply_value_deeper(d, dd, env, fx2, fv, a->Ok_0);
                    }
                }
            }
        },
        _ => {},
    }
}

/// An evaluation of expressions that does not run out of depth gives the
/// same with any greater depth.
pub proof fn eval_items_deeper(
    depth: nat,
    deeper: nat,
    env: Env,
    scope: Seq<(Seq<char>, Val)>,
    fx: Effects,
    items: Seq<Expr>,
    i: int,
    acc: Seq<Val>,
)
    requires
        depth <= deeper,
        !cut_short(eval_items(depth, env, scope, fx, items, i, acc).0),
    ensures
        eval_items(deeper, env, scope, fx, items, i, acc) == eval_items(
            depth,
            env,
            scope,
            fx,
            items,
            i,
            acc,
        ),
    decreases depth, 1int, items.len() - i,
{
    if 0 <= i < items.len() {
        eval_deeper(depth, deeper, env, scope, fx, items[i]);
        let (r, fx1) = eval(depth, env, scope, fx, items[i]);
        if r is Ok {
            eval_items_deeper(depth, deeper, env, scope, fx1, items, i + 1, acc.push(r->Ok_0));
        }
    }
}

/// An evaluation of the fields of a record that does not run out of depth
/// gives the same with any greater depth.
pub proof fn eval_fields_deeper(
    depth: nat,
    deeper: nat,
    env: Env,
    scope: Seq<(Seq<char>, Val)>,
    fx: Effects,
    fields: Seq<(Seq<char>, Expr)>,
    i: int,
    acc: Seq<(Seq<char>, Val)>,
)
    requires
        depth <= deeper,
        !cut_short(eval_fields(depth, env, scope, fx, fields, i, acc).0),
    ensures
        eval_fields(deeper, env, scope, fx, fields, i, acc) == eval_fields(
            depth,
            env,
            scope,
            fx,
            fields,
            i,
            acc,
        ),
    decreases depth, 1int, fields.len() - i,
{
    if 0 <= i < fields.len() {
        eval_deeper(depth, deeper, env, scope, fx, fields[i].1);
        let (r, fx1) = eval(depth, env, scope, fx, fields[i].1);
        if r is Ok {
            eval_fields_deeper(
                depth,
                deeper,
                env,
                scope,
                fx1,
                fields,
                i + 1,
                acc.push((fields[i].0, r->Ok_0)),
            );
        }
    }
}

/// An evaluation of the bindings of a `Let` that does not run out of depth
/// gives the same with any greater depth.
pub proof fn eval_bindings_deeper(
    depth: nat,
    deeper: nat,
    env: Env,
    scope: Seq<(Seq<char>, Val)>,
    fx: Effects,
    bindings: Seq<(Seq<char>, Expr)>,
    i: int,
)
    requires
        depth <= deeper,
        !cut_short(eval_bindings(depth, env, scope, fx, bindings, i).0),
    ensures
        eval_bindings(deeper, env, scope, fx, bindings, i) == eval_bindings(
            depth,
            env,
            scope,
            fx,
            bindings,
            i,
        ),
    decreases depth, 1int, bindings.len() - i,
{
    if 0 <= i < bindings.len() {
        eval_deeper(depth, deeper, env, scope, fx, bindings[i].1);
        let (r, fx1) = eval(depth, env, scope, fx, bindings[i].1);
        if r is Ok {
            eval_bindings_deeper(
                depth,
                deeper,
                env,
                scope.push((bindings[i].0, r->Ok_0)),
                fx1,
                bindings,
                i + 1,
            );
        }
    }
}

/// A call of `and`, `or` or `if` that does not run out of depth gives the
/// same with any greater depth.
pub proof fn eval_lazy_deeper(
    depth: nat,
    deeper: nat,
    env: Env,
    scope: Seq<(Seq<char>, Val)>,
    fx: Effects,
    b: BuiltinFunction,
    args: Seq<Expr>,
)
    requires
        depth <= deeper,
        !cut_short(eval_lazy(depth, env, scope, fx, b, args).0),
    ensures
        eval_lazy(deeper, env, scope, fx, b, args) == eval_lazy(depth, env, scope, fx, b, args),
    decreases depth, 1int, 0int,
{
    if b == BuiltinFunction::If {
        if args.len() == 3 {
            eval_deeper(depth, deeper, env, scope, fx, args[0]);
            let (c, fx1) = eval(depth, env, scope, fx, args[0]);
            match c {
                Ok(Val::Boolean(x)) => {
                    if x {
                        eval_deeper(depth, deeper, env, scope, fx1, args[1]);
                    } else {
                        eval_deeper(depth, deeper, env, scope, fx1, args[2]);
                    }
                },
                _ => {},
            }
        }
    } else if args.len() == 2 {
        eval_deeper(depth, deeper, env, scope, fx, args[0]);
        let (first, fx1) = eval(depth, env, scope, fx, args[0]);
        match first {
            Ok(Val::Boolean(x)) => {
                if x != (b == BuiltinFunction::Or) {
                    eval_deeper(depth, deeper, env, scope, fx1, args[1]);
                }
            },
            _ => {},
        }
    }
}

/// A call of a function value that does not run out of depth gives the same
/// with any greater depth.
pub proof fn apply_value_deeper(
    depth: nat,
    deeper: nat,
    env: Env,
    fx: Effects,
    f: Val,
    args: Seq<Val>,
)
    requires
        depth <= deeper,
        !cut_short(apply_value(depth, env, fx, f, args).0),
    ensures
        apply_value(deeper, env, fx, f, args) == apply_value(depth, env, fx, f, args),
    decreases depth, 2int, 0int,
{
    match f {
        Val::Lambda(params, body) => {
            if params.len() == args.len() {
                eval_deeper(depth, deeper, env, bind(params, args), fx, body);
            }
        },
        Val::Builtin(b) => {
            apply_builtin_deeper((depth - 1) as nat, (deeper - 1) as nat, env, fx, b, args);
        },
        _ => {},
    }
}

/// A primitive operation that does not run out of depth gives the same with
/// any greater depth.
pub proof fn apply_builtin_deeper(
    depth: nat,
    deeper: nat,
    env: Env,
    fx: Effects,
    b: BuiltinFunction,
    args: Seq<Val>,
)
    requires
        depth <= deeper,
        !cut_short(apply_builtin(depth, env, fx, b, args).0),
    ensures
        apply_builtin(deeper, env, fx, b, args) == apply_builtin(depth, env, fx, b, args),
    decreases depth, 4int, 0int,
{
    match b {
        BuiltinFunction::MapEach => {
            if args.len() == 2 && is_function(args[0]) {
                match args[1] {
                    Val::List(items) => {
                        map_items_deeper(depth, deeper, env, fx, args[0], items, 0, Seq::empty());
                    },
                    Val::Record(entries) => {
                        map_entries_deeper(
                            depth,
                            deeper,
                            env,
                            fx,
                            args[0],
                            entries,
                            0,
                            Seq::empty(),
                        );
                    },
                    _ => {},
                }
            }
        },
        BuiltinFunction::Fold => {
            if args.len() == 3 && is_function(args[0]) {
                match args[2] {
                    Val::List(items) => {
                        fold_items_deeper(depth, deeper, env, fx, args[0], args[1], items, 0);
                    },
                    Val::Record(entries) => {
                        fold_entries_deeper(depth, deeper, env, fx, args[0], args[1], entries, 0);
                    },
                    _ => {},
                }
            }
        },
        BuiltinFunction::Filter => {
            if args.len() == 2 && is_function(args[0]) {
                match args[1] {
                    Val::List(items) => {
                        filter_items_deeper(
                            depth,
                            deeper,
                            env,
                            fx,
                            args[0],
                            items,
                            0,
                            Seq::empty(),
                        );
                    },
                    Val::Record(entries) => {
                        filter_entries_deeper(
                            depth,
                            deeper,
                            env,
                            fx,
                            args[0],
                            entries,
                            0,
                            Seq::empty(),
                        );
                    },
                    _ => {},
                }
            }
        },
        _ => {},
    }
}

/// Mapping a function over values without running out of depth gives the
/// same with any greater depth.
pub proof fn map_items_deeper(
    depth: nat,
    deeper: nat,
    env: Env,
    fx: Effects,
    f: Val,
    items: Seq<Val>,
    i: int,
    acc: Seq<Val>,
)
    requires
        depth <= deeper,
        !cut_short(map_items(depth, env, fx, f, items, i, acc).0),
    ensures
        map_items(deeper, env, fx, f, items, i, acc) == map_items(depth, env, fx, f, items, i, acc),
    decreases depth, 3int, items.len() - i,
{
    if 0 <= i < items.len() {
        apply_value_deeper(depth, deeper, env, fx, f, seq![items[i]]);
        let (r, fx1) = apply_value(depth, env, fx, f, seq![items[i]]);
        if r is Ok {
            map_items_deeper(depth, deeper, env, fx1, f, items, i + 1, acc.push(r->Ok_0));
        }
    }
}

/// Mapping a function over the entries of a record without running out of
/// depth gives the same with any greater depth.
pub proof fn map_entries_deeper(
    depth: nat,
    deeper: nat,
    env: Env,
    fx: Effects,
    f: Val,
    entries: Seq<(Seq<char>, Val)>,
    i: int,
    acc: Seq<(Seq<char>, Val)>,
)
    requires
        depth <= deeper,
        !cut_short(map_entries(depth, env, fx, f, entries, i, acc).0),
    ensures
        map_entries(deeper, env, fx, f, entries, i, acc) == map_entries(
            depth,
            env,
            fx,
            f,
            entries,
            i,
            acc,
        ),
    decreases depth, 3int, entries.len() - i,
{
    if 0 <= i < entries.len() {
        let call = seq![Val::Str(entries[i].0), entries[i].1];
        apply_value_deeper(depth, deeper, env, fx, f, call);
        let (r, fx1) = apply_value(depth, env, fx, f, call);
        if r is Ok {
            map_entries_deeper(
                depth,
                deeper,
                env,
                fx1,
                f,
                entries,
                i + 1,
                acc.push((entries[i].0, r->Ok_0)),
            );
        }
    }
}

/// Folding a function over values without running out of depth gives the
/// same with any greater depth.
pub proof fn fold_items_deeper(
    depth: nat,
    deeper: nat,
    env: Env,
    fx: Effects,
    f: Val,
    acc: Val,
    items: Seq<Val>,
    i: int,
)
    requires
        depth <= deeper,
        !cut_short(fold_items(depth, env, fx, f, acc, items, i).0),
    ensures
        fold_items(deeper, env, fx, f, acc, items, i) == fold_items(
            depth,
            env,
            fx,
            f,
            acc,
            items,
            i,
        ),
    decreases depth, 3int, items.len() - i,
{
    if 0 <= i < items.len() {
        apply_value_deeper(depth, deeper, env, fx, f, seq![acc, items[i]]);
        let (r, fx1) = apply_value(depth, env, fx, f, seq![acc, items[i]]);
        if r is Ok {
            fold_items_deeper(depth, deeper, env, fx1, f, r->Ok_0, items, i + 1);
        }
    }
}

/// Folding a function over the entries of a record without running out of
/// depth gives the same with any greater depth.
pub proof fn fold_entries_deeper(
    depth: nat,
    deeper: nat,
    env: Env,
    fx: Effects,
    f: Val,
    acc: Val,
    entries: Seq<(Seq<char>, Val)>,
    i: int,
)
    requires
        depth <= deeper,
        !cut_short(fold_entries(depth, env, fx, f, acc, entries, i).0),
    ensures
        fold_entries(deeper, env, fx, f, acc, entries, i) == fold_entries(
            depth,
            env,
            fx,
            f,
            acc,
            entries,
            i,
        ),
    decreases depth, 3int, entries.len() - i,
{
    if 0 <= i < entries.len() {
        let call = seq![acc, Val::Str(entries[i].0), entries[i].1];
        apply_value_deeper(depth, deeper, env, fx, f, call);
        let (r, fx1) = apply_value(depth, env, fx, f, call);
        if r is Ok {
            fold_entries_deeper(depth, deeper, env, fx1, f, r->Ok_0, entries, i + 1);
        }
    }
}

/// Filtering values without running out of depth gives the same with any
/// greater depth.
pub proof fn filter_items_deeper(
    depth: nat,
    deeper: nat,
    env: Env,
    fx: Effects,
    f: Val,
    items: Seq<Val>,
    i: int,
    acc: Seq<Val>,
)
    requires
        depth <= deeper,
        !cut_short(filter_items(depth, env, fx, f, items, i, acc).0),
    ensures
        filter_items(deeper, env, fx, f, items, i, acc) == filter_items(
            depth,
            env,
            fx,
            f,
            items,
            i,
            acc,
        ),
    decreases depth, 3int, items.len() - i,
{
    if 0 <= i < items.len() {
        apply_value_deeper(depth, deeper, env, fx, f, seq![items[i]]);
        let (r, fx1) = apply_value(depth, env, fx, f, seq![items[i]]);
        match r {
            Ok(Val::Boolean(keep)) => {
                let next = if keep {
                    acc.push(items[i])
                } else {
                    acc
                };
                filter_items_deeper(depth, deeper, env, fx1, f, items, i + 1, next);
            },
            _ => {},
        }
    }
}

/// Filtering the entries of a record without running out of depth gives the
/// same with any greater depth.
pub proof fn filter_entries_deeper(
    depth: nat,
    deeper: nat,
    env: Env,
    fx: Effects,
    f: Val,
    entries: Seq<(Seq<char>, Val)>,
    i: int,
    acc: Seq<(Seq<char>, Val)>,
)
    requires
        depth <= deeper,
        !cut_short(filter_entries(depth, env, fx, f, entries, i, acc).0),
    ensures
        filter_entries(deeper, env, fx, f, entries, i, acc) == filter_entries(
            depth,
            env,
            fx,
            f,
            entries,
            i,
            acc,
        ),
    decreases depth, 3int, entries.len() - i,
{
    if 0 <= i < entries.len() {
        let call = seq![Val::Str(entries[i].0), entries[i].1];
        apply_value_deeper(depth, deeper, env, fx, f, call);
        let (r, fx1) = apply_value(depth, env, fx, f, call);
        match r {
            Ok(Val::Boolean(keep)) => {
                let next = if keep {
                    acc.push(entries[i])
                } else {
                    acc
                };
                filter_entries_deeper(depth, deeper, env, fx1, f, entries, i + 1, next);
            },
            _ => {},
        }
    }
}

} // verus!
