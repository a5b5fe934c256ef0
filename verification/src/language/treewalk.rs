//! The interpreter: a walk over the expression tree.
use crate::language::ast::{
    asts_view, bindings_view, duplicate_names, entries_view, fields_view, literal_view, names_view,
    values_view, AST, Binding, EvaluatedValue, Val, Value,
};
use crate::language::builtins::{lookup_builtin, BuiltinFunction};
use crate::language::errors::Error;
use crate::language::keyed::{contains_name, entry_keys, key_position, keys_of};
use crate::language::parser::{ast_result, parse, parse_spec};
use crate::language::s_exprs::value_result;
use crate::language::semantics::{
    apply_builtin, apply_simple, apply_value, bind, capture, capture_bindings, capture_fields,
    capture_items, cell_outcome, embed, embed_entries, embed_items, eval, eval_bindings,
    eval_fields, eval_items, eval_lazy, field_access, field_of, filter_entries, filter_items,
    fold_entries, fold_items, index_access, invalid_arguments, is_cell_reference, is_function,
    is_lazy, latest, local, map_entries, map_items, resolve, two_booleans, two_integers,
    two_strings, Env,
};
use crate::language::text::to_chars;
use crate::reactive::language::{Effects, IntermediateRep, ReactiveContext};
use crate::reactive::model::SheetModel;
use vstd::prelude::*;
use vstd::string::{StrSliceExecFns, StringExecFns};

verus! {

/// The local names of an evaluation and their values. A later binding of a
/// name hides the earlier ones.
pub struct Scope {
    vars: Vec<(String, EvaluatedValue)>,
}

impl View for Scope {
    type V = Seq<(Seq<char>, Val)>;

    /// The bindings, the innermost last.
    closed spec fn view(&self) -> Seq<(Seq<char>, Val)> {
        entries_view(self.vars@)
    }
}

impl Scope {
    /// The scope without any name.
    pub fn new() -> (scope: Scope)
        ensures
            scope@ == Seq::<(Seq<char>, Val)>::empty(),
    {
        let scope = Scope { vars: Vec::new() };
        assert(scope@ =~= Seq::<(Seq<char>, Val)>::empty());
        scope
    }

    /// How many bindings the scope holds.
    pub fn len(&self) -> (n: usize)
        ensures
            n == self@.len(),
    {
        self.vars.len()
    }

    /// Binds `name` to `value`, hiding any earlier binding of the name.
    pub fn insert(&mut self, name: String, value: EvaluatedValue)
        ensures
            final(self)@ == old(self)@.push((name@, value@)),
    {
        self.vars.push((name, value));
        assert(self@ =~= old(self)@.push((name@, value@)));
    }

    /// Drops the bindings after the first `n`, if there are more.
    pub fn truncate(&mut self, n: usize)
        ensures
            final(self)@ == if n <= old(self)@.len() {
                old(self)@.take(n as int)
            } else {
                old(self)@
            },
    {
        self.vars.truncate(n);
        proof {
            if n <= old(self)@.len() {
                assert(self@ =~= old(self)@.take(n as int));
            }
        }
    }

    /// The value of `name`: that of its innermost binding.
    pub fn lookup(&self, name: &String) -> (r: Option<&EvaluatedValue>)
        ensures
            match r {
                Some(v) => local(self@, name@) == Some(v@),
                None => local(self@, name@) is None,
            },
    {
        let mut n: usize = self.vars.len();
        while n > 0
            invariant
                n <= self.vars.len(),
                local(self@, name@) == latest(self@, name@, n as int),
            decreases n,
        {
            if self.vars[n - 1].0 == *name {
                return Some(&self.vars[n - 1].1);
            }
            n = n - 1;
        }
        None
    }
}

/// The model of the outcome of evaluating a list of expressions.
pub open spec fn values_result(r: Result<Vec<EvaluatedValue>, Error>) -> Result<
    Seq<Val>,
    Seq<char>,
> {
    match r {
        Ok(vals) => Ok(values_view(vals@)),
        Err(e) => Err(e@),
    }
}

/// The model of the outcome of evaluating the fields of a record.
pub open spec fn entries_result(r: Result<Vec<(String, EvaluatedValue)>, Error>) -> Result<
    Seq<(Seq<char>, Val)>,
    Seq<char>,
> {
    match r {
        Ok(entries) => Ok(entries_view(entries@)),
        Err(e) => Err(e@),
    }
}

/// Whether the primitive operation takes its arguments unevaluated.
fn lazy(b: BuiltinFunction) -> (r: bool)
    ensures
        r == is_lazy(b),
{
    match b {
        BuiltinFunction::And | BuiltinFunction::Or | BuiltinFunction::If => true,
        _ => false,
    }
}

/// Whether the value can be called.
fn callable(v: &EvaluatedValue) -> (r: bool)
    ensures
        r == is_function(v@),
{
    match v {
        EvaluatedValue::Lambda(_, _) => true,
        EvaluatedValue::BuiltinFunction(_) => true,
        _ => false,
    }
}

/// The error for arguments of the wrong number or type.
fn bad_arguments() -> (e: Error)
    ensures
        e@ == invalid_arguments(),
{
    Error::with_message("Invalid arguments")
}

/// The value of the field `key` of a record.
fn entry_value(entries: &Vec<(String, EvaluatedValue)>, key: &String) -> (r: Result<
    EvaluatedValue,
    Error,
>)
    ensures
        value_result(r) == field_of(entries_view(entries@), key@),
{
    proof {
        assert(keys_of(entries_view(entries@)) =~= entry_keys(entries@));
    }
    let i = key_position(entries, key);
    if i < entries.len() {
        Ok(entries[i].1.duplicate())
    } else {
        Err(Error::with_message("Field does not exist"))
    }
}

/// The two arguments, when they are two integers.
fn integer_pair(args: &Vec<EvaluatedValue>) -> (r: Option<(i64, i64)>)
    ensures
        r == two_integers(values_view(args@)),
{
    if args.len() == 2 {
        match (&args[0], &args[1]) {
            (EvaluatedValue::Integer(x), EvaluatedValue::Integer(y)) => Some((*x, *y)),
            _ => None,
        }
    } else {
        None
    }
}

/// The two arguments, when they are two truth values.
fn boolean_pair(args: &Vec<EvaluatedValue>) -> (r: Option<(bool, bool)>)
    ensures
        r == two_booleans(values_view(args@)),
{
    if args.len() == 2 {
        match (&args[0], &args[1]) {
            (EvaluatedValue::Boolean(x), EvaluatedValue::Boolean(y)) => Some((*x, *y)),
            _ => None,
        }
    } else {
        None
    }
}

/// Whether the two arguments are two strings, and whether these are equal.
fn string_pair_equal(args: &Vec<EvaluatedValue>) -> (r: Option<bool>)
    ensures
        match r {
            Some(eq) => two_strings(values_view(args@)) matches Some((x, y)) && eq == (x == y),
            None => two_strings(values_view(args@)) is None,
        },
{
    if args.len() == 2 {
        match (&args[0], &args[1]) {
            (EvaluatedValue::String(x), EvaluatedValue::String(y)) => Some(*x == *y),
            _ => None,
        }
    } else {
        None
    }
}

/// The field of a record, when the two arguments are a record and a string.
fn access_field(args: &Vec<EvaluatedValue>) -> (r: Result<EvaluatedValue, Error>)
    ensures
        value_result(r) == field_access(values_view(args@)),
{
    if args.len() == 2 {
        match (&args[0], &args[1]) {
            (EvaluatedValue::Record(entries), EvaluatedValue::String(key)) => entry_value(
                entries,
                key,
            ),
            _ => Err(bad_arguments()),
        }
    } else {
        Err(bad_arguments())
    }
}

/// The element of a list or the field of a record.
fn access_index(args: &Vec<EvaluatedValue>) -> (r: Result<EvaluatedValue, Error>)
    ensures
        value_result(r) == index_access(values_view(args@)),
{
    if args.len() == 2 {
        match (&args[0], &args[1]) {
            (EvaluatedValue::List(items), EvaluatedValue::Integer(i)) => {
                assert(values_view(args@)[0] == Val::List(values_view(items@)));
                if *i >= 0 && (*i as u64) < (items.len() as u64) {
                    let at: usize = *i as usize;
                    assert(values_view(items@)[*i as int] == items@[at as int]@);
                    Ok(items[at].duplicate())
                } else {
                    Err(Error::with_message("Index out of range"))
                }
            },
            (EvaluatedValue::Record(entries), EvaluatedValue::String(key)) => entry_value(
                entries,
                key,
            ),
            _ => Err(bad_arguments()),
        }
    } else {
        Err(bad_arguments())
    }
}

/// Applies a primitive operation that calls nothing and has no effect.
pub fn apply_simple_builtin(b: BuiltinFunction, args: &Vec<EvaluatedValue>) -> (r: Result<
    EvaluatedValue,
    Error,
>)
    ensures
        value_result(r) == apply_simple(b, values_view(args@)),
{
    match b {
        BuiltinFunction::Add => match integer_pair(args) {
            Some((x, y)) => Ok(EvaluatedValue::Integer(x.wrapping_add(y))),
            None => Err(bad_arguments()),
        },
        BuiltinFunction::Sub => match integer_pair(args) {
            Some((x, y)) => Ok(EvaluatedValue::Integer(x.wrapping_sub(y))),
            None => Err(bad_arguments()),
        },
        BuiltinFunction::Mul => match integer_pair(args) {
            Some((x, y)) => Ok(EvaluatedValue::Integer(x.wrapping_mul(y))),
            None => Err(bad_arguments()),
        },
        BuiltinFunction::Negate => {
            if args.len() == 1 {
                match &args[0] {
                    EvaluatedValue::Integer(x) => {
                        let zero: i64 = 0;
                        Ok(EvaluatedValue::Integer(zero.wrapping_sub(*x)))
                    },
                    _ => Err(bad_arguments()),
                }
            } else {
                Err(bad_arguments())
            }
        },
        BuiltinFunction::Index => access_index(args),
        BuiltinFunction::Dot => access_field(args),
        BuiltinFunction::LessThan => match integer_pair(args) {
            Some((x, y)) => Ok(EvaluatedValue::Boolean(x < y)),
            None => Err(bad_arguments()),
        },
        BuiltinFunction::GreaterThan => match integer_pair(args) {
            Some((x, y)) => Ok(EvaluatedValue::Boolean(x > y)),
            None => Err(bad_arguments()),
        },
        BuiltinFunction::LessThanEqual => match integer_pair(args) {
            Some((x, y)) => Ok(EvaluatedValue::Boolean(x <= y)),
            None => Err(bad_arguments()),
        },
        BuiltinFunction::GreaterThanEqual => match integer_pair(args) {
            Some((x, y)) => Ok(EvaluatedValue::Boolean(x >= y)),
            None => Err(bad_arguments()),
        },
        BuiltinFunction::Equals => match integer_pair(args) {
            Some((x, y)) => Ok(EvaluatedValue::Boolean(x == y)),
            None => match string_pair_equal(args) {
                Some(eq) => Ok(EvaluatedValue::Boolean(eq)),
                None => match boolean_pair(args) {
                    Some((x, y)) => Ok(EvaluatedValue::Boolean(x == y)),
                    None => Err(bad_arguments()),
                },
            },
        },
        BuiltinFunction::Not => {
            if args.len() == 1 {
                match &args[0] {
                    EvaluatedValue::Boolean(x) => Ok(EvaluatedValue::Boolean(!*x)),
                    _ => Err(bad_arguments()),
                }
            } else {
                Err(bad_arguments())
            }
        },
        BuiltinFunction::And => match boolean_pair(args) {
            Some((x, y)) => Ok(EvaluatedValue::Boolean(x && y)),
            None => Err(bad_arguments()),
        },
        BuiltinFunction::Or => match boolean_pair(args) {
            Some((x, y)) => Ok(EvaluatedValue::Boolean(x || y)),
            None => Err(bad_arguments()),
        },
        BuiltinFunction::If => {
            if args.len() == 3 {
                match &args[0] {
                    EvaluatedValue::Boolean(c) => {
                        if *c {
                            Ok(args[1].duplicate())
                        } else {
                            Ok(args[2].duplicate())
                        }
                    },
                    _ => Err(bad_arguments()),
                }
            } else {
                Err(bad_arguments())
            }
        },
        _ => Err(bad_arguments()),
    }
}

/// The values as literal expressions.
fn embed_values(items: &Vec<EvaluatedValue>) -> (r: Vec<AST>)
    ensures
        asts_view(r@) == embed_items(values_view(items@)),
    decreases items, 0int,
{
    let mut out: Vec<AST> = Vec::new();
    let mut i: usize = 0;
    while i < items.len()
        invariant
            i <= items.len(),
            out.len() == i,
            forall|j: int| 0 <= j < i ==> out@[j]@ == embed(items@[j]@),
        decreases items.len() - i,
    {
        out.push(embed_value(&items[i]));
        i = i + 1;
    }
    assert(asts_view(out@) =~= embed_items(values_view(items@)));
    out
}

/// The entries of a record value as the fields of a record literal.
fn embed_record(entries: &Vec<(String, EvaluatedValue)>) -> (r: Vec<(String, AST)>)
    ensures
        fields_view(r@) == embed_entries(entries_view(entries@)),
    decreases entries, 0int,
{
    let mut out: Vec<(String, AST)> = Vec::new();
    let mut i: usize = 0;
    while i < entries.len()
        invariant
            i <= entries.len(),
            out.len() == i,
            forall|j: int|
                0 <= j < i ==> out@[j].0@ == entries@[j].0@ && out@[j].1@ == embed(
                    entries@[j].1@,
                ),
        decreases entries.len() - i,
    {
        out.push((entries[i].0.clone(), embed_value(&entries[i].1)));
        i = i + 1;
    }
    assert(fields_view(out@) =~= embed_entries(entries_view(entries@)));
    out
}

/// The value as the literal expression that evaluates to it.
pub fn embed_value(value: &EvaluatedValue) -> (r: AST)
    ensures
        r@ == embed(value@),
    decreases value, 1int,
{
    match value {
        EvaluatedValue::Unit => AST::unit(),
        EvaluatedValue::Integer(i) => AST::integer(*i),
        EvaluatedValue::String(s) => AST::string(s.clone()),
        EvaluatedValue::Boolean(b) => AST::boolean(*b),
        EvaluatedValue::Record(entries) => AST::record(embed_record(entries)),
        EvaluatedValue::List(items) => AST::list(embed_values(items)),
        EvaluatedValue::BuiltinFunction(b) => AST::builtin(*b),
        EvaluatedValue::Lambda(params, body) => AST::lambda(
            duplicate_names(params),
            body.duplicate(),
        ),
    }
}

/// Whether the name refers to a cell by `$`.
fn refers_to_cell(name: &String) -> (r: bool)
    ensures
        r == is_cell_reference(name@),
{
    let chars = to_chars(name.as_str());
    chars.len() > 0 && chars[0] == '$'
}

/// The names of `bound` followed by those of `more`.
fn extended(bound: &Vec<String>, more: &Vec<String>) -> (r: Vec<String>)
    ensures
        names_view(r@) == names_view(bound@) + names_view(more@),
{
    let mut out = duplicate_names(bound);
    let ghost start = names_view(out@);
    let mut i: usize = 0;
    while i < more.len()
        invariant
            i <= more.len(),
            start == names_view(bound@),
            names_view(out@) == start + names_view(more@).take(i as int),
        decreases more.len() - i,
    {
        let ghost before = names_view(out@);
        out.push(more[i].clone());
        assert(names_view(out@) =~= before.push(more@[i as int]@));
        assert(start + names_view(more@).take(i + 1) =~= (start + names_view(more@).take(
            i as int,
        )).push(more@[i as int]@));
        i = i + 1;
    }
    assert(names_view(more@).take(more.len() as int) =~= names_view(more@));
    out
}

/// Each expression of the list with the values of the scope put in.
fn capture_list(scope: &Scope, bound: &Vec<String>, items: &Vec<AST>) -> (r: Vec<AST>)
    ensures
        asts_view(r@) == capture_items(scope@, names_view(bound@), asts_view(items@)),
    decreases items, 0int,
{
    let mut out: Vec<AST> = Vec::new();
    let mut i: usize = 0;
    while i < items.len()
        invariant
            i <= items.len(),
            out.len() == i,
            forall|j: int|
                0 <= j < i ==> out@[j]@ == capture(scope@, names_view(bound@), items@[j]@),
        decreases items.len() - i,
    {
        out.push(capture_values(scope, bound, &items[i]));
        i = i + 1;
    }
    assert(asts_view(out@) =~= capture_items(scope@, names_view(bound@), asts_view(items@)));
    out
}

/// Each field of a record literal with the values of the scope put in.
fn capture_record(scope: &Scope, bound: &Vec<String>, fields: &Vec<(String, AST)>) -> (r: Vec<
    (String, AST),
>)
    ensures
        fields_view(r@) == capture_fields(scope@, names_view(bound@), fields_view(fields@)),
    decreases fields, 0int,
{
    let mut out: Vec<(String, AST)> = Vec::new();
    let mut i: usize = 0;
    while i < fields.len()
        invariant
            i <= fields.len(),
            out.len() == i,
            forall|j: int|
                0 <= j < i ==> out@[j].0@ == fields@[j].0@ && out@[j].1@ == capture(
                    scope@,
                    names_view(bound@),
                    fields@[j].1@,
                ),
        decreases fields.len() - i,
    {
        out.push((fields[i].0.clone(), capture_values(scope, bound, &fields[i].1)));
        i = i + 1;
    }
    assert(fields_view(out@) =~= capture_fields(
        scope@,
        names_view(bound@),
        fields_view(fields@),
    ));
    out
}

/// Each binding of a `Let` with the values of the scope put in, and the
/// names that are bound after the bindings.
fn capture_let(scope: &Scope, bound: &Vec<String>, bindings: &Vec<Binding>) -> (r: (
    Vec<Binding>,
    Vec<String>,
))
    ensures
        bindings_view(r.0@) == capture_bindings(
            scope@,
            names_view(bound@),
            bindings_view(bindings@),
        ),
        names_view(r.1@) == names_view(bound@) + keys_of(bindings_view(bindings@)),
    decreases bindings, 0int,
{
    let mut out: Vec<Binding> = Vec::new();
    let mut inner = duplicate_names(bound);
    let ghost keys = keys_of(bindings_view(bindings@));
    let mut i: usize = 0;
    assert(names_view(inner@) =~= names_view(bound@) + keys.take(0));
    while i < bindings.len()
        invariant
            i <= bindings.len(),
            out.len() == i,
            keys == keys_of(bindings_view(bindings@)),
            keys.len() == bindings.len(),
            names_view(inner@) == names_view(bound@) + keys.take(i as int),
            forall|j: int|
                0 <= j < i ==> out@[j].0@ == bindings@[j].0@ && out@[j].1@ == capture(
                    scope@,
                    names_view(bound@) + keys.take(j),
                    bindings@[j].1@,
                ),
        decreases bindings.len() - i,
    {
        let ghost before = names_view(inner@);
        let captured = capture_values(scope, &inner, &bindings[i].1);
        out.push(Binding(bindings[i].0.clone(), captured));
        inner.push(bindings[i].0.clone());
        proof {
            assert(names_view(inner@) =~= before.push(bindings@[i as int].0@));
            assert(names_view(bound@) + keys.take(i + 1) =~= (names_view(bound@) + keys.take(
                i as int,
            )).push(keys[i as int]));
        }
        i = i + 1;
    }
    proof {
        assert(keys.take(bindings.len() as int) =~= keys);
        assert(bindings_view(out@) =~= capture_bindings(
            scope@,
            names_view(bound@),
            bindings_view(bindings@),
        ));
    }
    (out, inner)
}

/// The literal with the values of the scope put in.
fn capture_literal(scope: &Scope, bound: &Vec<String>, value: &Value<AST>) -> (r: AST)
    ensures
        r@ == capture(scope@, names_view(bound@), literal_view(*value)),
    decreases value, 0int,
{
    match value {
        Value::Unit => AST::unit(),
        Value::Integer(i) => AST::integer(*i),
        Value::String(s) => AST::string(s.clone()),
        Value::Boolean(b) => AST::boolean(*b),
        Value::Record(fields) => AST::record(capture_record(scope, bound, fields)),
        Value::List(items) => AST::list(capture_list(scope, bound, items)),
        Value::BuiltinFunction(b) => AST::builtin(*b),
        Value::Lambda(params, body) => {
            let inner = extended(bound, params);
            AST::lambda(duplicate_names(params), capture_values(scope, &inner, body))
        },
    }
}

/// The expression with the values of the scope put in the place of its free
/// names: what a function value keeps of the scope it was made in. Names in
/// `bound` are left as they are.
pub fn capture_values(scope: &Scope, bound: &Vec<String>, ast: &AST) -> (r: AST)
    ensures
        r@ == capture(scope@, names_view(bound@), ast@),
    decreases ast, 1int,
{
    match ast {
        AST::Literal(value) => capture_literal(scope, bound, value),
        AST::Name(name) => {
            if refers_to_cell(name) || contains_name(bound, name) {
                AST::name(name.clone())
            } else {
                match scope.lookup(name) {
                    Some(value) => embed_value(value),
                    None => AST::name(name.clone()),
                }
            }
        },
        AST::Function(callee, args) => AST::call(
            capture_values(scope, bound, callee),
            capture_list(scope, bound, args),
        ),
        AST::FieldAccess(record, field) => AST::field_access(
            capture_values(scope, bound, record),
            field.clone(),
        ),
        AST::Let(bindings, body) => {
            let (captured, inner) = capture_let(scope, bound, bindings);
            AST::let_in(captured, capture_values(scope, &inner, body))
        },
    }
}

/// The value of a cell as the cell that reads it sees it.
fn cell_read(value: &Result<EvaluatedValue, Error>, cell: &str) -> (r: Result<
    EvaluatedValue,
    Error,
>)
    ensures
        value_result(r) == cell_outcome(value_result(*value), cell@),
{
    match value {
        Ok(v) => Ok(v.duplicate()),
        Err(_) => Err(Error::propogated_error(cell)),
    }
}

/// The scope of the body of a function value: its parameters bound to the
/// arguments.
fn bind_parameters(params: &Vec<String>, args: &Vec<EvaluatedValue>) -> (scope: Scope)
    requires
        params.len() == args.len(),
    ensures
        scope@ == bind(names_view(params@), values_view(args@)),
{
    let mut scope = Scope::new();
    let mut i: usize = 0;
    while i < params.len()
        invariant
            i <= params.len(),
            params.len() == args.len(),
            scope@.len() == i,
            forall|j: int| 0 <= j < i ==> scope@[j] == (params@[j]@, args@[j]@),
        decreases params.len() - i,
    {
        scope.insert(params[i].clone(), args[i].duplicate());
        i = i + 1;
    }
    assert(scope@ =~= bind(names_view(params@), values_view(args@)));
    scope
}

/// The interpreter at work on one cell: the context of the evaluation.
pub struct InterpreterCtx<'a> {
    pub(crate) context: ReactiveContext<'a>,
}

impl<'a> InterpreterCtx<'a> {
    /// What the evaluation reads: the sheet and the values pushed into the
    /// cell.
    pub closed spec fn env(&self) -> Env {
        Env { cells: self.context.sheet().cells, inbox: self.context.inbox() }
    }

    /// The sheet that the evaluation reads.
    pub closed spec fn sheet(&self) -> SheetModel {
        self.context.sheet()
    }

    /// The reads and pushes made so far.
    pub closed spec fn effects(&self) -> Effects {
        self.context.effects()
    }

    /// An interpreter for an evaluation in the given context.
    pub fn new(context: ReactiveContext<'a>) -> (r: InterpreterCtx<'a>)
        ensures
            r.env() == (Env { cells: context.sheet().cells, inbox: context.inbox() }),
            r.sheet() == context.sheet(),
            r.effects() == context.effects(),
    {
        InterpreterCtx { context }
    }

    /// Ends the evaluation and hands its context back.
    pub fn into_context(self) -> (context: ReactiveContext<'a>)
        ensures
            self.env() == (Env { cells: context.sheet().cells, inbox: context.inbox() }),
            self.sheet() == context.sheet(),
            self.effects() == context.effects(),
    {
        self.context
    }

    /// Finds what a name stands for.
    fn resolve_name(&mut self, scope: &Scope, name: &String) -> (r: Result<EvaluatedValue, Error>)
        ensures
            final(self).env() == old(self).env(),
            final(self).sheet() == old(self).sheet(),
            (value_result(r), final(self).effects()) == resolve(
                old(self).env(),
                scope@,
                old(self).effects(),
                name@,
            ),
    {
        if refers_to_cell(name) {
            let n = name.as_str().unicode_len();
            let cell = name.as_str().substring_char(1, n);
            match self.context.read_cell_by_name(cell) {
                Some((_, value)) => cell_read(value, cell),
                None => Err(
                    Error::with_message("Unknown cell name ".to_owned().concat(cell).as_str()),
                ),
            }
        } else {
            match scope.lookup(name) {
                Some(v) => Ok(v.duplicate()),
                None => match lookup_builtin(name.as_str()) {
                    Some(b) => Ok(EvaluatedValue::BuiltinFunction(b)),
                    None => match self.context.peek_cell_by_name(name.as_str()) {
                        Some(value) => {
                            self.context.add_read_by_name(name.as_str());
                            cell_read(value, name.as_str())
                        },
                        None => Err(
                            Error::with_message(
                                "Unknown name ".to_owned().concat(name.as_str()).as_str(),
                            ),
                        ),
                    },
                },
            }
        }
    }

    /// Evaluates the expressions from left to right.
    fn evaluate_items(&mut self, scope: &mut Scope, items: &Vec<AST>, depth: usize) -> (r: Result<
        Vec<EvaluatedValue>,
        Error,
    >)
        ensures
            final(self).env() == old(self).env(),
            final(self).sheet() == old(self).sheet(),
            final(scope)@ == old(scope)@,
            (values_result(r), final(self).effects()) == eval_items(
                depth as nat,
                old(self).env(),
                old(scope)@,
                old(self).effects(),
                asts_view(items@),
                0,
                Seq::empty(),
            ),
        decreases depth, 1int, 0int,
    {
        let mut out: Vec<EvaluatedValue> = Vec::new();
        let mut i: usize = 0;
        assert(values_view(out@) =~= Seq::empty());
        while i < items.len()
            invariant
                i <= items.len(),
                self.env() == old(self).env(),
                self.sheet() == old(self).sheet(),
                scope@ == old(scope)@,
                eval_items(
                    depth as nat,
                    old(self).env(),
                    old(scope)@,
                    old(self).effects(),
                    asts_view(items@),
                    0,
                    Seq::empty(),
                ) == eval_items(
                    depth as nat,
                    self.env(),
                    scope@,
                    self.effects(),
                    asts_view(items@),
                    i as int,
                    values_view(out@),
                ),
            decreases items.len() - i,
        {
            match self.evaluate(scope, &items[i], depth) {
                Ok(v) => {
                    assert(values_view(out@.push(v)) =~= values_view(out@).push(v@));
                    out.push(v);
                },
                Err(e) => {
                    return Err(e);
                },
            }
            i = i + 1;
        }
        Ok(out)
    }

    /// Evaluates the fields of a record literal in their order.
    fn evaluate_fields(
        &mut self,
        scope: &mut Scope,
        fields: &Vec<(String, AST)>,
        depth: usize,
    ) -> (r: Result<Vec<(String, EvaluatedValue)>, Error>)
        ensures
            final(self).env() == old(self).env(),
            final(self).sheet() == old(self).sheet(),
            final(scope)@ == old(scope)@,
            (entries_result(r), final(self).effects()) == eval_fields(
                depth as nat,
                old(self).env(),
                old(scope)@,
                old(self).effects(),
                fields_view(fields@),
                0,
                Seq::empty(),
            ),
        decreases depth, 1int, 0int,
    {
        let mut out: Vec<(String, EvaluatedValue)> = Vec::new();
        let mut i: usize = 0;
        assert(entries_view(out@) =~= Seq::empty());
        while i < fields.len()
            invariant
                i <= fields.len(),
                self.env() == old(self).env(),
                self.sheet() == old(self).sheet(),
                scope@ == old(scope)@,
                eval_fields(
                    depth as nat,
                    old(self).env(),
                    old(scope)@,
                    old(self).effects(),
                    fields_view(fields@),
                    0,
                    Seq::empty(),
                ) == eval_fields(
                    depth as nat,
                    self.env(),
                    scope@,
                    self.effects(),
                    fields_view(fields@),
                    i as int,
                    entries_view(out@),
                ),
            decreases fields.len() - i,
        {
            match self.evaluate(scope, &fields[i].1, depth) {
                Ok(v) => {
                    let key = fields[i].0.clone();
                    assert(entries_view(out@.push((key, v))) =~= entries_view(out@).push(
                        (key@, v@),
                    ));
                    out.push((key, v));
                },
                Err(e) => {
                    return Err(e);
                },
            }
            i = i + 1;
        }
        Ok(out)
    }

    /// Evaluates the bindings of a `Let` one after the other and puts each
    /// into the scope. After an error the scope is as it was.
    fn evaluate_bindings(
        &mut self,
        scope: &mut Scope,
        bindings: &Vec<Binding>,
        depth: usize,
    ) -> (r: Result<(), Error>)
        ensures
            final(self).env() == old(self).env(),
            final(self).sheet() == old(self).sheet(),
            final(scope)@.len() >= old(scope)@.len(),
            final(scope)@.take(old(scope)@.len() as int) == old(scope)@,
            r is Err ==> final(scope)@ == old(scope)@,
            (
                match r {
                    Ok(_) => Ok(final(scope)@),
                    Err(e) => Err(e@),
                },
                final(self).effects(),
            ) == eval_bindings(
                depth as nat,
                old(self).env(),
                old(scope)@,
                old(self).effects(),
                bindings_view(bindings@),
                0,
            ),
        decreases depth, 1int, 0int,
    {
        let start = scope.len();
        let mut i: usize = 0;
        assert(scope@.take(start as int) =~= scope@);
        while i < bindings.len()
            invariant
                i <= bindings.len(),
                self.env() == old(self).env(),
                self.sheet() == old(self).sheet(),
                start == old(scope)@.len(),
                scope@.len() >= start,
                scope@.take(start as int) == old(scope)@,
                eval_bindings(
                    depth as nat,
                    old(self).env(),
                    old(scope)@,
                    old(self).effects(),
                    bindings_view(bindings@),
                    0,
                ) == eval_bindings(
                    depth as nat,
                    self.env(),
                    scope@,
                    self.effects(),
                    bindings_view(bindings@),
                    i as int,
                ),
            decreases bindings.len() - i,
        {
            match self.evaluate(scope, &bindings[i].1, depth) {
                Ok(v) => {
                    let ghost before = scope@;
                    scope.insert(bindings[i].0.clone(), v);
                    assert(scope@.take(start as int) =~= before.take(start as int));
                },
                Err(e) => {
                    scope.truncate(start);
                    return Err(e);
                },
            }
            i = i + 1;
        }
        Ok(())
    }

    /// Evaluates a call of `and`, `or` or `if`.
    fn evaluate_lazy(
        &mut self,
        scope: &mut Scope,
        b: BuiltinFunction,
        args: &Vec<AST>,
        depth: usize,
    ) -> (r: Result<EvaluatedValue, Error>)
        ensures
            final(self).env() == old(self).env(),
            final(self).sheet() == old(self).sheet(),
            final(scope)@ == old(scope)@,
            (value_result(r), final(self).effects()) == eval_lazy(
                depth as nat,
                old(self).env(),
                old(scope)@,
                old(self).effects(),
                b,
                asts_view(args@),
            ),
        decreases depth, 1int, 0int,
    {
        if b == BuiltinFunction::If {
            if args.len() != 3 {
                return Err(bad_arguments());
            }
            match self.evaluate(scope, &args[0], depth) {
                Ok(EvaluatedValue::Boolean(c)) => {
                    if c {
                        self.evaluate(scope, &args[1], depth)
                    } else {
                        self.evaluate(scope, &args[2], depth)
                    }
                },
                Ok(_) => Err(bad_arguments()),
                Err(e) => Err(e),
            }
        } else {
            if args.len() != 2 {
                return Err(bad_arguments());
            }
            match self.evaluate(scope, &args[0], depth) {
                Ok(EvaluatedValue::Boolean(x)) => {
                    if x == (b == BuiltinFunction::Or) {
                        Ok(EvaluatedValue::Boolean(x))
                    } else {
                        match self.evaluate(scope, &args[1], depth) {
                            Ok(EvaluatedValue::Boolean(y)) => Ok(EvaluatedValue::Boolean(y)),
                            Ok(_) => Err(bad_arguments()),
                            Err(e) => Err(e),
                        }
                    }
                },
                Ok(_) => Err(bad_arguments()),
                Err(e) => Err(e),
            }
        }
    }

    /// Evaluates a literal. A function written in the language keeps the
    /// values of the scope it is made in.
    pub fn evaluate_value(
        &mut self,
        scope: &mut Scope,
        value: &Value<AST>,
        depth: usize,
    ) -> (r: Result<EvaluatedValue, Error>)
        ensures
            final(self).env() == old(self).env(),
            final(self).sheet() == old(self).sheet(),
            final(scope)@ == old(scope)@,
            (value_result(r), final(self).effects()) == eval(
                depth as nat,
                old(self).env(),
                old(scope)@,
                old(self).effects(),
                literal_view(*value),
            ),
        decreases depth, 0int, 0int,
    {
        if depth == 0 {
            return Err(Error::with_message("Evaluation nested too deeply"));
        }
        match value {
            Value::Unit => Ok(EvaluatedValue::Unit),
            Value::Integer(i) => Ok(EvaluatedValue::Integer(*i)),
            Value::String(s) => Ok(EvaluatedValue::String(s.clone())),
            Value::Boolean(b) => Ok(EvaluatedValue::Boolean(*b)),
            Value::Record(fields) => match self.evaluate_fields(scope, fields, depth - 1) {
                Ok(entries) => Ok(EvaluatedValue::Record(entries)),
                Err(e) => Err(e),
            },
            Value::List(items) => match self.evaluate_items(scope, items, depth - 1) {
                Ok(vals) => Ok(EvaluatedValue::List(vals)),
                Err(e) => Err(e),
            },
            Value::BuiltinFunction(b) => Ok(EvaluatedValue::BuiltinFunction(*b)),
            Value::Lambda(params, body) => {
                let captured = capture_values(scope, params, body);
                Ok(EvaluatedValue::Lambda(duplicate_names(params), Box::new(captured)))
            },
        }
    }

    /// Evaluates an expression in the given scope, nesting at most `depth`
    /// deep.
    pub fn evaluate(&mut self, scope: &mut Scope, ast: &AST, depth: usize) -> (r: Result<
        EvaluatedValue,
        Error,
    >)
        ensures
            final(self).env() == old(self).env(),
            final(self).sheet() == old(self).sheet(),
            final(scope)@ == old(scope)@,
            (value_result(r), final(self).effects()) == eval(
                depth as nat,
                old(self).env(),
                old(scope)@,
                old(self).effects(),
                ast@,
            ),
        decreases depth, 0int, 1int,
    {
        if depth == 0 {
            return Err(Error::with_message("Evaluation nested too deeply"));
        }
        let d = depth - 1;
        match ast {
            AST::Literal(value) => self.evaluate_value(scope, value, depth),
            AST::Name(name) => self.resolve_name(scope, name),
            AST::FieldAccess(record, field) => match self.evaluate(scope, record, d) {
                Ok(EvaluatedValue::Record(entries)) => entry_value(&entries, field),
                Ok(_) => Err(Error::with_message("Cannot access the field of a non-record type")),
                Err(e) => Err(e),
            },
            AST::Let(bindings, body) => {
                let start = scope.len();
                match self.evaluate_bindings(scope, bindings, d) {
                    Ok(_) => {
                        let r = self.evaluate(scope, body, d);
                        scope.truncate(start);
                        r
                    },
                    Err(e) => Err(e),
                }
            },
            AST::Function(callee, args) => {
                let f = match self.evaluate(scope, callee, d) {
                    Ok(f) => f,
                    Err(e) => {
                        return Err(e);
                    },
                };
                if let EvaluatedValue::BuiltinFunction(b) = &f {
                    if lazy(*b) {
                        return self.evaluate_lazy(scope, *b, args, d);
                    }
                }
                if !callable(&f) {
                    return Err(Error::with_message("Uncallable type"));
                }
                match self.evaluate_items(scope, args, d) {
                    Ok(vals) => self.apply_value(&f, &vals, d),
                    Err(e) => Err(e),
                }
            },
        }
    }

    /// Calls the function value `f` on the arguments.
    pub fn apply_value(
        &mut self,
        f: &EvaluatedValue,
        args: &Vec<EvaluatedValue>,
        depth: usize,
    ) -> (r: Result<EvaluatedValue, Error>)
        ensures
            final(self).env() == old(self).env(),
            final(self).sheet() == old(self).sheet(),
            (value_result(r), final(self).effects()) == apply_value(
                depth as nat,
                old(self).env(),
                old(self).effects(),
                f@,
                values_view(args@),
            ),
        decreases depth, 2int, 0int,
    {
        match f {
            EvaluatedValue::Lambda(params, body) => {
                if params.len() != args.len() {
                    return Err(Error::with_message("Incorrect number of arguments"));
                }
                let mut scope = bind_parameters(params, args);
                self.evaluate(&mut scope, body, depth)
            },
            EvaluatedValue::BuiltinFunction(b) => {
                if depth == 0 {
                    return Err(Error::with_message("Evaluation nested too deeply"));
                }
                self.apply_builtin(*b, args, depth - 1)
            },
            _ => Err(Error::with_message("Uncallable type")),
        }
    }

    /// Applies a primitive operation to evaluated arguments.
    pub fn apply_builtin(
        &mut self,
        b: BuiltinFunction,
        args: &Vec<EvaluatedValue>,
        depth: usize,
    ) -> (r: Result<EvaluatedValue, Error>)
        ensures
            final(self).env() == old(self).env(),
            final(self).sheet() == old(self).sheet(),
            (value_result(r), final(self).effects()) == apply_builtin(
                depth as nat,
                old(self).env(),
                old(self).effects(),
                b,
                values_view(args@),
            ),
        decreases depth, 4int, 0int,
    {
        match b {
            BuiltinFunction::Push => {
                if args.len() == 2 {
                    match &args[0] {
                        EvaluatedValue::String(target) => {
                            self.context.add_push_by_name(target.as_str(), &args[1]);
                            Ok(EvaluatedValue::Unit)
                        },
                        _ => Err(bad_arguments()),
                    }
                } else {
                    Err(bad_arguments())
                }
            },
            BuiltinFunction::Read => {
                if args.len() == 0 {
                    Ok(EvaluatedValue::List(crate::language::ast::duplicate_values(
                        self.context.get_pushes(),
                    )))
                } else {
                    Err(bad_arguments())
                }
            },
            BuiltinFunction::MapEach => {
                if args.len() == 2 && callable(&args[0]) {
                    match &args[1] {
                        EvaluatedValue::List(items) => match self.map_items(&args[0], items, depth) {
                            Ok(vals) => Ok(EvaluatedValue::List(vals)),
                            Err(e) => Err(e),
                        },
                        EvaluatedValue::Record(entries) => match self.map_entries(
                            &args[0],
                            entries,
                            depth,
                        ) {
                            Ok(mapped) => Ok(EvaluatedValue::Record(mapped)),
                            Err(e) => Err(e),
                        },
                        _ => Err(bad_arguments()),
                    }
                } else {
                    Err(bad_arguments())
                }
            },
            BuiltinFunction::Fold => {
                if args.len() == 3 && callable(&args[0]) {
                    match &args[2] {
                        EvaluatedValue::List(items) => self.fold_items(
                            &args[0],
                            &args[1],
                            items,
                            depth,
                        ),
                        EvaluatedValue::Record(entries) => self.fold_entries(
                            &args[0],
                            &args[1],
                            entries,
                            depth,
                        ),
                        _ => Err(bad_arguments()),
                    }
                } else {
                    Err(bad_arguments())
                }
            },
            BuiltinFunction::Filter => {
                if args.len() == 2 && callable(&args[0]) {
                    match &args[1] {
                        EvaluatedValue::List(items) => match self.filter_items(
                            &args[0],
                            items,
                            depth,
                        ) {
                            Ok(vals) => Ok(EvaluatedValue::List(vals)),
                            Err(e) => Err(e),
                        },
                        EvaluatedValue::Record(entries) => match self.filter_entries(
                            &args[0],
                            entries,
                            depth,
                        ) {
                            Ok(kept) => Ok(EvaluatedValue::Record(kept)),
                            Err(e) => Err(e),
                        },
                        _ => Err(bad_arguments()),
                    }
                } else {
                    Err(bad_arguments())
                }
            },
            _ => apply_simple_builtin(b, args),
        }
    }

    /// Applies `f` to each item.
    fn map_items(
        &mut self,
        f: &EvaluatedValue,
        items: &Vec<EvaluatedValue>,
        depth: usize,
    ) -> (r: Result<Vec<EvaluatedValue>, Error>)
        ensures
            final(self).env() == old(self).env(),
            final(self).sheet() == old(self).sheet(),
            (values_result(r), final(self).effects()) == map_items(
                depth as nat,
                old(self).env(),
                old(self).effects(),
                f@,
                values_view(items@),
                0,
                Seq::empty(),
            ),
        decreases depth, 3int, 0int,
    {
        let mut out: Vec<EvaluatedValue> = Vec::new();
        let mut i: usize = 0;
        assert(values_view(out@) =~= Seq::empty());
        while i < items.len()
            invariant
                i <= items.len(),
                self.env() == old(self).env(),
                self.sheet() == old(self).sheet(),
                map_items(
                    depth as nat,
                    old(self).env(),
                    old(self).effects(),
                    f@,
                    values_view(items@),
                    0,
                    Seq::empty(),
                ) == map_items(
                    depth as nat,
                    self.env(),
                    self.effects(),
                    f@,
                    values_view(items@),
                    i as int,
                    values_view(out@),
                ),
            decreases items.len() - i,
        {
            let call = vec![items[i].duplicate()];
            assert(values_view(call@) =~= seq![items@[i as int]@]);
            match self.apply_value(f, &call, depth) {
                Ok(v) => {
                    assert(values_view(out@.push(v)) =~= values_view(out@).push(v@));
                    out.push(v);
                },
                Err(e) => {
                    return Err(e);
                },
            }
            i = i + 1;
        }
        Ok(out)
    }

    /// Applies `f` to the key and the value of each entry; the keys stay.
    fn map_entries(
        &mut self,
        f: &EvaluatedValue,
        entries: &Vec<(String, EvaluatedValue)>,
        depth: usize,
    ) -> (r: Result<Vec<(String, EvaluatedValue)>, Error>)
        ensures
            final(self).env() == old(self).env(),
            final(self).sheet() == old(self).sheet(),
            (entries_result(r), final(self).effects()) == map_entries(
                depth as nat,
                old(self).env(),
                old(self).effects(),
                f@,
                entries_view(entries@),
                0,
                Seq::empty(),
            ),
        decreases depth, 3int, 0int,
    {
        let mut out: Vec<(String, EvaluatedValue)> = Vec::new();
        let mut i: usize = 0;
        assert(entries_view(out@) =~= Seq::empty());
        while i < entries.len()
            invariant
                i <= entries.len(),
                self.env() == old(self).env(),
                self.sheet() == old(self).sheet(),
                map_entries(
                    depth as nat,
                    old(self).env(),
                    old(self).effects(),
                    f@,
                    entries_view(entries@),
                    0,
                    Seq::empty(),
                ) == map_entries(
                    depth as nat,
                    self.env(),
                    self.effects(),
                    f@,
                    entries_view(entries@),
                    i as int,
                    entries_view(out@),
                ),
            decreases entries.len() - i,
        {
            let key = EvaluatedValue::String(entries[i].0.clone());
            let call = vec![key, entries[i].1.duplicate()];
            assert(values_view(call@) =~= seq![
                Val::Str(entries@[i as int].0@),
                entries@[i as int].1@,
            ]);
            match self.apply_value(f, &call, depth) {
                Ok(v) => {
                    let name = entries[i].0.clone();
                    assert(entries_view(out@.push((name, v))) =~= entries_view(out@).push(
                        (name@, v@),
                    ));
                    out.push((name, v));
                },
                Err(e) => {
                    return Err(e);
                },
            }
            i = i + 1;
        }
        Ok(out)
    }

    /// Folds `f` over the items from the left, starting from `init`.
    fn fold_items(
        &mut self,
        f: &EvaluatedValue,
        init: &EvaluatedValue,
        items: &Vec<EvaluatedValue>,
        depth: usize,
    ) -> (r: Result<EvaluatedValue, Error>)
        ensures
            final(self).env() == old(self).env(),
            final(self).sheet() == old(self).sheet(),
            (value_result(r), final(self).effects()) == fold_items(
                depth as nat,
                old(self).env(),
                old(self).effects(),
                f@,
                init@,
                values_view(items@),
                0,
            ),
        decreases depth, 3int, 0int,
    {
        let mut acc = init.duplicate();
        let mut i: usize = 0;
        while i < items.len()
            invariant
                i <= items.len(),
                self.env() == old(self).env(),
                self.sheet() == old(self).sheet(),
                fold_items(
                    depth as nat,
                    old(self).env(),
                    old(self).effects(),
                    f@,
                    init@,
                    values_view(items@),
                    0,
                ) == fold_items(
                    depth as nat,
                    self.env(),
                    self.effects(),
                    f@,
                    acc@,
                    values_view(items@),
                    i as int,
                ),
            decreases items.len() - i,
        {
            let ghost before = acc@;
            let call = vec![acc, items[i].duplicate()];
            assert(values_view(call@) =~= seq![before, items@[i as int]@]);
            match self.apply_value(f, &call, depth) {
                Ok(v) => {
                    acc = v;
                },
                Err(e) => {
                    return Err(e);
                },
            }
            i = i + 1;
        }
        Ok(acc)
    }

    /// Folds `f` over the entries from the left, starting from `init`; `f`
    /// takes the accumulator, the key and the value.
    fn fold_entries(
        &mut self,
        f: &EvaluatedValue,
        init: &EvaluatedValue,
        entries: &Vec<(String, EvaluatedValue)>,
        depth: usize,
    ) -> (r: Result<EvaluatedValue, Error>)
        ensures
            final(self).env() == old(self).env(),
            final(self).sheet() == old(self).sheet(),
            (value_result(r), final(self).effects()) == fold_entries(
                depth as nat,
                old(self).env(),
                old(self).effects(),
                f@,
                init@,
                entries_view(entries@),
                0,
            ),
        decreases depth, 3int, 0int,
    {
        let mut acc = init.duplicate();
        let mut i: usize = 0;
        while i < entries.len()
            invariant
                i <= entries.len(),
                self.env() == old(self).env(),
                self.sheet() == old(self).sheet(),
                fold_entries(
                    depth as nat,
                    old(self).env(),
                    old(self).effects(),
                    f@,
                    init@,
                    entries_view(entries@),
                    0,
                ) == fold_entries(
                    depth as nat,
                    self.env(),
                    self.effects(),
                    f@,
                    acc@,
                    entries_view(entries@),
                    i as int,
                ),
            decreases entries.len() - i,
        {
            let ghost before = acc@;
            let key = EvaluatedValue::String(entries[i].0.clone());
            let call = vec![acc, key, entries[i].1.duplicate()];
            assert(values_view(call@) =~= seq![
                before,
                Val::Str(entries@[i as int].0@),
                entries@[i as int].1@,
            ]);
            match self.apply_value(f, &call, depth) {
                Ok(v) => {
                    acc = v;
                },
                Err(e) => {
                    return Err(e);
                },
            }
            i = i + 1;
        }
        Ok(acc)
    }

    /// Keeps the items for which `f` gives `true`.
    fn filter_items(
        &mut self,
        f: &EvaluatedValue,
        items: &Vec<EvaluatedValue>,
        depth: usize,
    ) -> (r: Result<Vec<EvaluatedValue>, Error>)
        ensures
            final(self).env() == old(self).env(),
            final(self).sheet() == old(self).sheet(),
            (values_result(r), final(self).effects()) == filter_items(
                depth as nat,
                old(self).env(),
                old(self).effects(),
                f@,
                values_view(items@),
                0,
                Seq::empty(),
            ),
        decreases depth, 3int, 0int,
    {
        let mut out: Vec<EvaluatedValue> = Vec::new();
        let mut i: usize = 0;
        assert(values_view(out@) =~= Seq::empty());
        while i < items.len()
            invariant
                i <= items.len(),
                self.env() == old(self).env(),
                self.sheet() == old(self).sheet(),
                filter_items(
                    depth as nat,
                    old(self).env(),
                    old(self).effects(),
                    f@,
                    values_view(items@),
                    0,
                    Seq::empty(),
                ) == filter_items(
                    depth as nat,
                    self.env(),
                    self.effects(),
                    f@,
                    values_view(items@),
                    i as int,
                    values_view(out@),
                ),
            decreases items.len() - i,
        {
            let call = vec![items[i].duplicate()];
            assert(values_view(call@) =~= seq![items@[i as int]@]);
            match self.apply_value(f, &call, depth) {
                Ok(EvaluatedValue::Boolean(keep)) => {
                    if keep {
                        let kept = items[i].duplicate();
                        assert(values_view(out@.push(kept)) =~= values_view(out@).push(kept@));
                        out.push(kept);
                    }
                },
                Ok(_) => {
                    return Err(bad_arguments());
                },
                Err(e) => {
                    return Err(e);
                },
            }
            i = i + 1;
        }
        Ok(out)
    }

    /// Keeps the entries for whose key and value `f` gives `true`.
    fn filter_entries(
        &mut self,
        f: &EvaluatedValue,
        entries: &Vec<(String, EvaluatedValue)>,
        depth: usize,
    ) -> (r: Result<Vec<(String, EvaluatedValue)>, Error>)
        ensures
            final(self).env() == old(self).env(),
            final(self).sheet() == old(self).sheet(),
            (entries_result(r), final(self).effects()) == filter_entries(
                depth as nat,
                old(self).env(),
                old(self).effects(),
                f@,
                entries_view(entries@),
                0,
                Seq::empty(),
            ),
        decreases depth, 3int, 0int,
    {
        let mut out: Vec<(String, EvaluatedValue)> = Vec::new();
        let mut i: usize = 0;
        assert(entries_view(out@) =~= Seq::empty());
        while i < entries.len()
            invariant
                i <= entries.len(),
                self.env() == old(self).env(),
                self.sheet() == old(self).sheet(),
                filter_entries(
                    depth as nat,
                    old(self).env(),
                    old(self).effects(),
                    f@,
                    entries_view(entries@),
                    0,
                    Seq::empty(),
                ) == filter_entries(
                    depth as nat,
                    self.env(),
                    self.effects(),
                    f@,
                    entries_view(entries@),
                    i as int,
                    entries_view(out@),
                ),
            decreases entries.len() - i,
        {
            let key = EvaluatedValue::String(entries[i].0.clone());
            let call = vec![key, entries[i].1.duplicate()];
            assert(values_view(call@) =~= seq![
                Val::Str(entries@[i as int].0@),
                entries@[i as int].1@,
            ]);
            match self.apply_value(f, &call, depth) {
                Ok(EvaluatedValue::Boolean(keep)) => {
                    if keep {
                        let kept = (entries[i].0.clone(), entries[i].1.duplicate());
                        assert(entries_view(out@.push(kept)) =~= entries_view(out@).push(
                            (kept.0@, kept.1@),
                        ));
                        out.push(kept);
                    }
                },
                Ok(_) => {
                    return Err(bad_arguments());
                },
                Err(e) => {
                    return Err(e);
                },
            }
            i = i + 1;
        }
        Ok(out)
    }
}

impl IntermediateRep for AST {
    type Value = EvaluatedValue;

    type Error = Error;

    open spec fn parses_to(text: Seq<char>, r: Result<AST, Error>) -> bool {
        ast_result(r) == parse_spec(text)
    }

    open spec fn evaluates_to(
        &self,
        sheet: SheetModel,
        inbox: Seq<Val>,
        depth: nat,
        before: Effects,
        r: Result<EvaluatedValue, Error>,
        after: Effects,
    ) -> bool {
        (value_result(r), after) == eval(
            depth,
            Env { cells: sheet.cells, inbox },
            Seq::empty(),
            before,
            self@,
        )
    }

    open spec fn is_error(message: Seq<char>, e: Error) -> bool {
        e@ == message
    }

    fn parse(text: &str) -> (r: Result<AST, Error>) {
        parse(text)
    }

    fn evaluate<'a>(&self, ctx: ReactiveContext<'a>, depth: usize) -> (r: (
        Result<EvaluatedValue, Error>,
        ReactiveContext<'a>,
    )) {
        let mut interpreter = InterpreterCtx::new(ctx);
        let mut scope = Scope::new();
        let value = interpreter.evaluate(&mut scope, self, depth);
        (value, interpreter.into_context())
    }

    fn make_error(message: &str) -> (e: Error) {
        Error::with_message(message)
    }
}

} // verus!
