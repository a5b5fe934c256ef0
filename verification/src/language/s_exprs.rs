//! The textual form of values and expression trees: s-expressions.
use crate::language::ast::{
    asts_view, bindings_view, entries_view, fields_view, literal_view, names_view, values_view, AST,
    Binding, EvaluatedValue, Expr, Val, Value,
};
use crate::language::builtins::{builtin_symbol, stringify_builtin};
use crate::language::errors::Error;
use crate::language::semantics::{embed, embed_entries, embed_items};
use crate::language::text::{int_text, push_int_text};
use vstd::prelude::*;
use vstd::string::StringExecFns;

verus! {

/// The first `n` names, with `sep` between them.
pub open spec fn names_text(names: Seq<Seq<char>>, sep: Seq<char>, n: int) -> Seq<char>
    decreases n,
{
    if n <= 0 || n > names.len() {
        Seq::empty()
    } else if n == 1 {
        names[0]
    } else {
        names_text(names, sep, n - 1) + sep + names[n - 1]
    }
}

/// The text of a function value written in the language.
pub open spec fn lambda_text(params: Seq<Seq<char>>, body: Seq<char>) -> Seq<char> {
    "(lambda ("@ + names_text(params, ", "@, params.len() as int) + ") "@ + body + ")"@
}

/// The text of a primitive operation as a value.
pub open spec fn builtin_text(symbol: Seq<char>) -> Seq<char> {
    "(builtin "@ + symbol + ")"@
}

/// The text of a string value.
pub open spec fn quoted(s: Seq<char>) -> Seq<char> {
    "\""@ + s + "\""@
}

/// The text of a truth value.
pub open spec fn bool_text(b: bool) -> Seq<char> {
    if b {
        "true"@
    } else {
        "false"@
    }
}

/// The s-expression of an expression tree.
pub open spec fn expr_text(e: Expr) -> Seq<char>
    decreases e, 0int,
{
    match e {
        Expr::Unit => "()"@,
        Expr::Integer(i) => int_text(i as int),
        Expr::Str(s) => quoted(s),
        Expr::Boolean(b) => bool_text(b),
        Expr::Record(fields) => "{"@ + fields_text(fields, fields.len() as int) + "}"@,
        Expr::List(items) => "["@ + exprs_text(items, ", "@, items.len() as int) + "]"@,
        Expr::Builtin(b) => builtin_text(builtin_symbol(b)),
        Expr::Lambda(params, body) => lambda_text(params, expr_text(*body)),
        Expr::Name(n) => n,
        Expr::Call(f, args) => "("@ + expr_text(*f) + " "@ + exprs_text(
            args,
            " "@,
            args.len() as int,
        ) + ")"@,
        Expr::FieldAccess(record, field) => "(."@ + field + " "@ + expr_text(*record) + ")"@,
        Expr::Let(bindings, body) => "(let ("@ + bindings_text(bindings, bindings.len() as int)
            + ") "@ + expr_text(*body) + ")"@,
    }
}

/// The s-expressions of the first `n` expressions, with `sep` between them.
pub open spec fn exprs_text(items: Seq<Expr>, sep: Seq<char>, n: int) -> Seq<char>
    decreases items, n,
{
    if n <= 0 || n > items.len() {
        Seq::empty()
    } else if n == 1 {
        expr_text(items[0])
    } else {
        exprs_text(items, sep, n - 1) + sep + expr_text(items[n - 1])
    }
}

/// The first `n` fields of a record literal, each as `key: value`, with
/// commas between them.
pub open spec fn fields_text(fields: Seq<(Seq<char>, Expr)>, n: int) -> Seq<char>
    decreases fields, n,
{
    if n <= 0 || n > fields.len() {
        Seq::empty()
    } else if n == 1 {
        fields[0].0 + ": "@ + expr_text(fields[0].1)
    } else {
        fields_text(fields, n - 1) + ", "@ + fields[n - 1].0 + ": "@ + expr_text(fields[n - 1].1)
    }
}

/// The first `n` bindings of a `Let`, each as `(name value)`, with blanks
/// between them.
pub open spec fn bindings_text(bindings: Seq<(Seq<char>, Expr)>, n: int) -> Seq<char>
    decreases bindings, n,
{
    if n <= 0 || n > bindings.len() {
        Seq::empty()
    } else if n == 1 {
        "("@ + bindings[0].0 + " "@ + expr_text(bindings[0].1) + ")"@
    } else {
        bindings_text(bindings, n - 1) + " "@ + "("@ + bindings[n - 1].0 + " "@ + expr_text(
            bindings[n - 1].1,
        ) + ")"@
    }
}

/// The s-expression of a value.
pub open spec fn val_text(v: Val) -> Seq<char>
    decreases v, 0int,
{
    match v {
        Val::Unit => "()"@,
        Val::Integer(i) => int_text(i as int),
        Val::Str(s) => quoted(s),
        Val::Boolean(b) => bool_text(b),
        Val::Record(entries) => "{"@ + entries_text(entries, entries.len() as int) + "}"@,
        Val::List(items) => "["@ + vals_text(items, items.len() as int) + "]"@,
        Val::Builtin(b) => builtin_text(builtin_symbol(b)),
        Val::Lambda(params, body) => lambda_text(params, expr_text(body)),
    }
}

/// The s-expressions of the first `n` values, with commas between them.
pub open spec fn vals_text(items: Seq<Val>, n: int) -> Seq<char>
    decreases items, n,
{
    if n <= 0 || n > items.len() {
        Seq::empty()
    } else if n == 1 {
        val_text(items[0])
    } else {
        vals_text(items, n - 1) + ", "@ + val_text(items[n - 1])
    }
}

/// The first `n` entries of a record value, each as `key: value`, with
/// commas between them.
pub open spec fn entries_text(entries: Seq<(Seq<char>, Val)>, n: int) -> Seq<char>
    decreases entries, n,
{
    if n <= 0 || n > entries.len() {
        Seq::empty()
    } else if n == 1 {
        entries[0].0 + ": "@ + val_text(entries[0].1)
    } else {
        entries_text(entries, n - 1) + ", "@ + entries[n - 1].0 + ": "@ + val_text(
            entries[n - 1].1,
        )
    }
}

/// A value is written as the literal expression that evaluates to it.
pub proof fn val_text_is_literal_text(v: Val)
    ensures
        val_text(v) == expr_text(embed(v)),
    decreases v, 0int,
{
    match v {
        Val::Record(entries) => {
            entries_text_is_fields_text(entries, entries.len() as int);
        },
        Val::List(items) => {
            vals_text_is_exprs_text(items, items.len() as int);
        },
        _ => {},
    }
}

/// Values are written as the literal expressions that evaluate to them.
pub proof fn vals_text_is_exprs_text(items: Seq<Val>, n: int)
    ensures
        vals_text(items, n) == exprs_text(embed_items(items), ", "@, n),
    decreases items, n,
{
    if 0 < n <= items.len() {
        val_text_is_literal_text(items[0]);
        val_text_is_literal_text(items[n - 1]);
        vals_text_is_exprs_text(items, n - 1);
    }
}

/// The entries of a record value are written as the fields of the record
/// literal that evaluates to it.
pub proof fn entries_text_is_fields_text(entries: Seq<(Seq<char>, Val)>, n: int)
    ensures
        entries_text(entries, n) == fields_text(embed_entries(entries), n),
    decreases entries, n,
{
    if 0 < n <= entries.len() {
        val_text_is_literal_text(entries[0].1);
        val_text_is_literal_text(entries[n - 1].1);
        entries_text_is_fields_text(entries, n - 1);
    }
}

/// The text of the outcome of an evaluation: the s-expression of the value,
/// or the message of the error after `Error: `.
pub open spec fn result_text(r: Result<Val, Seq<char>>) -> Seq<char> {
    match r {
        Ok(v) => val_text(v),
        Err(m) => "Error: "@ + m,
    }
}

/// Appends the names, with `sep` between them.
fn push_names_text(out: &mut String, names: &Vec<String>, sep: &str)
    ensures
        final(out)@ == old(out)@ + names_text(names_view(names@), sep@, names.len() as int),
{
    let ghost view = names_view(names@);
    let mut i: usize = 0;
    while i < names.len()
        invariant
            i <= names.len(),
            view == names_view(names@),
            out@ == old(out)@ + names_text(view, sep@, i as int),
        decreases names.len() - i,
    {
        if i > 0 {
            out.append(sep);
        }
        out.append(names[i].as_str());
        i = i + 1;
        assert(out@ =~= old(out)@ + names_text(view, sep@, i as int));
    }
    assert(out@ =~= old(out)@ + names_text(view, sep@, names.len() as int));
}

/// Appends the text of a function value with the given parameters and body.
fn push_lambda_text(out: &mut String, params: &Vec<String>, body: &AST)
    ensures
        final(out)@ == old(out)@ + lambda_text(names_view(params@), expr_text(body@)),
    decreases body, 1int,
{
    out.append("(lambda (");
    push_names_text(out, params, ", ");
    out.append(") ");
    push_expr_text(out, body);
    out.append(")");
    assert(out@ =~= old(out)@ + lambda_text(names_view(params@), expr_text(body@)));
}

/// Appends the s-expressions of the expressions, with `sep` between them.
fn push_exprs_text(out: &mut String, items: &Vec<AST>, sep: &str)
    ensures
        final(out)@ == old(out)@ + exprs_text(asts_view(items@), sep@, items.len() as int),
    decreases items, 0int,
{
    let ghost view = asts_view(items@);
    let mut i: usize = 0;
    while i < items.len()
        invariant
            i <= items.len(),
            view == asts_view(items@),
            out@ == old(out)@ + exprs_text(view, sep@, i as int),
        decreases items.len() - i,
    {
        if i > 0 {
            out.append(sep);
        }
        push_expr_text(out, &items[i]);
        i = i + 1;
        assert(out@ =~= old(out)@ + exprs_text(view, sep@, i as int));
    }
    assert(out@ =~= old(out)@ + exprs_text(view, sep@, items.len() as int));
}

/// Appends the fields of a record literal.
fn push_fields_text(out: &mut String, fields: &Vec<(String, AST)>)
    ensures
        final(out)@ == old(out)@ + fields_text(fields_view(fields@), fields.len() as int),
    decreases fields, 0int,
{
    let ghost view = fields_view(fields@);
    let mut i: usize = 0;
    while i < fields.len()
        invariant
            i <= fields.len(),
            view == fields_view(fields@),
            out@ == old(out)@ + fields_text(view, i as int),
        decreases fields.len() - i,
    {
        if i > 0 {
            out.append(", ");
        }
        out.append(fields[i].0.as_str());
        out.append(": ");
        push_expr_text(out, &fields[i].1);
        i = i + 1;
        assert(out@ =~= old(out)@ + fields_text(view, i as int));
    }
    assert(out@ =~= old(out)@ + fields_text(view, fields.len() as int));
}

/// Appends the bindings of a `Let`.
fn push_bindings_text(out: &mut String, bindings: &Vec<Binding>)
    ensures
        final(out)@ == old(out)@ + bindings_text(bindings_view(bindings@), bindings.len() as int),
    decreases bindings, 0int,
{
    let ghost view = bindings_view(bindings@);
    let mut i: usize = 0;
    while i < bindings.len()
        invariant
            i <= bindings.len(),
            view == bindings_view(bindings@),
            out@ == old(out)@ + bindings_text(view, i as int),
        decreases bindings.len() - i,
    {
        if i > 0 {
            out.append(" ");
        }
        out.append("(");
        out.append(bindings[i].0.as_str());
        out.append(" ");
        push_expr_text(out, &bindings[i].1);
        out.append(")");
        i = i + 1;
        assert(out@ =~= old(out)@ + bindings_text(view, i as int));
    }
    assert(out@ =~= old(out)@ + bindings_text(view, bindings.len() as int));
}

/// Appends the s-expression of a literal.
fn push_literal_text(out: &mut String, value: &Value<AST>)
    ensures
        final(out)@ == old(out)@ + expr_text(literal_view(*value)),
    decreases value, 0int,
{
    match value {
        Value::Unit => {
            out.append("()");
        },
        Value::Integer(i) => {
            push_int_text(out, *i);
        },
        Value::String(s) => {
            out.append("\"");
            out.append(s.as_str());
            out.append("\"");
            assert(out@ =~= old(out)@ + quoted(s@));
        },
        Value::Boolean(b) => {
            if *b {
                out.append("true");
            } else {
                out.append("false");
            }
        },
        Value::Record(fields) => {
            out.append("{");
            push_fields_text(out, fields);
            out.append("}");
            assert(out@ =~= old(out)@ + expr_text(literal_view(*value)));
        },
        Value::List(items) => {
            out.append("[");
            push_exprs_text(out, items, ", ");
            out.append("]");
            assert(out@ =~= old(out)@ + expr_text(literal_view(*value)));
        },
        Value::BuiltinFunction(b) => {
            out.append("(builtin ");
            let symbol = stringify_builtin(*b);
            out.append(symbol.as_str());
            out.append(")");
            assert(out@ =~= old(out)@ + builtin_text(builtin_symbol(*b)));
        },
        Value::Lambda(params, body) => {
            push_lambda_text(out, params, body);
        },
    }
}

/// Appends the s-expression of an expression tree.
pub fn push_expr_text(out: &mut String, ast: &AST)
    ensures
        final(out)@ == old(out)@ + expr_text(ast@),
    decreases ast, 0int,
{
    match ast {
        AST::Literal(value) => {
            push_literal_text(out, value);
        },
        AST::Name(name) => {
            out.append(name.as_str());
        },
        AST::Function(callee, args) => {
            out.append("(");
            push_expr_text(out, callee);
            out.append(" ");
            push_exprs_text(out, args, " ");
            out.append(")");
            assert(out@ =~= old(out)@ + expr_text(ast@));
        },
        AST::FieldAccess(record, field) => {
            out.append("(.");
            out.append(field.as_str());
            out.append(" ");
            push_expr_text(out, record);
            out.append(")");
            assert(out@ =~= old(out)@ + expr_text(ast@));
        },
        AST::Let(bindings, body) => {
            out.append("(let (");
            push_bindings_text(out, bindings);
            out.append(") ");
            push_expr_text(out, body);
            out.append(")");
            assert(out@ =~= old(out)@ + expr_text(ast@));
        },
    }
}

/// Appends the s-expressions of the values, with commas between them.
fn push_values_text(out: &mut String, items: &Vec<EvaluatedValue>)
    ensures
        final(out)@ == old(out)@ + vals_text(values_view(items@), items.len() as int),
    decreases items, 0int,
{
    let ghost view = values_view(items@);
    let mut i: usize = 0;
    while i < items.len()
        invariant
            i <= items.len(),
            view == values_view(items@),
            out@ == old(out)@ + vals_text(view, i as int),
        decreases items.len() - i,
    {
        if i > 0 {
            out.append(", ");
        }
        push_value_text(out, &items[i]);
        i = i + 1;
        assert(out@ =~= old(out)@ + vals_text(view, i as int));
    }
    assert(out@ =~= old(out)@ + vals_text(view, items.len() as int));
}

/// Appends the entries of a record value.
fn push_entries_text(out: &mut String, entries: &Vec<(String, EvaluatedValue)>)
    ensures
        final(out)@ == old(out)@ + entries_text(entries_view(entries@), entries.len() as int),
    decreases entries, 0int,
{
    let ghost view = entries_view(entries@);
    let mut i: usize = 0;
    while i < entries.len()
        invariant
            i <= entries.len(),
            view == entries_view(entries@),
            out@ == old(out)@ + entries_text(view, i as int),
        decreases entries.len() - i,
    {
        if i > 0 {
            out.append(", ");
        }
        out.append(entries[i].0.as_str());
        out.append(": ");
        push_value_text(out, &entries[i].1);
        i = i + 1;
        assert(out@ =~= old(out)@ + entries_text(view, i as int));
    }
    assert(out@ =~= old(out)@ + entries_text(view, entries.len() as int));
}

/// Appends the s-expression of a value.
pub fn push_value_text(out: &mut String, value: &EvaluatedValue)
    ensures
        final(out)@ == old(out)@ + val_text(value@),
    decreases value, 0int,
{
    match value {
        EvaluatedValue::Unit => {
            out.append("()");
        },
        EvaluatedValue::Integer(i) => {
            push_int_text(out, *i);
        },
        EvaluatedValue::String(s) => {
            out.append("\"");
            out.append(s.as_str());
            out.append("\"");
            assert(out@ =~= old(out)@ + quoted(s@));
        },
        EvaluatedValue::Boolean(b) => {
            if *b {
                out.append("true");
            } else {
                out.append("false");
            }
        },
        EvaluatedValue::Record(entries) => {
            out.append("{");
            push_entries_text(out, entries);
            out.append("}");
            assert(out@ =~= old(out)@ + val_text(value@));
        },
        EvaluatedValue::List(items) => {
            out.append("[");
            push_values_text(out, items);
            out.append("]");
            assert(out@ =~= old(out)@ + val_text(value@));
        },
        EvaluatedValue::BuiltinFunction(b) => {
            out.append("(builtin ");
            let symbol = stringify_builtin(*b);
            out.append(symbol.as_str());
            out.append(")");
            assert(out@ =~= old(out)@ + builtin_text(builtin_symbol(*b)));
        },
        EvaluatedValue::Lambda(params, body) => {
            push_lambda_text(out, params, body);
        },
    }
}

/// Values that have an s-expression.
pub trait ToSExpr {
    /// The s-expression of the value.
    spec fn s_expr(&self) -> Seq<char>;

    /// Writes the value as an s-expression.
    fn to_s_expr(&self) -> (r: String)
        ensures
            r@ == self.s_expr(),
    ;
}

impl ToSExpr for EvaluatedValue {
    open spec fn s_expr(&self) -> Seq<char> {
        val_text(self@)
    }

    fn to_s_expr(&self) -> (r: String) {
        let mut out = String::new();
        push_value_text(&mut out, self);
        assert(out@ =~= val_text(self@));
        out
    }
}

impl ToSExpr for Value<AST> {
    open spec fn s_expr(&self) -> Seq<char> {
        expr_text(literal_view(*self))
    }

    fn to_s_expr(&self) -> (r: String) {
        let mut out = String::new();
        push_literal_text(&mut out, self);
        assert(out@ =~= expr_text(literal_view(*self)));
        out
    }
}

impl ToSExpr for AST {
    open spec fn s_expr(&self) -> Seq<char> {
        expr_text(self@)
    }

    fn to_s_expr(&self) -> (r: String) {
        let mut out = String::new();
        push_expr_text(&mut out, self);
        assert(out@ =~= expr_text(self@));
        out
    }
}

/// The model of the outcome of an evaluation.
pub open spec fn value_result(r: Result<EvaluatedValue, Error>) -> Result<Val, Seq<char>> {
    match r {
        Ok(v) => Ok(v@),
        Err(e) => Err(e@),
    }
}

/// Writes the outcome of an evaluation: the s-expression of the value, or
/// the message of the error after `Error: `.
pub fn pretty_print_result(res: &Result<EvaluatedValue, Error>) -> (r: String)
    ensures
        r@ == result_text(value_result(*res)),
{
    match res {
        Ok(v) => v.to_s_expr(),
        Err(e) => "Error: ".to_owned().concat(e.message.as_str()),
    }
}

} // verus!
