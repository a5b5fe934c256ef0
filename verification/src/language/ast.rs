//! Runtime values and the expression tree, with the mathematical models
//! that the contracts of the library are stated over.
use crate::language::builtins::BuiltinFunction;
use crate::language::keyed::{entry_keys, insert_sorted, keys_of, sorted_insert};
use vstd::prelude::*;

verus! {

/// A value as it is written in an expression. Lists and records hold `T`s;
/// in an expression tree `T` is the tree itself. Record fields are kept in
/// key order.
#[derive(Debug)]
pub enum Value<T> {
    Unit,
    Integer(i64),
    String(String),
    Boolean(bool),
    Record(Vec<(String, T)>),
    List(Vec<T>),
    BuiltinFunction(BuiltinFunction),
    Lambda(Vec<String>, Box<AST>),
}

/// A fully evaluated value. Record fields are kept in key order.
#[derive(Debug)]
pub enum EvaluatedValue {
    Unit,
    Integer(i64),
    String(String),
    Boolean(bool),
    Record(Vec<(String, EvaluatedValue)>),
    List(Vec<EvaluatedValue>),
    BuiltinFunction(BuiltinFunction),
    Lambda(Vec<String>, Box<AST>),
}

/// A name bound to an expression in a `Let`.
#[derive(Debug)]
pub struct Binding(pub String, pub AST);

/// An expression tree.
#[derive(Debug)]
pub enum AST {
    Literal(Value<AST>),
    Name(String),
    Function(Box<AST>, Vec<AST>),
    FieldAccess(Box<AST>, String),
    Let(Vec<Binding>, Box<AST>),
}

/// The mathematical model of an expression tree.
pub enum Expr {
    Unit,
    Integer(i64),
    Str(Seq<char>),
    Boolean(bool),
    Record(Seq<(Seq<char>, Expr)>),
    List(Seq<Expr>),
    Builtin(BuiltinFunction),
    Lambda(Seq<Seq<char>>, Box<Expr>),
    Name(Seq<char>),
    Call(Box<Expr>, Seq<Expr>),
    FieldAccess(Box<Expr>, Seq<char>),
    Let(Seq<(Seq<char>, Expr)>, Box<Expr>),
}

/// The mathematical model of an evaluated value.
pub enum Val {
    Unit,
    Integer(i64),
    Str(Seq<char>),
    Boolean(bool),
    Record(Seq<(Seq<char>, Val)>),
    List(Seq<Val>),
    Builtin(BuiltinFunction),
    Lambda(Seq<Seq<char>>, Expr),
}

/// The model of a list of names.
pub open spec fn names_view(s: Seq<String>) -> Seq<Seq<char>> {
    Seq::new(s.len(), |i: int| s[i]@)
}

/// The model of a list of expressions.
pub open spec fn asts_view(s: Seq<AST>) -> Seq<Expr>
    decreases s,
{
    Seq::new(
        s.len(),
        |i: int|
            if 0 <= i < s.len() {
                s[i].model()
            } else {
                Expr::Unit
            },
    )
}

/// The model of the fields of a record literal.
pub open spec fn fields_view(s: Seq<(String, AST)>) -> Seq<(Seq<char>, Expr)>
    decreases s,
{
    Seq::new(
        s.len(),
        |i: int|
            if 0 <= i < s.len() {
                (s[i].0@, s[i].1.model())
            } else {
                (Seq::empty(), Expr::Unit)
            },
    )
}

/// The model of the bindings of a `Let`.
pub open spec fn bindings_view(s: Seq<Binding>) -> Seq<(Seq<char>, Expr)>
    decreases s,
{
    Seq::new(
        s.len(),
        |i: int|
            if 0 <= i < s.len() {
                (s[i].0@, s[i].1.model())
            } else {
                (Seq::empty(), Expr::Unit)
            },
    )
}

/// The fields bound one after the other in a record: in key order, and of
/// two fields with one name the later one.
pub open spec fn sorted_fields(fields: Seq<(Seq<char>, Expr)>, n: int) -> Seq<(Seq<char>, Expr)>
    decreases n,
{
    if n <= 0 || n > fields.len() {
        Seq::empty()
    } else {
        sorted_insert(sorted_fields(fields, n - 1), fields[n - 1].0, fields[n - 1].1)
    }
}

/// The model of a literal.
pub open spec fn literal_view(v: Value<AST>) -> Expr
    decreases v,
{
    match v {
        Value::Unit => Expr::Unit,
        Value::Integer(i) => Expr::Integer(i),
        Value::String(s) => Expr::Str(s@),
        Value::Boolean(b) => Expr::Boolean(b),
        Value::Record(fields) => Expr::Record(fields_view(fields@)),
        Value::List(items) => Expr::List(asts_view(items@)),
        Value::BuiltinFunction(b) => Expr::Builtin(b),
        Value::Lambda(params, body) => Expr::Lambda(names_view(params@), Box::new(body.model())),
    }
}

impl AST {
    /// The model of the expression tree.
    pub open spec fn model(&self) -> Expr
        decreases self,
    {
        match self {
            AST::Literal(v) => literal_view(*v),
            AST::Name(n) => Expr::Name(n@),
            AST::Function(f, args) => Expr::Call(Box::new(f.model()), asts_view(args@)),
            AST::FieldAccess(e, f) => Expr::FieldAccess(Box::new(e.model()), f@),
            AST::Let(bindings, body) => Expr::Let(
                bindings_view(bindings@),
                Box::new(body.model()),
            ),
        }
    }
}

/// The model of a list of values.
pub open spec fn values_view(s: Seq<EvaluatedValue>) -> Seq<Val>
    decreases s,
{
    Seq::new(
        s.len(),
        |i: int|
            if 0 <= i < s.len() {
                s[i].model()
            } else {
                Val::Unit
            },
    )
}

/// The model of the entries of a record value.
pub open spec fn entries_view(s: Seq<(String, EvaluatedValue)>) -> Seq<(Seq<char>, Val)>
    decreases s,
{
    Seq::new(
        s.len(),
        |i: int|
            if 0 <= i < s.len() {
                (s[i].0@, s[i].1.model())
            } else {
                (Seq::empty(), Val::Unit)
            },
    )
}

impl EvaluatedValue {
    /// The model of the value.
    pub open spec fn model(&self) -> Val
        decreases self,
    {
        match self {
            EvaluatedValue::Unit => Val::Unit,
            EvaluatedValue::Integer(i) => Val::Integer(*i),
            EvaluatedValue::String(s) => Val::Str(s@),
            EvaluatedValue::Boolean(b) => Val::Boolean(*b),
            EvaluatedValue::Record(entries) => Val::Record(entries_view(entries@)),
            EvaluatedValue::List(items) => Val::List(values_view(items@)),
            EvaluatedValue::BuiltinFunction(b) => Val::Builtin(*b),
            EvaluatedValue::Lambda(params, body) => Val::Lambda(names_view(params@), body.model()),
        }
    }
}

/// A copy of a list of names.
pub fn duplicate_names(names: &Vec<String>) -> (r: Vec<String>)
    ensures
        names_view(r@) == names_view(names@),
{
    let mut out: Vec<String> = Vec::new();
    let mut i: usize = 0;
    while i < names.len()
        invariant
            i <= names.len(),
            out.len() == i,
            forall|j: int| 0 <= j < i ==> out@[j]@ == names@[j]@,
        decreases names.len() - i,
    {
        out.push(names[i].clone());
        i = i + 1;
    }
    assert(names_view(out@) =~= names_view(names@));
    out
}

/// A copy of a list of expressions.
pub fn duplicate_asts(items: &Vec<AST>) -> (r: Vec<AST>)
    ensures
        asts_view(r@) == asts_view(items@),
    decreases items,
{
    let mut out: Vec<AST> = Vec::new();
    let mut i: usize = 0;
    while i < items.len()
        invariant
            i <= items.len(),
            out.len() == i,
            forall|j: int| 0 <= j < i ==> out@[j]@ == items@[j]@,
        decreases items.len() - i,
    {
        out.push(items[i].duplicate());
        i = i + 1;
    }
    assert(asts_view(out@) =~= asts_view(items@));
    out
}

/// A copy of the fields of a record literal.
pub fn duplicate_fields(fields: &Vec<(String, AST)>) -> (r: Vec<(String, AST)>)
    ensures
        fields_view(r@) == fields_view(fields@),
    decreases fields,
{
    let mut out: Vec<(String, AST)> = Vec::new();
    let mut i: usize = 0;
    while i < fields.len()
        invariant
            i <= fields.len(),
            out.len() == i,
            forall|j: int|
                0 <= j < i ==> out@[j].0@ == fields@[j].0@ && out@[j].1@ == fields@[j].1@,
        decreases fields.len() - i,
    {
        out.push((fields[i].0.clone(), fields[i].1.duplicate()));
        i = i + 1;
    }
    assert(fields_view(out@) =~= fields_view(fields@));
    out
}

/// A copy of the bindings of a `Let`.
pub fn duplicate_bindings(bindings: &Vec<Binding>) -> (r: Vec<Binding>)
    ensures
        bindings_view(r@) == bindings_view(bindings@),
    decreases bindings,
{
    let mut out: Vec<Binding> = Vec::new();
    let mut i: usize = 0;
    while i < bindings.len()
        invariant
            i <= bindings.len(),
            out.len() == i,
            forall|j: int|
                0 <= j < i ==> out@[j].0@ == bindings@[j].0@ && out@[j].1@ == bindings@[j].1@,
        decreases bindings.len() - i,
    {
        out.push(Binding(bindings[i].0.clone(), bindings[i].1.duplicate()));
        i = i + 1;
    }
    assert(bindings_view(out@) =~= bindings_view(bindings@));
    out
}

/// A copy of a literal.
pub fn duplicate_literal(v: &Value<AST>) -> (r: Value<AST>)
    ensures
        literal_view(r) == literal_view(*v),
    decreases v,
{
    match v {
        Value::Unit => Value::Unit,
        Value::Integer(i) => Value::Integer(*i),
        Value::String(s) => Value::String(s.clone()),
        Value::Boolean(b) => Value::Boolean(*b),
        Value::Record(fields) => Value::Record(duplicate_fields(fields)),
        Value::List(items) => Value::List(duplicate_asts(items)),
        Value::BuiltinFunction(b) => Value::BuiltinFunction(*b),
        Value::Lambda(params, body) => Value::Lambda(
            duplicate_names(params),
            Box::new(body.duplicate()),
        ),
    }
}

impl AST {
    /// A copy of the expression tree.
    pub fn duplicate(&self) -> (r: AST)
        ensures
            r@ == self@,
        decreases self,
    {
        match self {
            AST::Literal(v) => AST::Literal(duplicate_literal(v)),
            AST::Name(n) => AST::Name(n.clone()),
            AST::Function(f, args) => AST::Function(Box::new(f.duplicate()), duplicate_asts(args)),
            AST::FieldAccess(e, f) => AST::FieldAccess(Box::new(e.duplicate()), f.clone()),
            AST::Let(bindings, body) => AST::Let(
                duplicate_bindings(bindings),
                Box::new(body.duplicate()),
            ),
        }
    }

    /// The literal expression that holds `value`.
    pub fn literal(value: Value<AST>) -> (r: AST)
        ensures
            r@ == literal_view(value),
    {
        AST::Literal(value)
    }

    /// An integer literal.
    pub fn integer(i: i64) -> (r: AST)
        ensures
            r@ == Expr::Integer(i),
    {
        let value = Value::Integer(i);
        assert(literal_view(value) == Expr::Integer(i));
        AST::Literal(value)
    }

    /// A string literal.
    pub fn string(s: String) -> (r: AST)
        ensures
            r@ == Expr::Str(s@),
    {
        let value = Value::String(s);
        assert(literal_view(value) == Expr::Str(s@));
        AST::Literal(value)
    }

    /// A list literal.
    pub fn list(items: Vec<AST>) -> (r: AST)
        ensures
            r@ == Expr::List(asts_view(items@)),
    {
        let value = Value::List(items);
        assert(literal_view(value) == Expr::List(asts_view(items@)));
        AST::Literal(value)
    }

    /// A record literal with the given fields, bound one after the other:
    /// the fields come in key order, and of two fields with one name the
    /// later one stays.
    pub fn record_from(fields: &Vec<(String, AST)>) -> (r: AST)
        ensures
            r@ == Expr::Record(sorted_fields(fields_view(fields@), fields.len() as int)),
    {
        let mut sorted: Vec<(String, AST)> = Vec::new();
        let mut i: usize = 0;
        assert(fields_view(sorted@) =~= Seq::empty());
        while i < fields.len()
            invariant
                i <= fields.len(),
                fields_view(sorted@) == sorted_fields(fields_view(fields@), i as int),
            decreases fields.len() - i,
        {
            let ghost before = fields_view(sorted@);
            proof {
                assert(keys_of(before) =~= entry_keys(sorted@));
            }
            let key = fields[i].0.clone();
            let value = fields[i].1.duplicate();
            insert_sorted(&mut sorted, key, value);
            assert(fields_view(sorted@) =~= sorted_insert(before, key@, value@));
            i = i + 1;
        }
        AST::record(sorted)
    }

    /// A record literal with the given fields as they are. The fields of a
    /// record are to be in key order: `record_from` puts them so.
    pub fn record(fields: Vec<(String, AST)>) -> (r: AST)
        ensures
            r@ == Expr::Record(fields_view(fields@)),
    {
        let value = Value::Record(fields);
        assert(literal_view(value) == Expr::Record(fields_view(fields@)));
        AST::Literal(value)
    }

    /// The unit literal.
    pub fn unit() -> (r: AST)
        ensures
            r@ == Expr::Unit,
    {
        let value = Value::Unit;
        assert(literal_view(value) == Expr::Unit);
        AST::Literal(value)
    }

    /// A truth value literal.
    pub fn boolean(b: bool) -> (r: AST)
        ensures
            r@ == Expr::Boolean(b),
    {
        let value = Value::Boolean(b);
        assert(literal_view(value) == Expr::Boolean(b));
        AST::Literal(value)
    }

    /// A primitive operation as a literal.
    pub fn builtin(b: BuiltinFunction) -> (r: AST)
        ensures
            r@ == Expr::Builtin(b),
    {
        let value = Value::BuiltinFunction(b);
        assert(literal_view(value) == Expr::Builtin(b));
        AST::Literal(value)
    }

    /// A function written in the language, with the given parameters and
    /// body.
    pub fn lambda(params: Vec<String>, body: AST) -> (r: AST)
        ensures
            r@ == Expr::Lambda(names_view(params@), Box::new(body@)),
    {
        let value = Value::Lambda(params, Box::new(body));
        assert(literal_view(value) == Expr::Lambda(names_view(params@), Box::new(body@)));
        AST::Literal(value)
    }

    /// A name.
    pub fn name(name: String) -> (r: AST)
        ensures
            r@ == Expr::Name(name@),
    {
        AST::Name(name)
    }

    /// A call of `callee` with the given arguments.
    pub fn call(callee: AST, args: Vec<AST>) -> (r: AST)
        ensures
            r@ == Expr::Call(Box::new(callee@), asts_view(args@)),
    {
        AST::Function(Box::new(callee), args)
    }

    /// The access of the field `field` of `record`.
    pub fn field_access(record: AST, field: String) -> (r: AST)
        ensures
            r@ == Expr::FieldAccess(Box::new(record@), field@),
    {
        AST::FieldAccess(Box::new(record), field)
    }

    /// The expression `body` under the given bindings.
    pub fn let_in(bindings: Vec<Binding>, body: AST) -> (r: AST)
        ensures
            r@ == Expr::Let(bindings_view(bindings@), Box::new(body@)),
    {
        AST::Let(bindings, Box::new(body))
    }

    /// A call of the function named `name` with the given arguments.
    pub fn function(name: &str, args: Vec<AST>) -> (r: AST)
        ensures
            r@ == Expr::Call(Box::new(Expr::Name(name@)), asts_view(args@)),
    {
        let callee = AST::Name(name.to_owned());
        assert(callee@ == Expr::Name(name@));
        AST::Function(Box::new(callee), args)
    }
}

/// A copy of a list of values.
pub fn duplicate_values(items: &Vec<EvaluatedValue>) -> (r: Vec<EvaluatedValue>)
    ensures
        values_view(r@) == values_view(items@),
    decreases items,
{
    let mut out: Vec<EvaluatedValue> = Vec::new();
    let mut i: usize = 0;
    while i < items.len()
        invariant
            i <= items.len(),
            out.len() == i,
            forall|j: int| 0 <= j < i ==> out@[j]@ == items@[j]@,
        decreases items.len() - i,
    {
        out.push(items[i].duplicate());
        i = i + 1;
    }
    assert(values_view(out@) =~= values_view(items@));
    out
}

/// A copy of the entries of a record value.
pub fn duplicate_entries(entries: &Vec<(String, EvaluatedValue)>) -> (r: Vec<
    (String, EvaluatedValue),
>)
    ensures
        entries_view(r@) == entries_view(entries@),
    decreases entries,
{
    let mut out: Vec<(String, EvaluatedValue)> = Vec::new();
    let mut i: usize = 0;
    while i < entries.len()
        invariant
            i <= entries.len(),
            out.len() == i,
            forall|j: int|
                0 <= j < i ==> out@[j].0@ == entries@[j].0@ && out@[j].1@ == entries@[j].1@,
        decreases entries.len() - i,
    {
        out.push((entries[i].0.clone(), entries[i].1.duplicate()));
        i = i + 1;
    }
    assert(entries_view(out@) =~= entries_view(entries@));
    out
}

impl EvaluatedValue {
    /// A copy of the value.
    pub fn duplicate(&self) -> (r: EvaluatedValue)
        ensures
            r@ == self@,
        decreases self,
    {
        match self {
            EvaluatedValue::Unit => EvaluatedValue::Unit,
            EvaluatedValue::Integer(i) => EvaluatedValue::Integer(*i),
            EvaluatedValue::String(s) => EvaluatedValue::String(s.clone()),
            EvaluatedValue::Boolean(b) => EvaluatedValue::Boolean(*b),
            EvaluatedValue::Record(entries) => EvaluatedValue::Record(duplicate_entries(entries)),
            EvaluatedValue::List(items) => EvaluatedValue::List(duplicate_values(items)),
            EvaluatedValue::BuiltinFunction(b) => EvaluatedValue::BuiltinFunction(*b),
            EvaluatedValue::Lambda(params, body) => EvaluatedValue::Lambda(
                duplicate_names(params),
                Box::new(body.duplicate()),
            ),
        }
    }
}

impl Clone for Value<AST> {
    fn clone(&self) -> (r: Value<AST>)
        ensures
            literal_view(r) == literal_view(*self),
    {
        duplicate_literal(self)
    }
}

impl Clone for Binding {
    fn clone(&self) -> (r: Binding)
        ensures
            r.0@ == self.0@,
            r.1@ == self.1@,
    {
        Binding(self.0.clone(), self.1.duplicate())
    }
}

impl Clone for AST {
    fn clone(&self) -> (r: AST)
        ensures
            r@ == self@,
    {
        self.duplicate()
    }
}

impl Clone for EvaluatedValue {
    fn clone(&self) -> (r: EvaluatedValue)
        ensures
            r@ == self@,
    {
        self.duplicate()
    }
}

impl View for AST {
    type V = Expr;

    open spec fn view(&self) -> Expr {
        self.model()
    }
}

impl View for EvaluatedValue {
    type V = Val;

    open spec fn view(&self) -> Val {
        self.model()
    }
}

} // verus!
