use dnd_spreadsheet::language::ast::{Binding, EvaluatedValue, AST};
use dnd_spreadsheet::language::builtins::{lookup_builtin, stringify_builtin, BuiltinFunction};
use dnd_spreadsheet::language::s_exprs::{pretty_print_result, ToSExpr};
use dnd_spreadsheet::language::treewalk::{capture_values, InterpreterCtx, Scope};
use dnd_spreadsheet::reactive::language::ReactiveContext;
use dnd_spreadsheet::reactive::sheet::Sheet;

fn run_at_depth(sheet: &Sheet, inbox: &Vec<EvaluatedValue>, ast: &AST, depth: usize) -> String {
    let context = ReactiveContext::new(sheet, inbox);
    let mut interpreter = InterpreterCtx::new(context);
    let mut scope = Scope::new();
    pretty_print_result(&interpreter.evaluate(&mut scope, ast, depth))
}

fn run_in(sheet: &Sheet, ast: &AST) -> String {
    run_at_depth(sheet, &Vec::new(), ast, 100)
}

fn run(ast: &AST) -> String {
    run_in(&Sheet::new(), ast)
}

fn name(n: &str) -> AST {
    AST::name(n.to_string())
}

fn num(i: i64) -> AST {
    AST::integer(i)
}

fn text(s: &str) -> AST {
    AST::string(s.to_string())
}

fn call(f: &str, args: Vec<AST>) -> AST {
    AST::function(f, args)
}

fn lambda(params: &[&str], body: AST) -> AST {
    AST::lambda(params.iter().map(|p| p.to_string()).collect(), body)
}

fn record(fields: Vec<(&str, AST)>) -> AST {
    AST::record_from(&fields.into_iter().map(|(k, v)| (k.to_string(), v)).collect())
}

fn yes() -> AST {
    call("==", vec![num(1), num(1)])
}

fn no() -> AST {
    call("==", vec![num(1), num(2)])
}

#[test]
fn arithmetic_on_integers() {
    assert_eq!(run(&call("+", vec![num(2), num(3)])), "5");
    assert_eq!(run(&call("-", vec![num(2), num(3)])), "-1");
    assert_eq!(run(&call("*", vec![num(-4), num(3)])), "-12");
    assert_eq!(run(&call("negate", vec![num(7)])), "-7");
    assert_eq!(run(&call("+", vec![num(2), text("a")])), "Error: Invalid arguments");
    assert_eq!(run(&call("+", vec![num(2)])), "Error: Invalid arguments");
    assert_eq!(run(&call("negate", vec![num(1), num(2)])), "Error: Invalid arguments");
}

#[test]
fn comparisons_give_truth_values() {
    assert_eq!(run(&call("<", vec![num(1), num(2)])), "true");
    assert_eq!(run(&call("<", vec![num(2), num(2)])), "false");
    assert_eq!(run(&call(">", vec![num(3), num(2)])), "true");
    assert_eq!(run(&call("<=", vec![num(2), num(2)])), "true");
    assert_eq!(run(&call(">=", vec![num(1), num(2)])), "false");
    assert_eq!(run(&call("<", vec![text("a"), text("b")])), "Error: Invalid arguments");
}

#[test]
fn equality_is_within_one_type() {
    assert_eq!(run(&call("==", vec![num(1), num(1)])), "true");
    assert_eq!(run(&call("==", vec![text("a"), text("b")])), "false");
    assert_eq!(run(&call("==", vec![text("a"), text("a")])), "true");
    assert_eq!(run(&call("==", vec![yes(), no()])), "false");
    assert_eq!(run(&call("==", vec![num(1), text("1")])), "Error: Invalid arguments");
    assert_eq!(run(&call("==", vec![AST::unit(), AST::unit()])), "Error: Invalid arguments");
    assert_eq!(run(&call("not", vec![yes()])), "false");
    assert_eq!(run(&call("not", vec![num(1)])), "Error: Invalid arguments");
}

#[test]
fn an_untaken_branch_is_not_evaluated() {
    let division = call("/", vec![num(1), num(0)]);
    assert_eq!(run(&call("if", vec![yes(), num(10), division.clone()])), "10");
    assert_eq!(run(&call("if", vec![no(), division.clone(), num(20)])), "20");
    assert_eq!(run(&call("if", vec![no(), num(10), division])), "Error: Unknown name /");
    assert_eq!(run(&call("if", vec![num(1), num(10), num(20)])), "Error: Invalid arguments");
    assert_eq!(run(&call("if", vec![yes(), num(10)])), "Error: Invalid arguments");
}

#[test]
fn and_or_stop_as_soon_as_they_know() {
    let nobody = name("nobody");
    assert_eq!(run(&call("and", vec![no(), nobody.clone()])), "false");
    assert_eq!(run(&call("and", vec![yes(), no()])), "false");
    assert_eq!(run(&call("and", vec![yes(), yes()])), "true");
    assert_eq!(run(&call("and", vec![yes(), nobody.clone()])), "Error: Unknown name nobody");
    assert_eq!(run(&call("and", vec![yes(), num(1)])), "Error: Invalid arguments");
    assert_eq!(run(&call("and", vec![num(1), yes()])), "Error: Invalid arguments");
    assert_eq!(run(&call("or", vec![yes(), nobody.clone()])), "true");
    assert_eq!(run(&call("or", vec![no(), yes()])), "true");
    assert_eq!(run(&call("or", vec![no(), no()])), "false");
    assert_eq!(run(&call("or", vec![no(), nobody])), "Error: Unknown name nobody");
    assert_eq!(run(&call("or", vec![no()])), "Error: Invalid arguments");
}

#[test]
fn index_into_lists_and_records() {
    let list = AST::list(vec![num(10), num(20), num(30)]);
    assert_eq!(run(&call("index", vec![list.clone(), num(0)])), "10");
    assert_eq!(run(&call("index", vec![list.clone(), num(2)])), "30");
    assert_eq!(run(&call("index", vec![list.clone(), num(3)])), "Error: Index out of range");
    assert_eq!(run(&call("index", vec![list.clone(), num(-1)])), "Error: Index out of range");
    let rec = record(vec![("a", num(1)), ("b", num(2))]);
    assert_eq!(run(&call("index", vec![rec.clone(), text("b")])), "2");
    assert_eq!(run(&call("index", vec![rec.clone(), text("c")])), "Error: Field does not exist");
    assert_eq!(run(&call("dot", vec![rec.clone(), text("a")])), "1");
    assert_eq!(run(&call("dot", vec![rec.clone(), text("z")])), "Error: Field does not exist");
    assert_eq!(run(&call("dot", vec![list, text("a")])), "Error: Invalid arguments");
    assert_eq!(run(&AST::field_access(rec.clone(), "b".to_string())), "2");
    assert_eq!(
        run(&AST::field_access(rec, "q".to_string())),
        "Error: Field does not exist"
    );
    assert_eq!(
        run(&AST::field_access(num(1), "q".to_string())),
        "Error: Cannot access the field of a non-record type"
    );
}

#[test]
fn fold_over_a_cell_with_a_function_of_the_language() {
    let mut sheet = Sheet::new();
    let a = sheet.add_cell("A".to_string(), "[1,2,3,4]").unwrap();
    let sum = lambda(&["a", "x"], call("+", vec![name("a"), name("x")]));
    let fold = call("fold", vec![sum, num(0), name("A")]);
    assert_eq!(run_in(&sheet, &fold), "10");
    sheet.update_cell(&a, "[5,5]");
    assert_eq!(run_in(&sheet, &fold), "10");
    sheet.update_cell(&a, "[]");
    assert_eq!(run_in(&sheet, &fold), "0");
}

#[test]
fn fold_over_a_record_takes_key_and_value() {
    let keep_last_key = lambda(&["acc", "k", "v"], name("k"));
    let rec = record(vec![("a", num(1)), ("b", num(2))]);
    assert_eq!(run(&call("fold", vec![keep_last_key, text(""), rec.clone()])), "\"b\"");
    let sum = lambda(&["acc", "k", "v"], call("+", vec![name("acc"), name("v")]));
    assert_eq!(run(&call("fold", vec![sum, num(10), rec])), "13");
    assert_eq!(run(&call("fold", vec![num(1), num(0), AST::list(vec![])])), "Error: Invalid arguments");
}

#[test]
fn map_over_lists_and_records() {
    let double = lambda(&["x"], call("*", vec![name("x"), num(2)]));
    let list = AST::list(vec![num(1), num(2), num(3)]);
    assert_eq!(run(&call("map", vec![double, list.clone()])), "[2, 4, 6]");
    assert_eq!(run(&call("map", vec![name("negate"), list.clone()])), "[-1, -2, -3]");
    let value = lambda(&["k", "v"], call("+", vec![name("v"), num(1)]));
    let rec = record(vec![("a", num(1)), ("b", num(2))]);
    assert_eq!(run(&call("map", vec![value, rec])), "{a: 2, b: 3}");
    assert_eq!(run(&call("map", vec![name("negate"), num(1)])), "Error: Invalid arguments");
    assert_eq!(
        run(&call("map", vec![name("negate"), AST::list(vec![num(1), text("a")])])),
        "Error: Invalid arguments"
    );
}

#[test]
fn filter_keeps_what_the_predicate_accepts() {
    let positive = lambda(&["x"], call(">", vec![name("x"), num(0)]));
    let list = AST::list(vec![num(1), num(-2), num(3)]);
    assert_eq!(run(&call("filter", vec![positive, list.clone()])), "[1, 3]");
    let big = lambda(&["k", "v"], call(">", vec![name("v"), num(1)]));
    let rec = record(vec![("a", num(1)), ("b", num(2)), ("c", num(3))]);
    assert_eq!(run(&call("filter", vec![big, rec])), "{b: 2, c: 3}");
    let not_a_truth = lambda(&["x"], name("x"));
    assert_eq!(run(&call("filter", vec![not_a_truth, list])), "Error: Invalid arguments");
}

#[test]
fn a_function_is_called_with_its_own_scope() {
    let f = lambda(&["x"], call("+", vec![name("x"), name("y")]));
    let program = AST::let_in(
        vec![Binding("y".to_string(), num(5)), Binding("f".to_string(), f)],
        AST::let_in(
            vec![Binding("y".to_string(), num(100))],
            AST::call(name("f"), vec![num(1)]),
        ),
    );
    // `y` was 5 when the function was made.
    assert_eq!(run(&program), "6");
    let arity = AST::call(lambda(&["x"], name("x")), vec![num(1), num(2)]);
    assert_eq!(run(&arity), "Error: Incorrect number of arguments");
    assert_eq!(run(&AST::call(num(1), vec![name("nobody")])), "Error: Uncallable type");
}

#[test]
fn let_binds_in_order_and_shadows() {
    let program = AST::let_in(
        vec![
            Binding("x".to_string(), num(1)),
            Binding("y".to_string(), call("+", vec![name("x"), num(1)])),
            Binding("x".to_string(), call("*", vec![name("y"), num(10)])),
        ],
        AST::list(vec![name("x"), name("y")]),
    );
    assert_eq!(run(&program), "[20, 2]");
    assert_eq!(
        program.to_s_expr(),
        "(let ((x 1) (y (+ x 1)) (x (* y 10))) [x, y])"
    );
    // A local name hides a primitive operation and a cell.
    let hidden = AST::let_in(vec![Binding("negate".to_string(), num(3))], name("negate"));
    assert_eq!(run(&hidden), "3");
}

#[test]
fn capture_leaves_bound_names_alone() {
    let mut scope = Scope::new();
    scope.insert("x".to_string(), EvaluatedValue::Integer(1));
    scope.insert("y".to_string(), EvaluatedValue::Integer(2));
    let body = AST::list(vec![
        name("x"),
        name("y"),
        name("$x"),
        lambda(&["y"], AST::list(vec![name("x"), name("y")])),
        AST::let_in(
            vec![Binding("t".to_string(), name("y")), Binding("y".to_string(), name("t"))],
            name("y"),
        ),
    ]);
    let captured = capture_values(&scope, &vec!["x".to_string()], &body);
    assert_eq!(
        captured.to_s_expr(),
        "[x, 2, $x, (lambda (y) [x, y]), (let ((t 2) (y t)) y)]"
    );
}

#[test]
fn names_resolve_to_locals_then_builtins_then_cells() {
    let mut sheet = Sheet::new();
    sheet.add_cell("negate".to_string(), "42").unwrap();
    sheet.add_cell("A".to_string(), "7").unwrap();
    sheet.add_cell("E".to_string(), "nobody").unwrap();
    assert_eq!(run_in(&sheet, &name("negate")), "(builtin negate)");
    assert_eq!(run_in(&sheet, &name("$negate")), "42");
    assert_eq!(run_in(&sheet, &name("A")), "7");
    assert_eq!(run_in(&sheet, &name("$A")), "7");
    assert_eq!(run_in(&sheet, &name("E")), "Error: Error in read cell E");
    assert_eq!(run_in(&sheet, &name("$E")), "Error: Error in read cell E");
    assert_eq!(run_in(&sheet, &name("B")), "Error: Unknown name B");
    assert_eq!(run_in(&sheet, &name("$B")), "Error: Unknown cell name B");
    assert_eq!(run_in(&sheet, &name("$")), "Error: Unknown cell name ");
    let local = AST::let_in(vec![Binding("A".to_string(), num(1))], AST::list(vec![name("A"), name("$A")]));
    assert_eq!(run_in(&sheet, &local), "[1, 7]");
}

#[test]
fn reads_and_pushes_are_recorded() {
    let mut sheet = Sheet::new();
    sheet.add_cell("A".to_string(), "7").unwrap();
    let inbox = vec![EvaluatedValue::Integer(1), EvaluatedValue::Integer(2)];
    let program = AST::list(vec![
        name("A"),
        name("A"),
        call("push", vec![text("T"), num(1)]),
        call("push", vec![text("U"), num(2)]),
        call("push", vec![text("T"), num(3)]),
        call("read", vec![]),
        name("$Z"),
        name("$never"),
    ]);
    let context = ReactiveContext::new(&sheet, &inbox);
    let mut interpreter = InterpreterCtx::new(context);
    let mut scope = Scope::new();
    let result = interpreter.evaluate(&mut scope, &program, 100);
    assert_eq!(pretty_print_result(&result), "Error: Unknown cell name Z");
    let (reads, pushes) = interpreter.into_context().into_effects();
    let read_names: Vec<String> = reads.iter().map(|id| id.0.clone()).collect();
    assert_eq!(read_names, vec!["A", "Z"]);
    let pushed: Vec<(String, String)> =
        pushes.iter().map(|(target, value)| (target.clone(), value.to_s_expr())).collect();
    assert_eq!(
        pushed,
        vec![
            ("T".to_string(), "1".to_string()),
            ("U".to_string(), "2".to_string()),
            ("T".to_string(), "3".to_string()),
        ]
    );
}

#[test]
fn read_gives_the_inbox() {
    let sheet = Sheet::new();
    let inbox = vec![EvaluatedValue::Integer(1), EvaluatedValue::String("a".to_string())];
    assert_eq!(run_at_depth(&sheet, &inbox, &call("read", vec![]), 100), "[1, \"a\"]");
    assert_eq!(
        run_at_depth(&sheet, &inbox, &call("read", vec![num(1)]), 100),
        "Error: Invalid arguments"
    );
    assert_eq!(run(&call("push", vec![num(1), num(2)])), "Error: Invalid arguments");
    assert_eq!(run(&call("push", vec![text("T"), num(2)])), "()");
}

#[test]
fn evaluation_stops_at_the_depth_limit() {
    let sheet = Sheet::new();
    let sum = call("+", vec![num(1), num(2)]);
    assert_eq!(run_at_depth(&sheet, &Vec::new(), &num(1), 0), "Error: Evaluation nested too deeply");
    assert_eq!(run_at_depth(&sheet, &Vec::new(), &num(1), 1), "1");
    assert_eq!(run_at_depth(&sheet, &Vec::new(), &sum, 1), "Error: Evaluation nested too deeply");
    assert_eq!(run_at_depth(&sheet, &Vec::new(), &sum, 2), "3");
    // A function that calls itself without end.
    let omega = lambda(&["f"], AST::call(name("f"), vec![name("f")]));
    let forever = AST::call(omega.clone(), vec![omega]);
    assert_eq!(run(&forever), "Error: Evaluation nested too deeply");
}

#[test]
fn values_print_as_s_expressions() {
    assert_eq!(run(&AST::unit()), "()");
    assert_eq!(run(&AST::boolean(true)), "true");
    assert_eq!(run(&AST::boolean(false)), "false");
    assert_eq!(run(&num(i64::MIN)), "-9223372036854775808");
    assert_eq!(run(&num(i64::MAX)), "9223372036854775807");
    assert_eq!(run(&num(-10)), "-10");
    assert_eq!(run(&num(1000)), "1000");
    assert_eq!(run(&text("hi")), "\"hi\"");
    assert_eq!(run(&name("+")), "(builtin +)");
    assert_eq!(run(&AST::builtin(BuiltinFunction::Fold)), "(builtin fold)");
    assert_eq!(run(&lambda(&["p1", "p2"], name("p1"))), "(lambda (p1, p2) p1)");
    assert_eq!(run(&lambda(&[], num(1))), "(lambda () 1)");
    assert_eq!(
        AST::field_access(name("r"), "f".to_string()).to_s_expr(),
        "(.f r)"
    );
    assert_eq!(
        pretty_print_result(&Ok(EvaluatedValue::Record(vec![
            ("k1".to_string(), EvaluatedValue::Unit),
            ("k2".to_string(), EvaluatedValue::List(vec![])),
        ]))),
        "{k1: (), k2: []}"
    );
}

#[test]
fn a_record_is_made_in_key_order() {
    let made = record(vec![("b", num(2)), ("a", num(1)), ("c", num(3)), ("a", num(4))]);
    assert_eq!(made.to_s_expr(), "{a: 4, b: 2, c: 3}");
    assert_eq!(run(&made), "{a: 4, b: 2, c: 3}");
    assert_eq!(record(vec![]).to_s_expr(), "{}");
    assert_eq!(
        record(vec![("ab", num(1)), ("a", num(2)), ("B", num(3)), ("b", num(4))]).to_s_expr(),
        "{B: 3, a: 2, ab: 1, b: 4}"
    );
}

#[test]
fn every_symbol_names_its_builtin() {
    let symbols = [
        "+", "-", "*", "negate", "push", "read", "index", "dot", "<", ">", "<=", ">=", "==",
        "and", "or", "not", "if", "map", "fold", "filter",
    ];
    for symbol in symbols {
        let builtin = lookup_builtin(symbol).unwrap();
        assert_eq!(stringify_builtin(builtin), symbol);
    }
    assert!(lookup_builtin("plus").is_none());
    assert!(lookup_builtin("").is_none());
    assert!(lookup_builtin("Map").is_none());
}
