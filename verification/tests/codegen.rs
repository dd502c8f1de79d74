use kaleidrs::ast::{ASTExpr, Function, Prototype};
use kaleidrs::backend::{Backend, BackendError, Status};
use kaleidrs::driver::{compile_src, parse_top_level, Compilation, TopLevel};
use kaleidrs::ir::{ArithOp, CompareOp, Op, Value};
use kaleidrs::lexer::{Lex, Ops, Token};
use kaleidrs::parser::{parse_expression, OperatorTable, ParserError};
use kaleidrs::scope::Scope;

use Value::{Const, Param, Temp};

fn expression<'src>(source: &'src str, table: &OperatorTable) -> Box<ASTExpr<'src>> {
    let mut tokens = source.lex();
    parse_expression(&mut tokens, table).unwrap()
}

/// Compiles `source` into a new backend and hands back the backend with
/// the outcome.
fn compiled(source: &str) -> (Backend, Result<Vec<ParserError<'_>>, BackendError<'_>>) {
    let mut table = OperatorTable::new();
    let mut scope = Scope::new();
    let mut backend = Backend::new();
    let done = compile_src(source, &mut table, &mut scope, &mut backend);
    (backend, outcome(done))
}

/// The parse errors of a compilation that went through, or the error at
/// which it stopped.
fn outcome(done: Compilation<'_>) -> Result<Vec<ParserError<'_>>, BackendError<'_>> {
    match done.failure {
        Some(e) => Err(e),
        None => Ok(done.errors),
    }
}

fn handle(backend: &Backend, name: &str) -> usize {
    backend.get_function(name).unwrap().0
}

fn entry_ops() -> Vec<Op> {
    vec![Op::Block { block: 0 }, Op::Position { block: 0 }]
}

#[test]
fn a_number_becomes_a_constant() {
    let (backend, r) = compiled("4.5;");
    assert_eq!(r, Ok(vec![]));
    let h = handle(&backend, "__anonymous_expr");
    assert_eq!(backend.function_params(h), 0);
    assert_eq!(backend.function_status(h), Status::Defined);
    assert_eq!(backend.function_constants(h), &vec!["4.5".to_string()]);
    let mut ops = entry_ops();
    ops.push(Op::Ret { value: Const(0) });
    assert_eq!(backend.function_ops(h), &ops);
}

#[test]
fn parameters_live_in_storage() {
    let (backend, r) = compiled("def foo(a b) a*b;");
    assert_eq!(r, Ok(vec![]));
    let h = handle(&backend, "foo");
    assert_eq!(backend.function_name(h), "foo");
    assert_eq!(backend.function_params(h), 2);
    assert_eq!(
        backend.function_ops(h),
        &vec![
            Op::Block { block: 0 },
            Op::Position { block: 0 },
            Op::Alloca { slot: 0 },
            Op::Store { slot: 0, value: Param(0) },
            Op::Alloca { slot: 1 },
            Op::Store { slot: 1, value: Param(1) },
            Op::Load { dest: 0, slot: 0 },
            Op::Load { dest: 1, slot: 1 },
            Op::Arith { dest: 2, op: ArithOp::Mul, lhs: Temp(0), rhs: Temp(1) },
            Op::Ret { value: Temp(2) },
        ]
    );
}

#[test]
fn built_in_operators_become_instructions() {
    let (backend, r) = compiled("def f(x) (((((x + 1 - 2) / 3) < 4) > 5) ! 6);");
    assert_eq!(r, Ok(vec![]));
    let h = handle(&backend, "f");
    assert_eq!(
        backend.function_ops(h)[4..],
        [
            Op::Load { dest: 0, slot: 0 },
            Op::Arith { dest: 1, op: ArithOp::Add, lhs: Temp(0), rhs: Const(0) },
            Op::Arith { dest: 2, op: ArithOp::Sub, lhs: Temp(1), rhs: Const(1) },
            Op::Arith { dest: 3, op: ArithOp::Div, lhs: Temp(2), rhs: Const(2) },
            Op::Compare { dest: 4, op: CompareOp::Less, lhs: Temp(3), rhs: Const(3) },
            Op::Compare { dest: 5, op: CompareOp::Greater, lhs: Temp(4), rhs: Const(4) },
            Op::Compare { dest: 6, op: CompareOp::NotEqual, lhs: Temp(5), rhs: Const(5) },
            Op::Ret { value: Temp(6) },
        ]
    );
    assert_eq!(
        backend.function_constants(h),
        &vec!["1", "2", "3", "4", "5", "6"].into_iter().map(String::from).collect::<Vec<_>>()
    );
}

#[test]
fn an_assignment_stores_and_yields_the_stored_value() {
    let (backend, r) = compiled("def f(x y) x = (y = 3);");
    assert_eq!(r, Ok(vec![]));
    let h = handle(&backend, "f");
    assert_eq!(
        backend.function_ops(h)[6..],
        [
            Op::Store { slot: 1, value: Const(0) },
            Op::Store { slot: 0, value: Const(0) },
            Op::Ret { value: Const(0) },
        ]
    );
}

#[test]
fn an_if_merges_the_values_of_its_branches() {
    let (backend, r) = compiled("def f(x) if x then 1 else if x then 2 else 3;");
    assert_eq!(r, Ok(vec![]));
    let h = handle(&backend, "f");
    assert_eq!(
        backend.function_ops(h)[4..],
        [
            Op::Load { dest: 0, slot: 0 },
            Op::Block { block: 1 },
            Op::Block { block: 2 },
            Op::Block { block: 3 },
            Op::CondBr { cond: Temp(0), then_block: 1, else_block: 2 },
            Op::Position { block: 1 },
            Op::Br { target: 3 },
            Op::Position { block: 2 },
            // the inner if
            Op::Load { dest: 1, slot: 0 },
            Op::Block { block: 4 },
            Op::Block { block: 5 },
            Op::Block { block: 6 },
            Op::CondBr { cond: Temp(1), then_block: 4, else_block: 5 },
            Op::Position { block: 4 },
            Op::Br { target: 6 },
            Op::Position { block: 5 },
            Op::Br { target: 6 },
            Op::Position { block: 6 },
            Op::Phi { dest: 2, first: Const(1), first_block: 4, second: Const(2), second_block: 5 },
            // the else branch of the outer if ends in the inner merge block
            Op::Br { target: 3 },
            Op::Position { block: 3 },
            Op::Phi { dest: 3, first: Const(0), first_block: 1, second: Temp(2), second_block: 6 },
            Op::Ret { value: Temp(3) },
        ]
    );
}

#[test]
fn a_loop_steps_then_tests_and_yields_zero() {
    let (backend, r) = compiled("def f(n) for i = 1, i < n, 2 in n;");
    assert_eq!(r, Ok(vec![]));
    let h = handle(&backend, "f");
    assert_eq!(
        backend.function_ops(h)[4..],
        [
            Op::Alloca { slot: 1 },
            Op::Store { slot: 1, value: Const(0) },
            Op::Block { block: 1 },
            Op::Br { target: 1 },
            Op::Position { block: 1 },
            // body
            Op::Load { dest: 0, slot: 0 },
            // step
            Op::Load { dest: 1, slot: 1 },
            Op::Arith { dest: 2, op: ArithOp::Add, lhs: Temp(1), rhs: Const(1) },
            Op::Store { slot: 1, value: Temp(2) },
            // end condition
            Op::Load { dest: 3, slot: 1 },
            Op::Load { dest: 4, slot: 0 },
            Op::Compare { dest: 5, op: CompareOp::Less, lhs: Temp(3), rhs: Temp(4) },
            Op::Block { block: 2 },
            Op::CondBr { cond: Temp(5), then_block: 1, else_block: 2 },
            Op::Position { block: 2 },
            Op::Ret { value: Const(2) },
        ]
    );
    assert_eq!(
        backend.function_constants(h),
        &vec!["1".to_string(), "2".to_string(), "0.0".to_string()]
    );
}

#[test]
fn a_loop_leaves_an_outer_binding_of_its_variable_as_it_was() {
    let table = OperatorTable::new();
    let mut scope = Scope::new();
    let mut backend = Backend::new();
    backend.begin_function();
    let outer = backend.alloca();
    assert_eq!(scope.insert("i", outer), None);
    let lp = expression("for i = 1, i < 10 in i", &table);
    assert!(lp.codegen(&mut scope, &mut backend).is_ok());
    assert_eq!(scope.lookup("i"), Some(outer));

    // and leaves the name unbound where it was unbound
    let lp = expression("for k = 1, k < 10 in k", &table);
    assert!(lp.codegen(&mut scope, &mut backend).is_ok());
    assert_eq!(scope.lookup("k"), None);
    assert_eq!(scope.lookup("i"), Some(outer));

    // also where the loop cannot be lowered
    let lp = expression("for i = 1, i < 10 in nothing", &table);
    assert_eq!(
        lp.codegen(&mut scope, &mut backend),
        Err(BackendError::UnknownVariable("nothing"))
    );
    assert_eq!(scope.lookup("i"), Some(outer));
}

#[test]
fn the_loop_variable_is_bound_inside_the_loop_only() {
    let (_, r) = compiled("def f() for i = 1, i < 3 in i; def g() (for i = 1, i < 3 in i) + i;");
    assert_eq!(r, Err(BackendError::UnknownVariable("i")));
}

#[test]
fn var_bindings_shadow_and_are_taken_back() {
    let table = OperatorTable::new();
    let mut scope = Scope::new();
    let mut backend = Backend::new();
    backend.begin_function();
    let outer = backend.alloca();
    scope.insert("a", outer);
    let form = expression("var a = a + 1, b, a = a * b in a", &table);
    assert_eq!(form.codegen(&mut scope, &mut backend), Ok(Temp(5)));
    assert_eq!(scope.lookup("a"), Some(outer));
    assert_eq!(scope.lookup("b"), None);
    assert_eq!(
        backend.building_ops()[3..],
        [
            // a = a + 1 reads the outer a
            Op::Load { dest: 0, slot: 0 },
            Op::Arith { dest: 1, op: ArithOp::Add, lhs: Temp(0), rhs: Const(0) },
            Op::Alloca { slot: 1 },
            Op::Store { slot: 1, value: Temp(1) },
            // b has no initializer and starts at zero
            Op::Alloca { slot: 2 },
            Op::Store { slot: 2, value: Const(1) },
            // the second a reads the first
            Op::Load { dest: 2, slot: 1 },
            Op::Load { dest: 3, slot: 2 },
            Op::Arith { dest: 4, op: ArithOp::Mul, lhs: Temp(2), rhs: Temp(3) },
            Op::Alloca { slot: 3 },
            Op::Store { slot: 3, value: Temp(4) },
            Op::Load { dest: 5, slot: 3 },
        ]
    );
    assert_eq!(backend.building_constants(), &vec!["1".to_string(), "0.0".to_string()]);
}

#[test]
fn var_bindings_read_in_order() {
    let (backend, r) = compiled("def f() var a = 1, b = a in b;");
    assert_eq!(r, Ok(vec![]));
    let h = handle(&backend, "f");
    assert_eq!(
        backend.function_ops(h)[2..],
        [
            Op::Alloca { slot: 0 },
            Op::Store { slot: 0, value: Const(0) },
            Op::Load { dest: 0, slot: 0 },
            Op::Alloca { slot: 1 },
            Op::Store { slot: 1, value: Temp(0) },
            Op::Load { dest: 1, slot: 1 },
            Op::Ret { value: Temp(1) },
        ]
    );
}

#[test]
fn a_call_passes_its_arguments_in_order() {
    let (backend, r) = compiled("extern pow(base exp) def sq(x) pow(x, 2);");
    assert_eq!(r, Ok(vec![]));
    let pow = handle(&backend, "pow");
    assert_eq!(backend.function_status(pow), Status::Declared);
    assert_eq!(backend.function_params(pow), 2);
    let sq = handle(&backend, "sq");
    assert_eq!(
        backend.function_ops(sq)[4..],
        [
            Op::Load { dest: 0, slot: 0 },
            Op::Arg { value: Temp(0) },
            Op::Arg { value: Const(0) },
            Op::Call { dest: 1, callee: pow, argc: 2 },
            Op::Ret { value: Temp(1) },
        ]
    );
}

#[test]
fn a_function_can_call_itself() {
    let (backend, r) = compiled("def down(n) if n then down(n - 1) else 0;");
    assert_eq!(r, Ok(vec![]));
    let h = handle(&backend, "down");
    assert!(backend.function_ops(h).contains(&Op::Call { dest: 3, callee: h, argc: 1 }));
}

#[test]
fn a_call_with_the_wrong_number_of_arguments_fails() {
    let (backend, r) = compiled("def two(a b) a + b; two(1, 2, 3);");
    assert_eq!(r, Err(BackendError::IncorrectNumberOfArgs { func_name: "two", param_cnt: 2 }));
    // what was defined before stays
    assert_eq!(backend.function_status(handle(&backend, "two")), Status::Defined);
    // and nothing is left of the form that failed
    assert_eq!(backend.get_function("__anonymous_expr"), None);
    assert_eq!(backend.function_count(), 1);

    let (_, r) = compiled("def two(a b) a + b; two(1);");
    assert_eq!(r, Err(BackendError::IncorrectNumberOfArgs { func_name: "two", param_cnt: 2 }));
    let (_, r) = compiled("def two(a b) a + b; two(1, 2);");
    assert_eq!(r, Ok(vec![]));
}

#[test]
fn a_call_of_an_undeclared_function_fails() {
    let (backend, r) = compiled("nothing(1);");
    assert_eq!(r, Err(BackendError::UndefinedFunction("nothing")));
    assert_eq!(backend.function_count(), 0);
}

#[test]
fn each_lowering_error() {
    let (_, r) = compiled("x;");
    assert_eq!(r, Err(BackendError::UnknownVariable("x")));

    let (_, r) = compiled("def f(x) x; def f(y) y;");
    assert_eq!(r, Err(BackendError::MultipleFunctionDefs("f".to_string())));

    // `|` has no precedence yet, so it opens a new form, where it is a prefix operator
    let (_, r) = compiled("def f() 1 | 2;");
    assert_eq!(r, Err(BackendError::UndefinedOperator(Ops::Pipe)));

    let (_, r) = compiled("extern binary & 5 (a b) 1 & 2;");
    assert_eq!(r, Ok(vec![]));
    // a prototype that fails after its precedence leaves an operator without a function
    let (_, r) = compiled("extern binary ^ 5 (a); def f() 1 ^ 2;");
    assert_eq!(r, Err(BackendError::UndefinedOperator(Ops::Caret)));

    let (_, r) = compiled("!1;");
    assert_eq!(r, Err(BackendError::UndefinedOperator(Ops::Neq)));

    let (_, r) = compiled("def f(x) (x + 1) = 2;");
    assert_eq!(r, Err(BackendError::BadAssignment));

    let (_, r) = compiled("def f(x) y = 2;");
    assert_eq!(r, Err(BackendError::UnknownVariable("y")));

    // a wrong left-hand side is found before anything on the right
    let (_, r) = compiled("def f(x) 1 = nothing;");
    assert_eq!(r, Err(BackendError::BadAssignment));
}

#[test]
fn a_failed_definition_leaves_no_trace() {
    let (mut backend, r) = compiled("extern f(a) def f(x y) z;");
    assert_eq!(r, Err(BackendError::UnknownVariable("z")));
    let h = handle(&backend, "f");
    assert_eq!(backend.function_status(h), Status::Declared);
    assert_eq!(backend.function_params(h), 1);
    assert_eq!(backend.function_count(), 1);

    // so the function can be defined afterwards
    let mut table = OperatorTable::new();
    let mut scope = Scope::new();
    assert_eq!(
        compile_src("def f(x y) x;", &mut table, &mut scope, &mut backend),
        Compilation { errors: vec![], failure: None }
    );
    assert_eq!(backend.function_status(h), Status::Defined);
    assert_eq!(backend.function_params(h), 2);
}

#[test]
fn a_malformed_function_loses_its_body() {
    let (mut backend, r) = compiled("def f(x) x;");
    assert_eq!(r, Ok(vec![]));
    let h = handle(&backend, "f");
    assert_eq!(backend.verified(h, true), Ok(h));
    assert_eq!(backend.function_status(h), Status::Defined);
    assert_eq!(backend.verified(h, false), Err(BackendError::FailedToVerifyFunc("f".to_string())));
    assert_eq!(backend.function_status(h), Status::Declared);
    assert!(backend.function_ops(h).is_empty());
}

#[test]
fn overloads_are_called_under_their_mangled_names() {
    let (backend, r) = compiled(
        "def unary - (v) 0 - v; def binary | 5 (a b) if a then 1 else b; def f(x) -x | x;",
    );
    assert_eq!(r, Ok(vec![]));
    let neg = handle(&backend, "unary-");
    let or = handle(&backend, "binary|");
    let f = handle(&backend, "f");
    assert_eq!(
        backend.function_ops(f)[4..],
        [
            Op::Load { dest: 0, slot: 0 },
            Op::Arg { value: Temp(0) },
            Op::Call { dest: 1, callee: neg, argc: 1 },
            Op::Load { dest: 2, slot: 0 },
            Op::Arg { value: Temp(1) },
            Op::Arg { value: Temp(2) },
            Op::Call { dest: 3, callee: or, argc: 2 },
            Op::Ret { value: Temp(3) },
        ]
    );
}

#[test]
fn the_anonymous_function_is_deleted_and_defined_anew() {
    let mut table = OperatorTable::new();
    let mut scope = Scope::new();
    let mut backend = Backend::new();
    let gone_through = Compilation { errors: vec![], failure: None };
    assert_eq!(compile_src("1;", &mut table, &mut scope, &mut backend), gone_through);
    // a definition under the name is not taken out by a definition
    let mut tokens = "2".lex();
    let second = kaleidrs::parser::parse_top_level_expr(&mut tokens, &table).unwrap();
    assert_eq!(
        second.codegen(&mut scope, &mut backend),
        Err(BackendError::MultipleFunctionDefs("__anonymous_expr".to_string()))
    );
    backend.delete_top_level_expr();
    assert_eq!(backend.get_function("__anonymous_expr"), None);
    assert_eq!(compile_src("2;", &mut table, &mut scope, &mut backend), gone_through);
    let h = handle(&backend, "__anonymous_expr");
    assert_eq!(backend.function_constants(h), &vec!["2".to_string()]);
    assert_eq!(backend.function_count(), 1);
    backend.delete_top_level_expr();
    backend.delete_top_level_expr();
    assert_eq!(backend.function_status(h), Status::Removed);
}

#[test]
fn a_malformed_token_costs_exactly_one_token() {
    let mut table = OperatorTable::new();
    let mut tokens = ") 1 + 2;".lex();
    assert_eq!(
        parse_top_level(&mut tokens, &mut table),
        Some(TopLevel::Failed(ParserError::UnexpectedToken(Token::ClosedParen)))
    );
    assert_eq!(tokens.peek(), Some(Token::Number("1")));
    match parse_top_level(&mut tokens, &mut table) {
        Some(TopLevel::Expression(_)) => {}
        other => panic!("{:?}", other),
    }
    assert_eq!(parse_top_level(&mut tokens, &mut table), Some(TopLevel::Separator));
    assert_eq!(parse_top_level(&mut tokens, &mut table), None);
    assert_eq!(parse_top_level(&mut tokens, &mut table), None);

    let mut tokens = ")".lex();
    assert_eq!(
        parse_top_level(&mut tokens, &mut table),
        Some(TopLevel::Failed(ParserError::UnexpectedToken(Token::ClosedParen)))
    );
    assert_eq!(tokens.next(), None);
}

#[test]
fn every_step_gets_further_on_any_garbage() {
    let mut table = OperatorTable::new();
    let source = ") ) def ( extern 1 binary 2 unary , @ for if then ( ( ; var + + def";
    let mut tokens = source.lex();
    let mut left = source.lex().collect().len();
    let mut steps = 0;
    while let Some(_) = parse_top_level(&mut tokens, &mut table) {
        let mut rest = 0;
        // count what is left without disturbing the order
        let mut copy = Vec::new();
        while let Some(t) = tokens.next() {
            copy.push(t);
            rest += 1;
        }
        assert!(rest < left);
        left = rest;
        tokens = kaleidrs::lexer::Tokens::from_tokens(copy);
        steps += 1;
    }
    assert_eq!(left, 0);
    assert!(steps > 0);
}

#[test]
fn compiling_passes_over_what_does_not_parse() {
    let (backend, r) = compiled("def ok(x) x; ) def (; def fine() ok(1);");
    assert_eq!(
        r,
        Ok(vec![
            ParserError::UnexpectedToken(Token::ClosedParen),
            ParserError::UnexpectedToken(Token::OpenParen),
        ])
    );
    assert_eq!(backend.function_status(handle(&backend, "ok")), Status::Defined);
    assert_eq!(backend.function_status(handle(&backend, "fine")), Status::Defined);
}

#[test]
fn forms_are_lowered_one_by_one() {
    let mut table = OperatorTable::new();
    let mut scope = Scope::new();
    let mut backend = Backend::new();
    let mut tokens = "extern sin(x) def twice(v) sin(v) + sin(v); twice(3); ;".lex();

    let form = parse_top_level(&mut tokens, &mut table).unwrap();
    assert_eq!(
        form,
        TopLevel::Extern(Box::new(Prototype::FunctionProto { name: "sin", args: vec!["x"] }))
    );
    assert_eq!(form.codegen(&mut scope, &mut backend), Ok(Some(0)));

    let form = parse_top_level(&mut tokens, &mut table).unwrap();
    assert_eq!(form.codegen(&mut scope, &mut backend), Ok(Some(1)));
    assert_eq!(scope.lookup("v"), Some(0));

    assert_eq!(parse_top_level(&mut tokens, &mut table), Some(TopLevel::Separator));

    let form = parse_top_level(&mut tokens, &mut table).unwrap();
    match &form {
        TopLevel::Expression(f) => {
            let Function { proto, .. } = &**f;
            assert_eq!(proto.get_name(), "__anonymous_expr");
        }
        other => panic!("{:?}", other),
    }
    assert_eq!(form.codegen(&mut scope, &mut backend), Ok(Some(2)));
    assert_eq!(scope.lookup("v"), None);

    let form = parse_top_level(&mut tokens, &mut table).unwrap();
    assert_eq!(form, TopLevel::Separator);
    assert_eq!(form.codegen(&mut scope, &mut backend), Ok(None));
    assert_eq!(parse_top_level(&mut tokens, &mut table), Some(TopLevel::Separator));
    assert_eq!(parse_top_level(&mut tokens, &mut table), None);
}

#[test]
fn the_scope_maps_names_to_their_last_binding() {
    let mut scope = Scope::new();
    assert_eq!(scope.lookup("a"), None);
    assert_eq!(scope.insert("a", 1), None);
    assert_eq!(scope.insert("b", 2), None);
    assert_eq!(scope.insert("a", 3), Some(1));
    assert_eq!(scope.lookup("a"), Some(3));
    scope.remove("a");
    assert_eq!(scope.lookup("a"), None);
    assert_eq!(scope.lookup("b"), Some(2));
    scope.restore("b", Some(7));
    assert_eq!(scope.lookup("b"), Some(7));
    scope.restore("b", None);
    assert_eq!(scope.lookup("b"), None);
    scope.insert("c", 1);
    scope.clear();
    assert_eq!(scope.lookup("c"), None);
}

#[test]
fn what_lowering_builds_is_well_formed() {
    let (backend, r) = compiled(
        "extern sin(x) \
         def unary - (v) 0 - v; \
         def binary | 5 (a b) if a then 1 else b; \
         def fib(n) if n < 3 then 1 else fib(n - 1) + fib(n - 2); \
         def loops(n) for i = 1, i < n, 2 in for j = i, j < n in (if j then sin(j) else -j); \
         def lets(a) var x = a, y, z = (if a then x else y) in (x = z | y) + (for a = 1, a < 2 in a); \
         lets(fib(3)) + loops(4);",
    );
    assert_eq!(r, Ok(vec![]));
    assert_eq!(backend.function_count(), 7);
    for h in 0..backend.function_count() {
        if backend.function_status(h) == Status::Defined {
            assert!(backend.verify(h), "{}", backend.function_name(h));
        }
    }
    // a declaration has no body, and so not a single block
    assert!(!backend.verify(handle(&backend, "sin")));
}

/// A function built by hand from `steps`, and whether it is well formed.
fn built(params: usize, steps: &dyn Fn(&mut Backend)) -> (Backend, usize, bool) {
    let mut backend = Backend::new();
    let (h, _) = backend.declare("f", params);
    backend.begin_function();
    steps(&mut backend);
    backend.end_function(h);
    let ok = backend.verify(h);
    (backend, h, ok)
}

#[test]
fn a_function_out_of_order_is_found_malformed() {
    // a block that does not end
    assert!(!built(0, &|_b| {}).2);
    assert!(built(0, &|b| {
        let c = b.constant("1");
        b.ret(c)
    })
    .2);
    // an instruction behind the end of a block
    assert!(!built(0, &|b| {
        let c = b.constant("1");
        b.ret(c);
        b.ret(c)
    })
    .2);
    // a result read before it is made
    assert!(!built(0, &|b| b.ret(Value::Temp(0))).2);
    // a constant and a parameter that the function does not have
    assert!(!built(0, &|b| b.ret(Value::Const(0))).2);
    assert!(!built(1, &|b| b.ret(Value::Param(1))).2);
    assert!(built(1, &|b| b.ret(Value::Param(0))).2);
    // a storage location that was not made
    assert!(!built(0, &|b| {
        let v = b.load(0);
        b.ret(v)
    })
    .2);
    assert!(built(0, &|b| {
        let s = b.alloca();
        let v = b.load(s);
        b.ret(v)
    })
    .2);
    // a jump to a block that was not added
    assert!(!built(0, &|b| b.br(1)).2);
    // a block that is added and never ends
    assert!(!built(0, &|b| {
        let next = b.open_block();
        b.br(next)
    })
    .2);
    assert!(built(0, &|b| {
        let next = b.open_block();
        b.br(next);
        b.position_at(next);
        let c = b.constant("0");
        b.ret(c)
    })
    .2);
    // a merge of a block that has not ended
    assert!(!built(1, &|b| {
        let v = b.phi(Value::Param(0), 0, Value::Param(0), 0);
        b.ret(v)
    })
    .2);
    // a call with fewer arguments than it says
    assert!(built(1, &|b| {
        let v = b.call(0, &vec![Value::Param(0)]);
        b.ret(v)
    })
    .2);
}

#[test]
fn a_function_found_malformed_is_reported() {
    let (mut backend, h, ok) = built(0, &|_b| {});
    assert!(!ok);
    assert_eq!(backend.function_status(h), Status::Defined);
    let verdict = backend.verify(h);
    assert_eq!(
        backend.verified(h, verdict),
        Err(BackendError::FailedToVerifyFunc("f".to_string()))
    );
    assert_eq!(backend.function_status(h), Status::Declared);
}

#[test]
fn the_backend_tells_what_it_holds() {
    let mut backend = Backend::new();
    assert_eq!(backend.function_count(), 0);
    assert!(!backend.is_defined("f"));
    assert_eq!(backend.declare("f", 2), (0, None));
    assert_eq!(backend.declare("f", 3), (0, Some((2, Status::Declared))));
    assert_eq!(backend.get_function("f"), Some((0, 3)));
    assert!(!backend.is_defined("f"));
    backend.begin_function();
    assert_eq!(backend.current_block(), 0);
    assert_eq!(backend.next_temp(), 0);
    let slot = backend.alloca();
    let v = backend.load(slot);
    assert_eq!(v, Temp(0));
    assert_eq!(backend.next_temp(), 1);
    let next = backend.open_block();
    backend.br(next);
    backend.position_at(next);
    assert_eq!(backend.current_block(), 1);
    let w = backend.compare(CompareOp::Less, v, Param(0));
    backend.cond_br(w, next, next);
    assert_eq!(backend.building_ops().len(), 9);
    backend.end_function(0);
    assert!(backend.is_defined("f"));
    assert!(backend.building_ops().is_empty());
    // a function that has a body keeps the number of its parameters
    assert_eq!(backend.declare("f", 1), (0, Some((3, Status::Defined))));
    assert_eq!(backend.function_params(0), 3);
    // the block jumps to itself with nothing to take it further, which is in order
    assert!(backend.verify(0));
    assert!(kaleidrs::shape::check(backend.function_ops(0), 3, 0));
    assert!(!kaleidrs::shape::check(backend.function_ops(0), 0, 0));
}

#[test]
fn expressions_follow_one_another() {
    let (backend, r) = compiled("1; 2;");
    assert_eq!(r, Ok(vec![]));
    // the function that wrapped the first has made way for the second
    assert_eq!(backend.function_count(), 1);
    let h = handle(&backend, "__anonymous_expr");
    assert_eq!(backend.function_status(h), Status::Defined);
    assert_eq!(backend.function_constants(h), &vec!["2".to_string()]);

    let (backend, r) = compiled("def f(x) x + 1; f(1); f(2); def g(y) f(y); g(3) + f(4);");
    assert_eq!(r, Ok(vec![]));
    assert_eq!(backend.function_count(), 3);
    let h = handle(&backend, "__anonymous_expr");
    assert_eq!(backend.function_constants(h), &vec!["3".to_string(), "4".to_string()]);
    assert!(backend.verify(h));

    // step by step, as a shell takes them
    let mut table = OperatorTable::new();
    let mut scope = Scope::new();
    let mut backend = Backend::new();
    for line in ["1;", "2 + 3;", "4;"] {
        let mut tokens = line.lex();
        let form = parse_top_level(&mut tokens, &mut table).unwrap();
        assert_eq!(form.codegen(&mut scope, &mut backend), Ok(Some(0)), "{}", line);
    }
    assert_eq!(backend.function_constants(0), &vec!["4".to_string()]);
}

#[test]
fn an_expression_that_cannot_be_lowered_takes_the_one_before_it_along() {
    let (backend, r) = compiled("1; nothing;");
    assert_eq!(r, Err(BackendError::UnknownVariable("nothing")));
    assert_eq!(backend.get_function("__anonymous_expr"), None);
}

#[test]
fn parse_errors_are_kept_when_lowering_stops() {
    let mut table = OperatorTable::new();
    let mut scope = Scope::new();
    let mut backend = Backend::new();
    let done = compile_src(") def ok(x) x; nothing; 5;", &mut table, &mut scope, &mut backend);
    assert_eq!(
        done,
        Compilation {
            errors: vec![ParserError::UnexpectedToken(Token::ClosedParen)],
            failure: Some(BackendError::UnknownVariable("nothing")),
        }
    );
    assert_eq!(backend.function_status(handle(&backend, "ok")), Status::Defined);
}
