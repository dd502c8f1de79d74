use kaleidrs::ast::{ASTExpr, Function, Prototype};
use kaleidrs::lexer::{Lex, Ops, Token, Tokens};
use kaleidrs::parser::{
    get_token_precedence, parse_binop_rhs, parse_definition, parse_expression, parse_extern,
    parse_for_loop_expression, parse_identifier_expr, parse_if_expr, parse_number_expr,
    parse_paren_expr, parse_primary, parse_prototype, parse_top_level_expr, parse_unary,
    parse_var_expression, OperatorTable, ParserError,
};

/// An expression with its literals read as floats, to compare against
/// expected values.
#[derive(Debug, PartialEq)]
enum Tree {
    NumberExpr(f64),
    VariableExpr(String),
    UnaryExpr { op: Ops, operand: Box<Tree> },
    BinaryExpr { op: Ops, left: Box<Tree>, right: Box<Tree> },
    CallExpr { callee: String, args: Vec<Box<Tree>> },
    IfExpr { cond: Box<Tree>, then_branch: Box<Tree>, else_branch: Box<Tree> },
    ForLoopExpr { varname: String, start: Box<Tree>, end: Box<Tree>, step: Box<Tree>, body: Box<Tree> },
    VarExpr { var_names: Vec<(String, Option<Box<Tree>>)>, body: Box<Tree> },
}

use Ops::{Div, Gt, Lt, Minus, Mult, Pipe, Plus};
use Tree::{
    BinaryExpr, CallExpr, ForLoopExpr, IfExpr, NumberExpr, UnaryExpr, VarExpr, VariableExpr,
};

fn tree(e: &ASTExpr) -> Box<Tree> {
    Box::new(match e {
        ASTExpr::NumberExpr(text) => NumberExpr(text.parse::<f64>().unwrap()),
        ASTExpr::VariableExpr(name) => VariableExpr(name.to_string()),
        ASTExpr::UnaryExpr { op, operand } => UnaryExpr { op: *op, operand: tree(operand) },
        ASTExpr::BinaryExpr { op, left, right } => {
            BinaryExpr { op: *op, left: tree(left), right: tree(right) }
        }
        ASTExpr::CallExpr { callee, args } => {
            CallExpr { callee: callee.to_string(), args: args.iter().map(|a| tree(a)).collect() }
        }
        ASTExpr::IfExpr { cond, then_branch, else_branch } => IfExpr {
            cond: tree(cond),
            then_branch: tree(then_branch),
            else_branch: tree(else_branch),
        },
        ASTExpr::ForLoopExpr { varname, start, end, step, body } => ForLoopExpr {
            varname: varname.to_string(),
            start: tree(start),
            end: tree(end),
            step: tree(step),
            body: tree(body),
        },
        ASTExpr::VarExpr { var_names, body } => VarExpr {
            var_names: var_names
                .iter()
                .map(|(n, init)| (n.to_string(), init.as_ref().map(|i| tree(i))))
                .collect(),
            body: tree(body),
        },
    })
}

fn trees<'src>(r: Result<Box<ASTExpr<'src>>, ParserError<'src>>) -> Result<Box<Tree>, ParserError<'src>> {
    r.map(|e| tree(&e))
}

fn var(name: &str) -> Box<Tree> {
    Box::new(VariableExpr(name.to_string()))
}

fn num(x: f64) -> Box<Tree> {
    Box::new(NumberExpr(x))
}

fn function<'src>(
    r: Result<Box<Function<'src>>, ParserError<'src>>,
) -> Result<(Prototype<'src>, Box<Tree>), ParserError<'src>> {
    r.map(|f| {
        let f = *f;
        (*f.proto, tree(&f.body))
    })
}

#[test]
fn parsing_primaries() {
    let table = OperatorTable::new();
    let mut tokens = " someUniqueVar1 ".lex();
    assert_eq!(trees(parse_primary(&mut tokens, &table)), Ok(var("someUniqueVar1")));

    let mut tokens = " 234.4 ".lex();
    assert_eq!(trees(parse_primary(&mut tokens, &table)), Ok(num(234.4)));
}

#[test]
fn parsing_primary_expressions() {
    let table = OperatorTable::new();
    let mut tokens = " 23.2 ".lex();
    let mut res = trees(parse_primary(&mut tokens, &table));

    assert_eq!(res, Ok(Box::new(NumberExpr(23.2))));

    tokens = " myVariable ".lex();
    res = trees(parse_primary(&mut tokens, &table));

    assert_eq!(res, Ok(Box::new(VariableExpr("myVariable".to_string()))));

    tokens = " (400.5 - 323.10) ".lex();
    res = trees(parse_primary(&mut tokens, &table));

    assert_eq!(
        res,
        Ok(Box::new(BinaryExpr {
            op: Minus,
            left: Box::new(NumberExpr(400.5)),
            right: Box::new(NumberExpr(323.10)),
        }))
    );

    tokens = " squareNums(2) ".lex();
    res = trees(parse_primary(&mut tokens, &table));

    assert_eq!(
        res,
        Ok(Box::new(CallExpr {
            callee: "squareNums".to_string(),
            args: vec![Box::new(NumberExpr(2.0))]
        }))
    );

    tokens = " multiParams(6, x, (2 + 2)) ".lex();
    res = trees(parse_primary(&mut tokens, &table));

    assert_eq!(
        res,
        Ok(Box::new(CallExpr {
            callee: "multiParams".to_string(),
            args: vec![
                Box::new(NumberExpr(6.0)),
                Box::new(VariableExpr("x".to_string())),
                Box::new(BinaryExpr {
                    op: Plus,
                    left: Box::new(NumberExpr(2.0)),
                    right: Box::new(NumberExpr(2.0)),
                })
            ]
        }))
    );
}

#[test]
fn binary_expression_precedence() {
    let table = OperatorTable::new();
    // (((1+2)-3)+4)
    let mut tokens = " 1 + 2 - 3 + 4;".lex();
    let mut expr_ast = trees(parse_expression(&mut tokens, &table));

    assert_eq!(
        expr_ast,
        Ok(Box::new(BinaryExpr {
            op: Plus,
            left: Box::new(BinaryExpr {
                op: Minus,
                left: Box::new(BinaryExpr {
                    op: Plus,
                    left: Box::new(NumberExpr(1.0)),
                    right: Box::new(NumberExpr(2.0))
                }),
                right: Box::new(NumberExpr(3.0)),
            }),
            right: Box::new(NumberExpr(4.0))
        }))
    );

    // (x + (y * z))
    tokens = " x + y * z; ".lex();
    expr_ast = trees(parse_expression(&mut tokens, &table));

    assert_eq!(
        expr_ast,
        Ok(Box::new(BinaryExpr {
            op: Plus,
            left: var("x"),
            right: Box::new(BinaryExpr { op: Mult, left: var("y"), right: var("z") })
        }))
    );

    // ((x + y) * z)
    tokens = " (x+y)*z;".lex();
    expr_ast = trees(parse_expression(&mut tokens, &table));

    assert_eq!(
        expr_ast,
        Ok(Box::new(BinaryExpr {
            op: Mult,
            left: Box::new(BinaryExpr { op: Plus, left: var("x"), right: var("y") }),
            right: var("z")
        }))
    );

    // ((2 + (10 / 5)) - 3)
    tokens = " 2 + 10 / 5 - 3; ".lex();
    expr_ast = trees(parse_expression(&mut tokens, &table));

    assert_eq!(
        expr_ast,
        Ok(Box::new(BinaryExpr {
            op: Minus,
            left: Box::new(BinaryExpr {
                op: Plus,
                left: Box::new(NumberExpr(2.0)),
                right: Box::new(BinaryExpr {
                    op: Div,
                    left: Box::new(NumberExpr(10.0)),
                    right: Box::new(NumberExpr(5.0)),
                }),
            }),
            right: Box::new(NumberExpr(3.0)),
        }))
    );
}

#[test]
fn parsing_functions() {
    let mut table = OperatorTable::new();
    let mut tokens = "def func1(x y) x * y;".lex();
    let mut func_ast = function(parse_definition(&mut tokens, &mut table));

    assert_eq!(
        func_ast,
        Ok((
            Prototype::FunctionProto { name: "func1", args: vec!["x", "y"] },
            Box::new(BinaryExpr { op: Mult, left: var("x"), right: var("y") })
        ))
    );

    tokens = "def alwaysReturnOne ( ) 1;".lex();
    func_ast = function(parse_definition(&mut tokens, &mut table));

    assert_eq!(
        func_ast,
        Ok((
            Prototype::FunctionProto { name: "alwaysReturnOne", args: vec![] },
            Box::new(NumberExpr(1.0))
        ))
    );

    tokens = "def func2 (base mid upper) base*mid + upper;".lex();
    func_ast = function(parse_definition(&mut tokens, &mut table));

    assert_eq!(
        func_ast,
        Ok((
            Prototype::FunctionProto { name: "func2", args: vec!["base", "mid", "upper"] },
            Box::new(BinaryExpr {
                op: Plus,
                left: Box::new(BinaryExpr { op: Mult, left: var("base"), right: var("mid") }),
                right: var("upper"),
            })
        ))
    );
}

#[test]
fn parsing_if_then_else_expressions() {
    let table = OperatorTable::new();
    let mut tokens = " if pred then x+1 else x-1; ".lex();
    let if_expr = trees(parse_if_expr(&mut tokens, &table));

    assert_eq!(
        if_expr,
        Ok(Box::new(IfExpr {
            cond: var("pred"),
            then_branch: Box::new(BinaryExpr { op: Plus, left: var("x"), right: num(1.0) }),
            else_branch: Box::new(BinaryExpr { op: Minus, left: var("x"), right: num(1.0) })
        }))
    );
}

#[test]
fn a_chain_of_equal_precedence_leans_left() {
    let table = OperatorTable::new();
    let mut tokens = "1 + 2 - 3 + 4".lex();
    assert_eq!(
        trees(parse_expression(&mut tokens, &table)),
        Ok(Box::new(BinaryExpr {
            op: Plus,
            left: Box::new(BinaryExpr {
                op: Minus,
                left: Box::new(BinaryExpr { op: Plus, left: num(1.0), right: num(2.0) }),
                right: num(3.0),
            }),
            right: num(4.0)
        }))
    );
    assert_eq!(tokens.next(), None);
}

#[test]
fn a_definition_holds_its_prototype_and_body() {
    let mut table = OperatorTable::new();
    let mut tokens = "def foo(a b) a*b;".lex();
    assert_eq!(
        function(parse_definition(&mut tokens, &mut table)),
        Ok((
            Prototype::FunctionProto { name: "foo", args: vec!["a", "b"] },
            Box::new(BinaryExpr { op: Mult, left: var("a"), right: var("b") })
        ))
    );
    assert_eq!(tokens.next(), Some(Token::Semicolon));
}

#[test]
fn a_loop_without_a_step_steps_by_one() {
    let table = OperatorTable::new();
    let mut tokens = "for i = 1, i < 10 in body".lex();
    let parsed = parse_expression(&mut tokens, &table).unwrap();
    match &*parsed {
        ASTExpr::ForLoopExpr { step, .. } => assert_eq!(**step, ASTExpr::NumberExpr("1.0")),
        other => panic!("not a loop: {:?}", other),
    }
    assert_eq!(
        tree(&parsed),
        Box::new(ForLoopExpr {
            varname: "i".to_string(),
            start: num(1.0),
            end: Box::new(BinaryExpr { op: Lt, left: var("i"), right: num(10.0) }),
            step: num(1.0),
            body: var("body"),
        })
    );
}

#[test]
fn a_loop_with_a_step_keeps_it() {
    let table = OperatorTable::new();
    let mut tokens = "for i = 0, i < n, 2 in f(i);".lex();
    assert_eq!(
        trees(parse_expression(&mut tokens, &table)),
        Ok(Box::new(ForLoopExpr {
            varname: "i".to_string(),
            start: num(0.0),
            end: Box::new(BinaryExpr { op: Lt, left: var("i"), right: var("n") }),
            step: num(2.0),
            body: Box::new(CallExpr { callee: "f".to_string(), args: vec![var("i")] }),
        }))
    );
}

#[test]
fn var_bindings_keep_absent_initializers_absent() {
    let table = OperatorTable::new();
    let mut tokens = "var a = 1, b, c = a + 2 in a * c;".lex();
    assert_eq!(
        trees(parse_expression(&mut tokens, &table)),
        Ok(Box::new(VarExpr {
            var_names: vec![
                ("a".to_string(), Some(num(1.0))),
                ("b".to_string(), None),
                (
                    "c".to_string(),
                    Some(Box::new(BinaryExpr { op: Plus, left: var("a"), right: num(2.0) }))
                ),
            ],
            body: Box::new(BinaryExpr { op: Mult, left: var("a"), right: var("c") }),
        }))
    );
}

#[test]
fn prefix_operators_nest() {
    let table = OperatorTable::new();
    let mut tokens = "! - x > y;".lex();
    assert_eq!(
        trees(parse_expression(&mut tokens, &table)),
        Ok(Box::new(BinaryExpr {
            op: Gt,
            left: Box::new(UnaryExpr {
                op: Ops::Neq,
                operand: Box::new(UnaryExpr { op: Minus, operand: var("x") })
            }),
            right: var("y"),
        }))
    );
}

#[test]
fn an_overload_takes_effect_for_what_follows_it() {
    let mut table = OperatorTable::new();
    assert_eq!(table.get(Pipe), None);

    // before the overload `|` is no infix operator: the expression ends before it
    let mut tokens = "a | b + c;".lex();
    assert_eq!(trees(parse_expression(&mut tokens, &table)), Ok(var("a")));
    assert_eq!(tokens.peek(), Some(Token::Operator(Pipe)));

    let mut tokens = "def binary| 5 (lhs rhs) lhs + rhs; a | b + c; a + b | c;".lex();
    let def = parse_definition(&mut tokens, &mut table).unwrap();
    assert_eq!(
        *def.proto,
        Prototype::OverloadedBinaryOpProto { operator: Pipe, args: ("lhs", "rhs"), precedence: 5 }
    );
    assert_eq!(table.get(Pipe), Some(5));
    assert_eq!(tokens.next(), Some(Token::Semicolon));

    // 5 binds more loosely than the 20 of `+`
    assert_eq!(
        trees(parse_expression(&mut tokens, &table)),
        Ok(Box::new(BinaryExpr {
            op: Pipe,
            left: var("a"),
            right: Box::new(BinaryExpr { op: Plus, left: var("b"), right: var("c") }),
        }))
    );
    assert_eq!(tokens.next(), Some(Token::Semicolon));
    assert_eq!(
        trees(parse_expression(&mut tokens, &table)),
        Ok(Box::new(BinaryExpr {
            op: Pipe,
            left: Box::new(BinaryExpr { op: Plus, left: var("a"), right: var("b") }),
            right: var("c"),
        }))
    );
}

#[test]
fn an_overload_can_rebind_a_built_in_operator() {
    let mut table = OperatorTable::new();
    assert_eq!(table.get(Plus), Some(20));
    let mut tokens = "binary + 60 (a b)  x * y + z".lex();
    let proto = parse_prototype(&mut tokens, &mut table).unwrap();
    assert_eq!(proto.get_name(), "binary+");
    assert_eq!(proto.get_num_params(), 2);
    assert_eq!(table.get(Plus), Some(60));
    assert_eq!(
        trees(parse_expression(&mut tokens, &table)),
        Ok(Box::new(BinaryExpr {
            op: Mult,
            left: var("x"),
            right: Box::new(BinaryExpr { op: Plus, left: var("y"), right: var("z") }),
        }))
    );
}

#[test]
fn the_precedence_is_entered_even_if_the_prototype_fails_later() {
    let mut table = OperatorTable::new();
    let mut tokens = "binary ^ 7 (a)".lex();
    assert_eq!(
        parse_prototype(&mut tokens, &mut table),
        Err(ParserError::BadOverloadedBinaryOp)
    );
    assert_eq!(table.get(Ops::Caret), Some(7));
}

#[test]
fn the_built_in_precedences() {
    let table = OperatorTable::new();
    assert_eq!(table.get(Ops::Assign), Some(2));
    assert_eq!(table.get(Plus), Some(20));
    assert_eq!(table.get(Minus), Some(20));
    assert_eq!(table.get(Mult), Some(40));
    assert_eq!(table.get(Div), Some(40));
    assert_eq!(table.get(Ops::Neq), Some(50));
    assert_eq!(table.get(Lt), Some(50));
    assert_eq!(table.get(Gt), Some(50));
    assert_eq!(table.get(Ops::Modulo), None);
    assert_eq!(table.get(Ops::Amp), None);
    assert_eq!(table.get(Pipe), None);
    assert_eq!(table.get(Ops::Caret), None);
    assert_eq!(table.get(Ops::Colon), None);
}

#[test]
fn prototypes_of_each_kind() {
    let mut table = OperatorTable::new();
    let mut tokens = "extern sin(x)".lex();
    let proto = parse_extern(&mut tokens, &mut table).unwrap();
    assert_eq!(*proto, Prototype::FunctionProto { name: "sin", args: vec!["x"] });
    assert_eq!(proto.get_name(), "sin");
    assert_eq!(proto.get_num_params(), 1);

    let mut tokens = "unary ! (v)".lex();
    let proto = parse_prototype(&mut tokens, &mut table).unwrap();
    assert_eq!(*proto, Prototype::OverloadedUnaryOpProto { operator: Ops::Neq, arg: "v" });
    assert_eq!(proto.get_name(), "unary!");
    assert_eq!(proto.get_num_params(), 1);
}

#[test]
fn a_top_level_expression_becomes_an_anonymous_function() {
    let table = OperatorTable::new();
    let mut tokens = "1 + x;".lex();
    assert_eq!(
        function(parse_top_level_expr(&mut tokens, &table)),
        Ok((
            Prototype::FunctionProto { name: "__anonymous_expr", args: vec![] },
            Box::new(BinaryExpr { op: Plus, left: num(1.0), right: var("x") })
        ))
    );
}

#[test]
fn each_parse_error() {
    let mut table = OperatorTable::new();

    let mut tokens = ") + 1".lex();
    assert_eq!(
        parse_expression(&mut tokens, &table),
        Err(ParserError::UnexpectedToken(Token::ClosedParen))
    );
    // nothing was taken
    assert_eq!(tokens.peek(), Some(Token::ClosedParen));

    let mut tokens = "1 +".lex();
    assert_eq!(parse_expression(&mut tokens, &table), Err(ParserError::UnexpectedEOI));

    let mut tokens = "if x 1 else 2".lex();
    assert_eq!(parse_expression(&mut tokens, &table), Err(ParserError::ExpectedToken("then")));

    let mut tokens = "foo x)".lex();
    assert_eq!(parse_prototype(&mut tokens, &mut table), Err(ParserError::ExpectedToken("(")));

    let mut tokens = "unary & ()".lex();
    assert_eq!(parse_prototype(&mut tokens, &mut table), Err(ParserError::BadOverloadedUnaryOp));

    let mut tokens = "binary & x (a b)".lex();
    assert_eq!(parse_prototype(&mut tokens, &mut table), Err(ParserError::BadOverloadedBinaryOp));
    assert_eq!(table.get(Ops::Amp), None);

    let mut tokens = "binary & 3 (a 1)".lex();
    assert_eq!(parse_prototype(&mut tokens, &mut table), Err(ParserError::BadOverloadedBinaryOp));
}

#[test]
fn parsers_run_on_explicit_tokens() {
    let table = OperatorTable::new();
    let mut tokens = Tokens::from_tokens(vec![
        Token::Identifier("f"),
        Token::OpenParen,
        Token::Number("1"),
        Token::Identifier("y"),
        Token::Comma,
        Token::ClosedParen,
        Token::Semicolon,
    ]);
    // no comma stands between the two arguments
    assert_eq!(
        parse_expression(&mut tokens, &table),
        Err(ParserError::UnexpectedToken(Token::Identifier("y")))
    );
    assert_eq!(tokens.next(), Some(Token::Comma));

    let mut tokens = Tokens::from_tokens(vec![
        Token::Identifier("f"),
        Token::OpenParen,
        Token::Number("1"),
        Token::Comma,
        Token::Identifier("y"),
        Token::ClosedParen,
        Token::Semicolon,
    ]);
    assert_eq!(
        trees(parse_expression(&mut tokens, &table)),
        Ok(Box::new(CallExpr { callee: "f".to_string(), args: vec![num(1.0), var("y")] }))
    );
    assert_eq!(tokens.next(), Some(Token::Semicolon));
}

#[test]
fn a_fractional_precedence_is_rounded_up() {
    let cases: Vec<(&str, i32)> = vec![
        ("5", 5),
        ("5.0", 5),
        ("5.5", 6),
        ("0.001", 1),
        ("0", 0),
        ("0.0", 0),
        (".5", 1),
        ("7.", 7),
        ("1e3", 1000),
        ("1.5e1", 15),
        ("1.25e1", 13),
        ("12345e-2", 124),
        ("100e-2", 1),
        ("1e-5", 1),
        ("0e99999999999999999999999999999999999999", 0),
        ("1e99999999999999999999999999999999999999", i32::MAX),
        ("1e-99999999999999999999999999999999999999", 1),
        ("2147483646.5", i32::MAX),
        ("2147483646", 2147483646),
        ("2147483647", i32::MAX),
        ("99999999999999999999999999", i32::MAX),
        ("-5.5", -5),
        ("-0.5", 0),
        ("-2147483648", i32::MIN),
        ("-2147483649.5", i32::MIN),
        ("+3.2", 4),
        ("inf", i32::MAX),
        ("-Infinity", i32::MIN),
        ("NaN", 0),
        ("abc", 0),
    ];
    for (text, expected) in cases {
        let mut table = OperatorTable::new();
        let mut tokens = Tokens::from_tokens(vec![
            Token::BinaryOverload,
            Token::Operator(Ops::Colon),
            Token::Number(text),
            Token::OpenParen,
            Token::Identifier("a"),
            Token::Identifier("b"),
            Token::ClosedParen,
        ]);
        let proto = parse_prototype(&mut tokens, &mut table).unwrap();
        assert_eq!(
            *proto,
            Prototype::OverloadedBinaryOpProto {
                operator: Ops::Colon,
                args: ("a", "b"),
                precedence: expected
            },
            "{}",
            text
        );
        assert_eq!(table.get(Ops::Colon), Some(expected), "{}", text);
    }
}

#[test]
fn the_ceiling_is_that_of_the_float_where_the_float_is_exact() {
    for text in ["5", "5.5", "0.25", "1e3", "1.5e1", "12345e-2", "-5.5", "-0.5", "inf", "NaN", "7."] {
        let mut table = OperatorTable::new();
        let mut tokens = Tokens::from_tokens(vec![
            Token::BinaryOverload,
            Token::Operator(Ops::Amp),
            Token::Number(text),
        ]);
        let _ = parse_prototype(&mut tokens, &mut table);
        let float = text.parse::<f64>().unwrap();
        assert_eq!(table.get(Ops::Amp), Some(float.ceil() as i32), "{}", text);
    }
}

#[test]
fn assignments_chain_only_through_parentheses() {
    let table = OperatorTable::new();
    let mut tokens = "x = y = 3;".lex();
    assert_eq!(
        trees(parse_expression(&mut tokens, &table)),
        Ok(Box::new(BinaryExpr {
            op: Ops::Assign,
            left: Box::new(BinaryExpr { op: Ops::Assign, left: var("x"), right: var("y") }),
            right: num(3.0),
        }))
    );
    let mut tokens = "x = (y = 3) + 1;".lex();
    assert_eq!(
        trees(parse_expression(&mut tokens, &table)),
        Ok(Box::new(BinaryExpr {
            op: Ops::Assign,
            left: var("x"),
            right: Box::new(BinaryExpr {
                op: Plus,
                left: Box::new(BinaryExpr { op: Ops::Assign, left: var("y"), right: num(3.0) }),
                right: num(1.0),
            }),
        }))
    );
}

#[test]
fn each_form_parses_on_its_own() {
    let table = OperatorTable::new();

    let mut tokens = "12 rest".lex();
    assert_eq!(trees(parse_number_expr(&mut tokens)), Ok(num(12.0)));
    assert_eq!(
        parse_number_expr(&mut tokens),
        Err(ParserError::UnexpectedToken(Token::Identifier("rest")))
    );
    assert_eq!(parse_number_expr(&mut tokens), Err(ParserError::UnexpectedEOI));

    let mut tokens = "f() g 1".lex();
    assert_eq!(
        trees(parse_identifier_expr(&mut tokens, &table)),
        Ok(Box::new(CallExpr { callee: "f".to_string(), args: vec![] }))
    );
    assert_eq!(trees(parse_identifier_expr(&mut tokens, &table)), Ok(var("g")));
    assert_eq!(
        parse_identifier_expr(&mut tokens, &table),
        Err(ParserError::UnexpectedToken(Token::Number("1")))
    );

    let mut tokens = "(a) (b; (c".lex();
    assert_eq!(trees(parse_paren_expr(&mut tokens, &table)), Ok(var("a")));
    assert_eq!(
        parse_paren_expr(&mut tokens, &table),
        Err(ParserError::UnexpectedToken(Token::Semicolon))
    );
    assert_eq!(parse_paren_expr(&mut tokens, &table), Err(ParserError::UnexpectedEOI));

    let mut tokens = "var x in x".lex();
    assert_eq!(
        trees(parse_var_expression(&mut tokens, &table)),
        Ok(Box::new(VarExpr { var_names: vec![("x".to_string(), None)], body: var("x") }))
    );
    let mut tokens = "var 1".lex();
    assert_eq!(
        parse_var_expression(&mut tokens, &table),
        Err(ParserError::ExpectedToken("<identifier>"))
    );
    let mut tokens = "var x x".lex();
    assert_eq!(parse_var_expression(&mut tokens, &table), Err(ParserError::ExpectedToken("in")));

    for (source, missing) in [
        ("four", "for"),
        ("for 1", "variable"),
        ("for i 1", "="),
        ("for i = 1 in", ","),
        ("for i = 1, 2 3", "in"),
    ] {
        let mut tokens = source.lex();
        assert_eq!(
            parse_for_loop_expression(&mut tokens, &table),
            Err(ParserError::ExpectedToken(missing)),
            "{}",
            source
        );
    }

    let mut tokens = "- - 1".lex();
    assert_eq!(
        trees(parse_unary(&mut tokens, &table)),
        Ok(Box::new(UnaryExpr {
            op: Minus,
            operand: Box::new(UnaryExpr { op: Minus, operand: num(1.0) })
        }))
    );

    // from precedence 21 on, `+` is left for whoever called
    let mut tokens = "* 2 + 3".lex();
    let lhs = Box::new(ASTExpr::NumberExpr("1"));
    assert_eq!(
        trees(parse_binop_rhs(&mut tokens, &table, lhs, 21)),
        Ok(Box::new(BinaryExpr { op: Mult, left: num(1.0), right: num(2.0) }))
    );
    assert_eq!(tokens.peek(), Some(Token::Operator(Plus)));

    assert_eq!(get_token_precedence(&table, Some(Token::Operator(Mult))), 40);
    assert_eq!(get_token_precedence(&table, Some(Token::Operator(Pipe))), -1);
    assert_eq!(get_token_precedence(&table, Some(Token::Semicolon)), -1);
    assert_eq!(get_token_precedence(&table, None), -1);
}

#[test]
fn operators_and_prototypes_have_their_texts() {
    let symbols = [
        (Ops::Plus, "+"),
        (Ops::Minus, "-"),
        (Ops::Mult, "*"),
        (Ops::Div, "/"),
        (Ops::Assign, "="),
        (Ops::Neq, "!"),
        (Ops::Lt, "<"),
        (Ops::Gt, ">"),
        (Ops::Modulo, "%"),
        (Ops::Amp, "&"),
        (Ops::Pipe, "|"),
        (Ops::Caret, "^"),
        (Ops::Colon, ":"),
    ];
    for (op, text) in symbols {
        assert_eq!(op.as_str(), text);
        let unary = Prototype::OverloadedUnaryOpProto { operator: op, arg: "v" };
        assert_eq!(unary.get_name(), format!("unary{}", text));
        assert_eq!(unary.param_names(), vec!["v"]);
        let binary =
            Prototype::OverloadedBinaryOpProto { operator: op, args: ("l", "r"), precedence: 1 };
        assert_eq!(binary.get_name(), format!("binary{}", text));
        assert_eq!(binary.param_names(), vec!["l", "r"]);
        assert_eq!(binary.get_num_params(), 2);
    }
    let named = Prototype::FunctionProto { name: "f", args: vec!["a", "b", "c"] };
    assert_eq!(named.param_names(), vec!["a", "b", "c"]);
    assert_eq!(named.get_num_params(), 3);
}

#[test]
fn arguments_are_set_apart_by_commas() {
    let table = OperatorTable::new();
    let call = |source: &'static str| {
        let mut tokens = source.lex();
        trees(parse_primary(&mut tokens, &table))
    };
    let f = |args: Vec<Box<Tree>>| Ok(Box::new(CallExpr { callee: "f".to_string(), args }));
    assert_eq!(call("f()"), f(vec![]));
    assert_eq!(call("f(1)"), f(vec![num(1.0)]));
    assert_eq!(call("f(1, 2)"), f(vec![num(1.0), num(2.0)]));
    assert_eq!(
        call("f(a + 1, g(b), (c))"),
        f(vec![
            Box::new(BinaryExpr { op: Plus, left: var("a"), right: num(1.0) }),
            Box::new(CallExpr { callee: "g".to_string(), args: vec![var("b")] }),
            var("c"),
        ])
    );
    // neither a missing nor a trailing nor a leading comma
    assert_eq!(call("f(1 2);"), Err(ParserError::UnexpectedToken(Token::Number("2"))));
    assert_eq!(call("f(1,)"), Err(ParserError::UnexpectedToken(Token::ClosedParen)));
    assert_eq!(call("f(,1)"), Err(ParserError::UnexpectedToken(Token::Comma)));
    assert_eq!(call("f(1;"), Err(ParserError::UnexpectedToken(Token::Semicolon)));
    assert_eq!(call("f(1"), Err(ParserError::UnexpectedEOI));
    assert_eq!(call("f(1,"), Err(ParserError::UnexpectedEOI));
    assert_eq!(call("f("), Err(ParserError::UnexpectedEOI));
}

#[test]
fn an_error_inside_parentheses_comes_out_as_it_is() {
    let table = OperatorTable::new();
    let mut tokens = "(if x 1) + 2".lex();
    assert_eq!(parse_primary(&mut tokens, &table), Err(ParserError::ExpectedToken("then")));
    // the parser stopped where the error arose
    assert_eq!(tokens.next(), Some(Token::ClosedParen));

    let mut tokens = "(,) 1".lex();
    assert_eq!(
        parse_primary(&mut tokens, &table),
        Err(ParserError::UnexpectedToken(Token::Comma))
    );
    assert_eq!(tokens.next(), Some(Token::Comma));
}

#[test]
fn a_chain_leans_left_whatever_its_operands_are() {
    let table = OperatorTable::new();
    let mut tokens = "x + f(y, 1) - (a * b) + !z - 2;".lex();
    let call = Box::new(CallExpr { callee: "f".to_string(), args: vec![var("y"), num(1.0)] });
    let product = Box::new(BinaryExpr { op: Mult, left: var("a"), right: var("b") });
    let not_z = Box::new(UnaryExpr { op: Ops::Neq, operand: var("z") });
    assert_eq!(
        trees(parse_expression(&mut tokens, &table)),
        Ok(Box::new(BinaryExpr {
            op: Minus,
            left: Box::new(BinaryExpr {
                op: Plus,
                left: Box::new(BinaryExpr {
                    op: Minus,
                    left: Box::new(BinaryExpr { op: Plus, left: var("x"), right: call }),
                    right: product,
                }),
                right: not_z,
            }),
            right: num(2.0),
        }))
    );
    assert_eq!(tokens.next(), Some(Token::Semicolon));
}

#[test]
fn tighter_operators_gather_on_the_right() {
    let table = OperatorTable::new();
    // `=` binds at 2, `+` at 20, `*` at 40, `<` at 50
    let mut tokens = "r = a + b * c < d * e + g;".lex();
    let less = Box::new(BinaryExpr { op: Lt, left: var("c"), right: var("d") });
    let first_product = Box::new(BinaryExpr { op: Mult, left: var("b"), right: less });
    let second_product = Box::new(BinaryExpr { op: Mult, left: first_product, right: var("e") });
    let sum = Box::new(BinaryExpr { op: Plus, left: var("a"), right: second_product });
    let whole_sum = Box::new(BinaryExpr { op: Plus, left: sum, right: var("g") });
    assert_eq!(
        trees(parse_expression(&mut tokens, &table)),
        Ok(Box::new(BinaryExpr { op: Ops::Assign, left: var("r"), right: whole_sum }))
    );
}
