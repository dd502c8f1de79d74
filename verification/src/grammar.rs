//! The grammar as mathematics: for each form, the function from the tokens
//! still to come to what is parsed and what is left.
//!
//! A form that holds other forms compares the number of tokens left with the
//! number it began with before it goes on. That makes the functions
//! terminate; the comparison never fails, as `progress` proves.

use vstd::prelude::*;
use crate::ast::{anonymous_name, Expr, FunctionView, PrototypeView};
use crate::lexer::{first_of, Ops, TokenView};
use crate::text::literal_ceiling;

verus! {

/// Why a form could not be parsed.
pub ghost enum ParserErrorView {
    UnexpectedToken(TokenView),
    UnexpectedEOI,
    ExpectedToken(Seq<char>),
    BadOverloadedUnaryOp,
    BadOverloadedBinaryOp,
}

/// The outcome of parsing one form: the form or an error, and the tokens
/// that are left.
pub ghost struct Parsed<T> {
    pub result: Result<T, ParserErrorView>,
    pub rest: Seq<TokenView>,
}

/// The form was parsed.
pub open spec fn done<T>(value: T, rest: Seq<TokenView>) -> Parsed<T> {
    Parsed { result: Ok(value), rest }
}

/// The form could not be parsed.
pub open spec fn fail<T>(error: ParserErrorView, rest: Seq<TokenView>) -> Parsed<T> {
    Parsed { result: Err(error), rest }
}

/// The tokens that are left when one has been taken, if there was one.
pub open spec fn after(ts: Seq<TokenView>) -> Seq<TokenView> {
    if ts.len() > 0 {
        ts.skip(1)
    } else {
        ts
    }
}

/// The precedences of the built-in operators.
pub open spec fn builtin_precedences() -> Map<Ops, int> {
    Map::<Ops, int>::empty().insert(Ops::Assign, 2).insert(Ops::Plus, 20).insert(
        Ops::Minus,
        20,
    ).insert(Ops::Mult, 40).insert(Ops::Div, 40).insert(Ops::Neq, 50).insert(Ops::Lt, 50).insert(
        Ops::Gt,
        50,
    )
}

/// The precedence with which a token binds as an infix operator: that of
/// its table entry, and -1 for an operator without one, for any other token
/// and at the end of the input.
pub open spec fn precedence_of(table: Map<Ops, int>, token: Option<TokenView>) -> int {
    match token {
        Some(TokenView::Operator(op)) => if table.dom().contains(op) {
            table[op]
        } else {
            -1
        },
        _ => -1,
    }
}

/// The literal that stands for a loop's step where none is written.
pub open spec fn default_step() -> Expr {
    Expr::Number("1.0"@)
}

/// primary ::= identifierexpr | numberexpr | parenexpr | ifexpr | forexpr | varexpr
pub open spec fn parse_primary(ts: Seq<TokenView>, table: Map<Ops, int>) -> Parsed<Expr>
    decreases ts.len(), 2int,
{
    match first_of(ts) {
        Some(TokenView::Identifier(_)) => parse_identifier_expr(ts, table),
        Some(TokenView::Number(_)) => parse_number_expr(ts),
        Some(TokenView::OpenParen) => parse_paren_expr(ts, table),
        Some(TokenView::If) => parse_if_expr(ts, table),
        Some(TokenView::For) => parse_for_loop_expression(ts, table),
        Some(TokenView::Var) => parse_var_expression(ts, table),
        Some(unexpected) => fail(ParserErrorView::UnexpectedToken(unexpected), ts),
        None => fail(ParserErrorView::UnexpectedEOI, ts),
    }
}

/// numberexpr ::= number
pub open spec fn parse_number_expr(ts: Seq<TokenView>) -> Parsed<Expr> {
    match first_of(ts) {
        Some(TokenView::Number(text)) => done(Expr::Number(text), ts.skip(1)),
        Some(unexpected) => fail(ParserErrorView::UnexpectedToken(unexpected), ts.skip(1)),
        None => fail(ParserErrorView::UnexpectedEOI, ts),
    }
}

/// identifierexpr ::= identifier | identifier '(' (expression (',' expression)*)? ')'
pub open spec fn parse_identifier_expr(ts: Seq<TokenView>, table: Map<Ops, int>) -> Parsed<Expr>
    decreases ts.len(), 1int,
{
    match first_of(ts) {
        Some(TokenView::Identifier(name)) => {
            if first_of(ts.skip(1)) == Some(TokenView::OpenParen) {
                if first_of(ts.skip(2)) == Some(TokenView::ClosedParen) {
                    done(Expr::Call { callee: name, args: Seq::empty() }, ts.skip(3))
                } else {
                    parse_call_args(ts.skip(2), table, name, Seq::empty())
                }
            } else {
                done(Expr::Variable(name), ts.skip(1))
            }
        },
        Some(unexpected) => fail(ParserErrorView::UnexpectedToken(unexpected), ts.skip(1)),
        None => fail(ParserErrorView::UnexpectedEOI, ts),
    }
}

/// The arguments of a call from one of them on, `args` being those before
/// it: an expression, and then either the closing parenthesis, which ends
/// the call, or a comma and the arguments that follow. No other token may
/// stand behind an argument.
pub open spec fn parse_call_args(
    ts: Seq<TokenView>,
    table: Map<Ops, int>,
    callee: Seq<char>,
    args: Seq<Expr>,
) -> Parsed<Expr>
    decreases ts.len(), 5int,
{
    let arg = parse_expression(ts, table);
    match arg.result {
        Err(e) => fail(e, arg.rest),
        Ok(value) => match first_of(arg.rest) {
            Some(TokenView::ClosedParen) => done(
                Expr::Call { callee, args: args.push(value) },
                arg.rest.skip(1),
            ),
            Some(TokenView::Comma) => if arg.rest.len() <= ts.len() {
                parse_call_args(arg.rest.skip(1), table, callee, args.push(value))
            } else {
                fail(ParserErrorView::UnexpectedEOI, arg.rest)
            },
            Some(unexpected) => fail(
                ParserErrorView::UnexpectedToken(unexpected),
                arg.rest.skip(1),
            ),
            None => fail(ParserErrorView::UnexpectedEOI, arg.rest),
        },
    }
}

/// parenexpr ::= '(' expression ')'
pub open spec fn parse_paren_expr(ts: Seq<TokenView>, table: Map<Ops, int>) -> Parsed<Expr>
    decreases ts.len(), 1int,
{
    if ts.len() == 0 {
        fail(ParserErrorView::UnexpectedEOI, ts)
    } else {
        let inner = parse_expression(ts.skip(1), table);
        match inner.result {
            Err(e) => fail(e, inner.rest),
            Ok(value) => match first_of(inner.rest) {
                Some(TokenView::ClosedParen) => done(value, inner.rest.skip(1)),
                Some(unexpected) => fail(
                    ParserErrorView::UnexpectedToken(unexpected),
                    inner.rest.skip(1),
                ),
                None => fail(ParserErrorView::UnexpectedEOI, inner.rest),
            },
        }
    }
}

/// ifexpr ::= 'if' expression 'then' expression 'else' expression
pub open spec fn parse_if_expr(ts: Seq<TokenView>, table: Map<Ops, int>) -> Parsed<Expr>
    decreases ts.len(), 1int,
{
    if first_of(ts) != Some(TokenView::If) {
        fail(ParserErrorView::ExpectedToken("if"@), after(ts))
    } else {
        let cond = parse_expression(ts.skip(1), table);
        match cond.result {
            Err(e) => fail(e, cond.rest),
            Ok(c) => if first_of(cond.rest) != Some(TokenView::Then) {
                fail(ParserErrorView::ExpectedToken("then"@), after(cond.rest))
            } else if cond.rest.len() > ts.len() {
                fail(ParserErrorView::UnexpectedEOI, cond.rest)
            } else {
                let then_branch = parse_expression(cond.rest.skip(1), table);
                match then_branch.result {
                    Err(e) => fail(e, then_branch.rest),
                    Ok(t) => if first_of(then_branch.rest) != Some(TokenView::Else) {
                        fail(ParserErrorView::ExpectedToken("else"@), after(then_branch.rest))
                    } else if then_branch.rest.len() > ts.len() {
                        fail(ParserErrorView::UnexpectedEOI, then_branch.rest)
                    } else {
                        let else_branch = parse_expression(then_branch.rest.skip(1), table);
                        match else_branch.result {
                            Err(e) => fail(e, else_branch.rest),
                            Ok(e) => done(
                                Expr::If {
                                    cond: Box::new(c),
                                    then_branch: Box::new(t),
                                    else_branch: Box::new(e),
                                },
                                else_branch.rest,
                            ),
                        }
                    },
                }
            },
        }
    }
}

/// forexpr ::= 'for' identifier '=' expression ',' expression (',' expression)? 'in' expression
///
/// Where no step is written, the step is the literal `1.0`.
pub open spec fn parse_for_loop_expression(ts: Seq<TokenView>, table: Map<Ops, int>) -> Parsed<
    Expr,
>
    decreases ts.len(), 1int,
{
    if first_of(ts) != Some(TokenView::For) {
        fail(ParserErrorView::ExpectedToken("for"@), after(ts))
    } else {
        match first_of(ts.skip(1)) {
            Some(TokenView::Identifier(varname)) => {
                if first_of(ts.skip(2)) != Some(TokenView::Operator(Ops::Assign)) {
                    fail(ParserErrorView::ExpectedToken("="@), after(ts.skip(2)))
                } else {
                    let start = parse_expression(ts.skip(3), table);
                    match start.result {
                        Err(e) => fail(e, start.rest),
                        Ok(s) => if first_of(start.rest) != Some(TokenView::Comma) {
                            fail(ParserErrorView::ExpectedToken(","@), after(start.rest))
                        } else if start.rest.len() > ts.len() {
                            fail(ParserErrorView::UnexpectedEOI, start.rest)
                        } else {
                            let end = parse_expression(start.rest.skip(1), table);
                            match end.result {
                                Err(e) => fail(e, end.rest),
                                Ok(e) => if end.rest.len() > ts.len() {
                                    fail(ParserErrorView::UnexpectedEOI, end.rest)
                                } else {
                                    parse_for_loop_tail(ts, table, varname, s, e, end.rest)
                                },
                            }
                        },
                    }
                }
            },
            _ => fail(ParserErrorView::ExpectedToken("variable"@), after(ts.skip(1))),
        }
    }
}

/// What follows the end condition of a loop that began at `ts`: the step,
/// if there is one, then `in` and the body.
pub open spec fn parse_for_loop_tail(
    ts: Seq<TokenView>,
    table: Map<Ops, int>,
    varname: Seq<char>,
    start: Expr,
    end: Expr,
    rest: Seq<TokenView>,
) -> Parsed<Expr>
    decreases ts.len(), 0int,
{
    if rest.len() > ts.len() || ts.len() == 0 {
        fail(ParserErrorView::UnexpectedEOI, rest)
    } else {
        let step = if first_of(rest) == Some(TokenView::Comma) {
            parse_expression(rest.skip(1), table)
        } else {
            done(default_step(), rest)
        };
        match step.result {
            Err(e) => fail(e, step.rest),
            Ok(st) => if first_of(step.rest) != Some(TokenView::In) {
                fail(ParserErrorView::ExpectedToken("in"@), after(step.rest))
            } else if step.rest.len() > ts.len() {
                fail(ParserErrorView::UnexpectedEOI, step.rest)
            } else {
                let body = parse_expression(step.rest.skip(1), table);
                match body.result {
                    Err(e) => fail(e, body.rest),
                    Ok(b) => done(
                        Expr::For {
                            varname,
                            start: Box::new(start),
                            end: Box::new(end),
                            step: Box::new(st),
                            body: Box::new(b),
                        },
                        body.rest,
                    ),
                }
            },
        }
    }
}

/// varexpr ::= 'var' identifier ('=' expression)? (',' identifier ('=' expression)?)* 'in' expression
pub open spec fn parse_var_expression(ts: Seq<TokenView>, table: Map<Ops, int>) -> Parsed<Expr>
    decreases ts.len(), 1int,
{
    if ts.len() == 0 {
        fail(ParserErrorView::ExpectedToken("<identifier>"@), ts)
    } else {
        let bindings = parse_var_bindings(ts.skip(1), table, Seq::empty());
        match bindings.result {
            Err(e) => fail(e, bindings.rest),
            Ok(names) => if first_of(bindings.rest) != Some(TokenView::In) {
                fail(ParserErrorView::ExpectedToken("in"@), bindings.rest)
            } else if bindings.rest.len() > ts.len() {
                fail(ParserErrorView::UnexpectedEOI, bindings.rest)
            } else {
                let body = parse_expression(bindings.rest.skip(1), table);
                match body.result {
                    Err(e) => fail(e, body.rest),
                    Ok(b) => done(Expr::Let { bindings: names, body: Box::new(b) }, body.rest),
                }
            },
        }
    }
}

/// The bindings of a `var` form: names, each with or without an
/// initializer, with commas between them.
pub open spec fn parse_var_bindings(
    ts: Seq<TokenView>,
    table: Map<Ops, int>,
    names: Seq<(Seq<char>, Option<Expr>)>,
) -> Parsed<Seq<(Seq<char>, Option<Expr>)>>
    decreases ts.len(), 5int,
{
    match first_of(ts) {
        Some(TokenView::Identifier(name)) => {
            let init = if first_of(ts.skip(1)) == Some(TokenView::Operator(Ops::Assign)) {
                let value = parse_expression(ts.skip(2), table);
                match value.result {
                    Ok(v) => done(Some(v), value.rest),
                    Err(e) => fail(e, value.rest),
                }
            } else {
                done(None, ts.skip(1))
            };
            match init.result {
                Err(e) => fail(e, init.rest),
                Ok(value) => if first_of(init.rest) == Some(TokenView::Comma) {
                    if init.rest.len() <= ts.len() {
                        parse_var_bindings(init.rest.skip(1), table, names.push((name, value)))
                    } else {
                        fail(ParserErrorView::UnexpectedEOI, init.rest)
                    }
                } else {
                    done(names.push((name, value)), init.rest)
                },
            }
        },
        _ => fail(ParserErrorView::ExpectedToken("<identifier>"@), after(ts)),
    }
}

/// unary ::= operator unary | primary
pub open spec fn parse_unary(ts: Seq<TokenView>, table: Map<Ops, int>) -> Parsed<Expr>
    decreases ts.len(), 3int,
{
    match first_of(ts) {
        Some(TokenView::Operator(op)) => {
            let operand = parse_unary(ts.skip(1), table);
            match operand.result {
                Ok(e) => done(Expr::Unary { op, operand: Box::new(e) }, operand.rest),
                Err(e) => fail(e, operand.rest),
            }
        },
        _ => parse_primary(ts, table),
    }
}

/// expression ::= unary binoprhs
pub open spec fn parse_expression(ts: Seq<TokenView>, table: Map<Ops, int>) -> Parsed<Expr>
    decreases ts.len(), 4int,
{
    let lhs = parse_unary(ts, table);
    match lhs.result {
        Err(e) => fail(e, lhs.rest),
        Ok(left) => if lhs.rest.len() < ts.len() {
            parse_binop_rhs(lhs.rest, table, left, 0)
        } else {
            fail(ParserErrorView::UnexpectedEOI, lhs.rest)
        },
    }
}

/// binoprhs ::= (operator unary)*
///
/// Takes operators while they bind at least as tightly as `min_precedence`.
/// Where the operator after a right-hand side binds more tightly than the
/// one before it, that operator takes the right-hand side first; otherwise
/// what has been read becomes the left-hand side of the next operator.
pub open spec fn parse_binop_rhs(
    ts: Seq<TokenView>,
    table: Map<Ops, int>,
    lhs: Expr,
    min_precedence: int,
) -> Parsed<Expr>
    decreases ts.len(), 6int,
{
    let tok_prec = precedence_of(table, first_of(ts));
    if tok_prec < min_precedence {
        done(lhs, ts)
    } else {
        match first_of(ts) {
            Some(TokenView::Operator(op)) => {
                let operand = parse_unary(ts.skip(1), table);
                match operand.result {
                    Err(e) => fail(e, operand.rest),
                    Ok(rhs) => if operand.rest.len() >= ts.len() {
                        fail(ParserErrorView::UnexpectedEOI, operand.rest)
                    } else if tok_prec < precedence_of(table, first_of(operand.rest)) {
                        let tighter = parse_binop_rhs(operand.rest, table, rhs, tok_prec + 1);
                        match tighter.result {
                            Err(e) => fail(e, tighter.rest),
                            Ok(right) => if tighter.rest.len() >= ts.len() {
                                fail(ParserErrorView::UnexpectedEOI, tighter.rest)
                            } else {
                                parse_binop_rhs(
                                    tighter.rest,
                                    table,
                                    Expr::Binary { op, left: Box::new(lhs), right: Box::new(right) },
                                    min_precedence,
                                )
                            },
                        }
                    } else {
                        parse_binop_rhs(
                            operand.rest,
                            table,
                            Expr::Binary { op, left: Box::new(lhs), right: Box::new(rhs) },
                            min_precedence,
                        )
                    },
                }
            },
            _ => done(lhs, ts),
        }
    }
}

/// How many names stand at the front of `ts`.
pub open spec fn leading_names(ts: Seq<TokenView>) -> nat
    decreases ts.len(),
{
    match first_of(ts) {
        Some(TokenView::Identifier(_)) => 1 + leading_names(ts.skip(1)),
        _ => 0,
    }
}

/// The name that a token holds, if it is one.
pub open spec fn name_of(token: TokenView) -> Seq<char> {
    match token {
        TokenView::Identifier(name) => name,
        _ => Seq::empty(),
    }
}

/// The outcome of parsing a prototype, and the operator table after it.
pub ghost struct ParsedPrototype {
    pub parsed: Parsed<PrototypeView>,
    pub table: Map<Ops, int>,
}

/// prototype ::= identifier '(' identifier* ')'
///             | 'unary' operator '(' identifier ')'
///             | 'binary' operator number '(' identifier identifier ')'
///
/// A binary overload enters its precedence into the table as soon as the
/// number has been read, whatever follows.
pub open spec fn parse_prototype(ts: Seq<TokenView>, table: Map<Ops, int>) -> ParsedPrototype {
    match first_of(ts) {
        Some(TokenView::Identifier(name)) => ParsedPrototype {
            parsed: parse_function_prototype(ts.skip(1), name),
            table,
        },
        Some(TokenView::UnaryOverload) => ParsedPrototype {
            parsed: parse_unary_prototype(ts.skip(1)),
            table,
        },
        Some(TokenView::BinaryOverload) => parse_binary_prototype(ts.skip(1), table),
        Some(unexpected) => ParsedPrototype {
            parsed: fail(ParserErrorView::UnexpectedToken(unexpected), ts.skip(1)),
            table,
        },
        None => ParsedPrototype { parsed: fail(ParserErrorView::UnexpectedEOI, ts), table },
    }
}

/// What follows the name in the prototype of a named function.
pub open spec fn parse_function_prototype(ts: Seq<TokenView>, name: Seq<char>) -> Parsed<
    PrototypeView,
> {
    if first_of(ts) != Some(TokenView::OpenParen) {
        fail(ParserErrorView::ExpectedToken("("@), ts)
    } else {
        let count = leading_names(ts.skip(1));
        let rest = ts.skip(1 + count as int);
        if first_of(rest) != Some(TokenView::ClosedParen) {
            fail(ParserErrorView::ExpectedToken(")"@), rest)
        } else {
            done(
                PrototypeView::Function {
                    name,
                    args: Seq::new(count, |i: int| name_of(ts[1 + i])),
                },
                rest.skip(1),
            )
        }
    }
}

/// What follows `unary` in the prototype of a unary overload.
pub open spec fn parse_unary_prototype(ts: Seq<TokenView>) -> Parsed<PrototypeView> {
    match first_of(ts) {
        Some(TokenView::Operator(operator)) => {
            if first_of(ts.skip(1)) != Some(TokenView::OpenParen) {
                fail(ParserErrorView::ExpectedToken("("@), ts.skip(1))
            } else {
                match first_of(ts.skip(2)) {
                    Some(TokenView::Identifier(arg)) => {
                        if first_of(ts.skip(3)) != Some(TokenView::ClosedParen) {
                            fail(ParserErrorView::ExpectedToken(")"@), ts.skip(3))
                        } else {
                            done(PrototypeView::UnaryOverload { operator, arg }, ts.skip(4))
                        }
                    },
                    _ => fail(ParserErrorView::BadOverloadedUnaryOp, after(ts.skip(2))),
                }
            }
        },
        _ => fail(ParserErrorView::ExpectedToken("!/&/|/^/:"@), after(ts)),
    }
}

/// What follows `binary` in the prototype of a binary overload.
pub open spec fn parse_binary_prototype(ts: Seq<TokenView>, table: Map<Ops, int>) -> ParsedPrototype {
    match first_of(ts) {
        Some(TokenView::Operator(operator)) => {
            match first_of(ts.skip(1)) {
                Some(TokenView::Number(text)) => {
                    let precedence = literal_ceiling(text);
                    ParsedPrototype {
                        parsed: parse_binary_params(ts.skip(2), operator, precedence),
                        table: table.insert(operator, precedence),
                    }
                },
                _ => ParsedPrototype {
                    parsed: fail(ParserErrorView::BadOverloadedBinaryOp, after(ts.skip(1))),
                    table,
                },
            }
        },
        _ => ParsedPrototype {
            parsed: fail(ParserErrorView::ExpectedToken("!/&/|/^/:"@), after(ts)),
            table,
        },
    }
}

/// The parameters of a binary overload: two names in parentheses. Both
/// tokens are taken before they are looked at.
pub open spec fn parse_binary_params(ts: Seq<TokenView>, operator: Ops, precedence: int) -> Parsed<
    PrototypeView,
> {
    if first_of(ts) != Some(TokenView::OpenParen) {
        fail(ParserErrorView::ExpectedToken("("@), ts)
    } else {
        match (first_of(ts.skip(1)), first_of(after(ts.skip(1)))) {
            (Some(TokenView::Identifier(lhs)), Some(TokenView::Identifier(rhs))) => {
                if first_of(ts.skip(3)) != Some(TokenView::ClosedParen) {
                    fail(ParserErrorView::ExpectedToken(")"@), ts.skip(3))
                } else {
                    done(
                        PrototypeView::BinaryOverload { operator, args: (lhs, rhs), precedence },
                        ts.skip(4),
                    )
                }
            },
            _ => fail(ParserErrorView::BadOverloadedBinaryOp, after(after(ts.skip(1)))),
        }
    }
}

/// The outcome of parsing a top-level form, and the operator table after it.
pub ghost struct ParsedFunction {
    pub parsed: Parsed<FunctionView>,
    pub table: Map<Ops, int>,
}

/// external ::= 'extern' prototype
pub open spec fn parse_extern(ts: Seq<TokenView>, table: Map<Ops, int>) -> ParsedPrototype {
    parse_prototype(after(ts), table)
}

/// definition ::= 'def' prototype expression
pub open spec fn parse_definition(ts: Seq<TokenView>, table: Map<Ops, int>) -> ParsedFunction {
    let proto = parse_prototype(after(ts), table);
    match proto.parsed.result {
        Err(e) => ParsedFunction { parsed: fail(e, proto.parsed.rest), table: proto.table },
        Ok(p) => {
            let body = parse_expression(proto.parsed.rest, proto.table);
            match body.result {
                Err(e) => ParsedFunction { parsed: fail(e, body.rest), table: proto.table },
                Ok(b) => ParsedFunction {
                    parsed: done(FunctionView { proto: p, body: b }, body.rest),
                    table: proto.table,
                },
            }
        },
    }
}

/// toplevelexpr ::= expression
///
/// The expression becomes the body of a function without parameters.
pub open spec fn parse_top_level_expr(ts: Seq<TokenView>, table: Map<Ops, int>) -> Parsed<
    FunctionView,
> {
    let body = parse_expression(ts, table);
    match body.result {
        Err(e) => fail(e, body.rest),
        Ok(b) => done(
            FunctionView {
                proto: PrototypeView::Function { name: anonymous_name(), args: Seq::empty() },
                body: b,
            },
            body.rest,
        ),
    }
}

} // verus!
