//! No parser leaves more tokens than it found, and a form that parses takes
//! at least one. So no step at the top level stands still.

use vstd::prelude::*;
use crate::ast::Expr;
use crate::driver::top_level;
use crate::grammar::{
    after, default_step, done, fail, leading_names, parse_binop_rhs, parse_call_args,
    parse_expression, parse_for_loop_expression, parse_for_loop_tail, parse_identifier_expr,
    parse_if_expr, parse_paren_expr, parse_primary, parse_prototype, parse_unary,
    parse_var_bindings, parse_var_expression, precedence_of, Parsed,
};
use crate::lexer::{first_of, Ops, TokenView};

verus! {

/// What is left is not longer than what there was.
pub open spec fn within<T>(p: Parsed<T>, ts: Seq<TokenView>) -> bool {
    p.rest.len() <= ts.len()
}

/// What is left is not longer than what there was, and shorter where
/// something was parsed.
pub open spec fn consumes<T>(p: Parsed<T>, ts: Seq<TokenView>) -> bool {
    &&& p.rest.len() <= ts.len()
    &&& p.result is Ok ==> p.rest.len() < ts.len()
}

proof fn lemma_primary(ts: Seq<TokenView>, table: Map<Ops, int>)
    ensures
        consumes(parse_primary(ts, table), ts),
    decreases ts.len(), 2int,
{
    match first_of(ts) {
        Some(TokenView::Identifier(_)) => lemma_identifier_expr(ts, table),
        Some(TokenView::OpenParen) => lemma_paren_expr(ts, table),
        Some(TokenView::If) => lemma_if_expr(ts, table),
        Some(TokenView::For) => lemma_for_loop_expression(ts, table),
        Some(TokenView::Var) => lemma_var_expression(ts, table),
        _ => {},
    }
}

proof fn lemma_identifier_expr(ts: Seq<TokenView>, table: Map<Ops, int>)
    ensures
        consumes(parse_identifier_expr(ts, table), ts),
    decreases ts.len(), 1int,
{
    match first_of(ts) {
        Some(TokenView::Identifier(name)) => {
            if first_of(ts.skip(1)) == Some(TokenView::OpenParen) && first_of(ts.skip(2)) != Some(
                TokenView::ClosedParen,
            ) {
                lemma_call_args(ts.skip(2), table, name, Seq::empty());
            }
        },
        _ => {},
    }
}

proof fn lemma_call_args(
    ts: Seq<TokenView>,
    table: Map<Ops, int>,
    callee: Seq<char>,
    args: Seq<Expr>,
)
    ensures
        consumes(parse_call_args(ts, table, callee, args), ts),
    decreases ts.len(), 5int,
{
    lemma_expression(ts, table);
    let arg = parse_expression(ts, table);
    if let Ok(value) = arg.result {
        if first_of(arg.rest) == Some(TokenView::Comma) {
            lemma_call_args(arg.rest.skip(1), table, callee, args.push(value));
        }
    }
}

proof fn lemma_paren_expr(ts: Seq<TokenView>, table: Map<Ops, int>)
    ensures
        consumes(parse_paren_expr(ts, table), ts),
    decreases ts.len(), 1int,
{
    if ts.len() > 0 {
        lemma_expression(ts.skip(1), table);
    }
}

proof fn lemma_if_expr(ts: Seq<TokenView>, table: Map<Ops, int>)
    ensures
        consumes(parse_if_expr(ts, table), ts),
    decreases ts.len(), 1int,
{
    if first_of(ts) == Some(TokenView::If) {
        lemma_expression(ts.skip(1), table);
        let cond = parse_expression(ts.skip(1), table);
        if cond.result is Ok && first_of(cond.rest) == Some(TokenView::Then) {
            lemma_expression(cond.rest.skip(1), table);
            let then_branch = parse_expression(cond.rest.skip(1), table);
            if then_branch.result is Ok && first_of(then_branch.rest) == Some(TokenView::Else) {
                lemma_expression(then_branch.rest.skip(1), table);
            }
        }
    }
}

proof fn lemma_for_loop_expression(ts: Seq<TokenView>, table: Map<Ops, int>)
    ensures
        consumes(parse_for_loop_expression(ts, table), ts),
    decreases ts.len(), 1int,
{
    if first_of(ts) == Some(TokenView::For) {
        if let Some(TokenView::Identifier(varname)) = first_of(ts.skip(1)) {
            if first_of(ts.skip(2)) == Some(TokenView::Operator(Ops::Assign)) {
                lemma_expression(ts.skip(3), table);
                let start = parse_expression(ts.skip(3), table);
                if let Ok(s) = start.result {
                    if first_of(start.rest) == Some(TokenView::Comma) {
                        lemma_expression(start.rest.skip(1), table);
                        let end = parse_expression(start.rest.skip(1), table);
                        if let Ok(e) = end.result {
                            lemma_for_loop_tail(ts, table, varname, s, e, end.rest);
                        }
                    }
                }
            }
        }
    }
}

proof fn lemma_for_loop_tail(
    ts: Seq<TokenView>,
    table: Map<Ops, int>,
    varname: Seq<char>,
    start: Expr,
    end: Expr,
    rest: Seq<TokenView>,
)
    requires
        rest.len() < ts.len(),
    ensures
        consumes(parse_for_loop_tail(ts, table, varname, start, end, rest), ts),
    decreases ts.len(), 0int,
{
    if first_of(rest) == Some(TokenView::Comma) {
        lemma_expression(rest.skip(1), table);
    }
    let step = if first_of(rest) == Some(TokenView::Comma) {
        parse_expression(rest.skip(1), table)
    } else {
        done(default_step(), rest)
    };
    if step.result is Ok && first_of(step.rest) == Some(TokenView::In) {
        lemma_expression(step.rest.skip(1), table);
    }
}

proof fn lemma_var_expression(ts: Seq<TokenView>, table: Map<Ops, int>)
    ensures
        consumes(parse_var_expression(ts, table), ts),
    decreases ts.len(), 1int,
{
    if ts.len() > 0 {
        lemma_var_bindings(ts.skip(1), table, Seq::empty());
        let bindings = parse_var_bindings(ts.skip(1), table, Seq::empty());
        if bindings.result is Ok && first_of(bindings.rest) == Some(TokenView::In) {
            lemma_expression(bindings.rest.skip(1), table);
        }
    }
}

proof fn lemma_var_bindings(
    ts: Seq<TokenView>,
    table: Map<Ops, int>,
    names: Seq<(Seq<char>, Option<Expr>)>,
)
    ensures
        consumes(parse_var_bindings(ts, table, names), ts),
    decreases ts.len(), 5int,
{
    if let Some(TokenView::Identifier(name)) = first_of(ts) {
        let init: Parsed<Option<Expr>> = if first_of(ts.skip(1)) == Some(
            TokenView::Operator(Ops::Assign),
        ) {
            lemma_expression(ts.skip(2), table);
            let value = parse_expression(ts.skip(2), table);
            match value.result {
                Ok(v) => done(Some(v), value.rest),
                Err(e) => fail(e, value.rest),
            }
        } else {
            done(None, ts.skip(1))
        };
        if let Ok(value) = init.result {
            if first_of(init.rest) == Some(TokenView::Comma) {
                lemma_var_bindings(init.rest.skip(1), table, names.push((name, value)));
            }
        }
    }
}

/// An operand leaves no more tokens than it found, and fewer where it
/// parses.
pub proof fn lemma_unary(ts: Seq<TokenView>, table: Map<Ops, int>)
    ensures
        consumes(parse_unary(ts, table), ts),
    decreases ts.len(), 3int,
{
    match first_of(ts) {
        Some(TokenView::Operator(_)) => lemma_unary(ts.skip(1), table),
        _ => lemma_primary(ts, table),
    }
}

/// An expression leaves no more tokens than it found, and fewer where it
/// parses.
pub proof fn lemma_expression(ts: Seq<TokenView>, table: Map<Ops, int>)
    ensures
        consumes(parse_expression(ts, table), ts),
    decreases ts.len(), 4int,
{
    lemma_unary(ts, table);
    let lhs = parse_unary(ts, table);
    if let Ok(left) = lhs.result {
        lemma_binop_rhs(lhs.rest, table, left, 0);
    }
}

/// A run of operators and operands leaves no more tokens than it found.
pub proof fn lemma_binop_rhs(
    ts: Seq<TokenView>,
    table: Map<Ops, int>,
    lhs: Expr,
    min_precedence: int,
)
    ensures
        within(parse_binop_rhs(ts, table, lhs, min_precedence), ts),
    decreases ts.len(), 6int,
{
    let tok_prec = precedence_of(table, first_of(ts));
    if tok_prec >= min_precedence {
        if let Some(TokenView::Operator(op)) = first_of(ts) {
            lemma_unary(ts.skip(1), table);
            let operand = parse_unary(ts.skip(1), table);
            if let Ok(rhs) = operand.result {
                if tok_prec < precedence_of(table, first_of(operand.rest)) {
                    lemma_binop_rhs(operand.rest, table, rhs, tok_prec + 1);
                    let tighter = parse_binop_rhs(operand.rest, table, rhs, tok_prec + 1);
                    if let Ok(right) = tighter.result {
                        lemma_binop_rhs(
                            tighter.rest,
                            table,
                            Expr::Binary { op, left: Box::new(lhs), right: Box::new(right) },
                            min_precedence,
                        );
                    }
                } else {
                    lemma_binop_rhs(
                        operand.rest,
                        table,
                        Expr::Binary { op, left: Box::new(lhs), right: Box::new(rhs) },
                        min_precedence,
                    );
                }
            }
        }
    }
}

/// The names at the front of a sequence are among its tokens.
proof fn lemma_leading_names(ts: Seq<TokenView>)
    ensures
        leading_names(ts) <= ts.len(),
    decreases ts.len(),
{
    if let Some(TokenView::Identifier(_)) = first_of(ts) {
        lemma_leading_names(ts.skip(1));
    }
}

/// A prototype takes at least one token wherever there is one.
pub proof fn lemma_prototype(ts: Seq<TokenView>, table: Map<Ops, int>)
    ensures
        within(parse_prototype(ts, table).parsed, ts),
        ts.len() > 0 ==> parse_prototype(ts, table).parsed.rest.len() < ts.len(),
{
    if ts.len() > 0 {
        let rest = ts.skip(1);
        lemma_leading_names(rest.skip(1));
    }
}

/// Every step at the top level that finds a form leaves fewer tokens than
/// it found: on no input does the driver stand still.
pub proof fn lemma_step_gets_further(ts: Seq<TokenView>, table: Map<Ops, int>)
    ensures
        top_level(ts, table).form is None <==> ts.len() == 0,
        top_level(ts, table).form is Some ==> top_level(ts, table).rest.len() < ts.len(),
{
    if ts.len() > 0 {
        lemma_prototype(after(ts), table);
        let proto = parse_prototype(after(ts), table);
        if proto.parsed.result is Ok {
            lemma_expression(proto.parsed.rest, proto.table);
        }
        lemma_expression(ts, table);
    }
}

} // verus!
