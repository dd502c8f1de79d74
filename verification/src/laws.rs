//! What holds of the parser and of lowering whatever the input.

use vstd::prelude::*;
use crate::ast::{anonymous_name, Expr, PrototypeView};
use crate::backend::{
    function_named, position_from, undefined, without_top_level_expr, BackendErrorView, Builder,
    Entry, Status,
};
use crate::grammar::{
    default_step, done, parse_binop_rhs, parse_expression, parse_for_loop_tail, parse_prototype,
    parse_unary, precedence_of, ParserErrorView,
};
use crate::lexer::{first_of, Ops, TokenView};
use crate::lowering::{failed, has_body, lower};
use crate::progress::{lemma_binop_rhs, lemma_unary};

verus! {

/// Whether `ts` holds a chain from its `k`-th operator on: each operator of
/// `ops` followed by what reads as one operand, `operands[k + 1]` behind
/// `ops[k]`, and `rest` behind the last.
pub open spec fn is_chain(
    ts: Seq<TokenView>,
    table: Map<Ops, int>,
    ops: Seq<Ops>,
    operands: Seq<Expr>,
    k: int,
    rest: Seq<TokenView>,
) -> bool
    decreases ops.len() - k,
{
    if k < 0 || k >= ops.len() {
        ts == rest
    } else {
        &&& first_of(ts) == Some(TokenView::Operator(ops[k]))
        &&& parse_unary(ts.skip(1), table).result == Ok::<Expr, ParserErrorView>(operands[k + 1])
        &&& is_chain(parse_unary(ts.skip(1), table).rest, table, ops, operands, k + 1, rest)
    }
}

/// The tree of the first `k` operators of a chain, each with all that
/// stands before it as its left operand.
pub open spec fn left_leaning(ops: Seq<Ops>, operands: Seq<Expr>, k: int) -> Expr
    decreases k,
{
    if k <= 0 {
        operands[0]
    } else {
        Expr::Binary {
            op: ops[k - 1],
            left: Box::new(left_leaning(ops, operands, k - 1)),
            right: Box::new(operands[k]),
        }
    }
}

/// Whether all the operators of a chain have the precedence `p`.
pub open spec fn all_bind_alike(table: Map<Ops, int>, ops: Seq<Ops>, p: int) -> bool {
    forall|i: int| 0 <= i < ops.len() ==> table.dom().contains(#[trigger] ops[i]) && table[ops[i]] == p
}

proof fn lemma_chain_step(
    ts: Seq<TokenView>,
    table: Map<Ops, int>,
    ops: Seq<Ops>,
    operands: Seq<Expr>,
    k: int,
    rest: Seq<TokenView>,
    p: int,
)
    requires
        operands.len() == ops.len() + 1,
        p >= 0,
        all_bind_alike(table, ops, p),
        precedence_of(table, first_of(rest)) < 0,
        0 <= k <= ops.len(),
        is_chain(ts, table, ops, operands, k, rest),
    ensures
        parse_binop_rhs(ts, table, left_leaning(ops, operands, k), 0) == done(
            left_leaning(ops, operands, ops.len() as int),
            rest,
        ),
    decreases ops.len() - k,
{
    if k < ops.len() {
        let operand = parse_unary(ts.skip(1), table);
        lemma_unary(ts.skip(1), table);
        assert(first_of(ts) == Some(TokenView::Operator(ops[k])));
        assert(table[ops[k]] == p);
        assert(is_chain(operand.rest, table, ops, operands, k + 1, rest));
        if k + 1 < ops.len() {
            assert(first_of(operand.rest) == Some(TokenView::Operator(ops[k + 1])));
            assert(table[ops[k + 1]] == p);
        } else {
            assert(operand.rest == rest);
        }
        lemma_chain_step(operand.rest, table, ops, operands, k + 1, rest, p);
    }
}

/// A chain of operands joined by operators of one precedence parses into
/// the tree that leans left: `1 + 2 - 3 + 4` is `((1 + 2) - 3) + 4`. An
/// operand is whatever reads as one: a number, a variable, a call, an
/// expression in parentheses, any of them behind prefix operators. The
/// chain ends where a token follows that does not bind as an operator.
pub proof fn lemma_chain_leans_left(
    ts: Seq<TokenView>,
    table: Map<Ops, int>,
    ops: Seq<Ops>,
    operands: Seq<Expr>,
    rest: Seq<TokenView>,
    p: int,
)
    requires
        operands.len() == ops.len() + 1,
        p >= 0,
        all_bind_alike(table, ops, p),
        precedence_of(table, first_of(rest)) < 0,
        parse_unary(ts, table).result == Ok::<Expr, ParserErrorView>(operands[0]),
        is_chain(parse_unary(ts, table).rest, table, ops, operands, 0, rest),
    ensures
        parse_expression(ts, table) == done(left_leaning(ops, operands, ops.len() as int), rest),
{
    lemma_unary(ts, table);
    lemma_chain_step(parse_unary(ts, table).rest, table, ops, operands, 0, rest, p);
}

/// Whether `ts` holds three operands with the operator `first` between
/// the first two and the operator `second` between the last two, and
/// `rest` behind.
pub open spec fn three_operands(
    ts: Seq<TokenView>,
    table: Map<Ops, int>,
    first: Ops,
    second: Ops,
    rest: Seq<TokenView>,
) -> bool {
    let a = parse_unary(ts, table);
    let b = parse_unary(a.rest.skip(1), table);
    let c = parse_unary(b.rest.skip(1), table);
    &&& a.result is Ok
    &&& first_of(a.rest) == Some(TokenView::Operator(first))
    &&& b.result is Ok
    &&& first_of(b.rest) == Some(TokenView::Operator(second))
    &&& c.result is Ok
    &&& c.rest == rest
}

/// The `i`-th of three operands.
pub open spec fn operand(ts: Seq<TokenView>, table: Map<Ops, int>, i: int) -> Expr {
    let a = parse_unary(ts, table);
    let b = parse_unary(a.rest.skip(1), table);
    let c = parse_unary(b.rest.skip(1), table);
    if i == 0 {
        a.result->Ok_0
    } else if i == 1 {
        b.result->Ok_0
    } else {
        c.result->Ok_0
    }
}

/// Of two operators in a row the one that binds more tightly takes the
/// operand between them: `x + y * z` is `x + (y * z)`. Where the second
/// binds no more tightly than the first, the first takes it: `x * y + z` is
/// `(x * y) + z`. The operands are whatever reads as one operand each.
pub proof fn lemma_tighter_operator_takes_operand(
    ts: Seq<TokenView>,
    table: Map<Ops, int>,
    first: Ops,
    second: Ops,
    rest: Seq<TokenView>,
)
    requires
        three_operands(ts, table, first, second, rest),
        table.dom().contains(first),
        table.dom().contains(second),
        table[first] >= 0,
        table[second] >= 0,
        precedence_of(table, first_of(rest)) < 0,
    ensures
        parse_expression(ts, table) == done(
            if table[first] < table[second] {
                Expr::Binary {
                    op: first,
                    left: Box::new(operand(ts, table, 0)),
                    right: Box::new(
                        Expr::Binary {
                            op: second,
                            left: Box::new(operand(ts, table, 1)),
                            right: Box::new(operand(ts, table, 2)),
                        },
                    ),
                }
            } else {
                Expr::Binary {
                    op: second,
                    left: Box::new(
                        Expr::Binary {
                            op: first,
                            left: Box::new(operand(ts, table, 0)),
                            right: Box::new(operand(ts, table, 1)),
                        },
                    ),
                    right: Box::new(operand(ts, table, 2)),
                }
            },
            rest,
        ),
{
    let a = parse_unary(ts, table);
    let b = parse_unary(a.rest.skip(1), table);
    let c = parse_unary(b.rest.skip(1), table);
    lemma_unary(ts, table);
    lemma_unary(a.rest.skip(1), table);
    lemma_unary(b.rest.skip(1), table);
    let x = operand(ts, table, 0);
    let y = operand(ts, table, 1);
    let z = operand(ts, table, 2);
    if table[first] < table[second] {
        let yz = Expr::Binary { op: second, left: Box::new(y), right: Box::new(z) };
        assert(parse_binop_rhs(rest, table, yz, table[first] + 1) == done(yz, rest));
        assert(parse_binop_rhs(b.rest, table, y, table[first] + 1) == done(yz, rest));
        let whole = Expr::Binary { op: first, left: Box::new(x), right: Box::new(yz) };
        assert(parse_binop_rhs(rest, table, whole, 0) == done(whole, rest));
        assert(parse_binop_rhs(a.rest, table, x, 0) == done(whole, rest));
    } else {
        let xy = Expr::Binary { op: first, left: Box::new(x), right: Box::new(y) };
        let whole = Expr::Binary { op: second, left: Box::new(xy), right: Box::new(z) };
        assert(parse_binop_rhs(rest, table, whole, 0) == done(whole, rest));
        assert(parse_binop_rhs(b.rest, table, xy, 0) == done(whole, rest));
        assert(parse_binop_rhs(a.rest, table, x, 0) == done(whole, rest));
    }
}

/// An operator or an operand, as they stand in a row.
pub ghost enum Item {
    Operator(Ops),
    Operand(Expr),
}

/// An expression read from left to right: the operands of its binary
/// operators with the operators between them.
pub open spec fn listing(e: Expr) -> Seq<Item>
    decreases e,
{
    match e {
        Expr::Binary { op, left, right } => listing(*left) + seq![Item::Operator(op)] + listing(
            *right,
        ),
        _ => seq![Item::Operand(e)],
    }
}

/// Whether a run that takes operators from the precedence `min` on takes
/// the operator at the front of `ts` and the operand behind it.
pub open spec fn run_goes_on(ts: Seq<TokenView>, table: Map<Ops, int>, min: int) -> bool {
    &&& first_of(ts) matches Some(TokenView::Operator(_))
    &&& precedence_of(table, first_of(ts)) >= min
    &&& parse_unary(ts.skip(1), table).result is Ok
    &&& parse_unary(ts.skip(1), table).rest.len() < ts.len()
}

/// What a run reads that takes operators from the precedence `min` on:
/// each operator and the operand behind it, read from left to right, up to
/// the first token that binds less tightly than `min`.
pub open spec fn run_listing(ts: Seq<TokenView>, table: Map<Ops, int>, min: int) -> Seq<Item>
    decreases ts.len(),
{
    if run_goes_on(ts, table, min) {
        let operand = parse_unary(ts.skip(1), table);
        seq![Item::Operator(ts[0]->Operator_0)] + listing(operand.result->Ok_0) + run_listing(
            operand.rest,
            table,
            min,
        )
    } else {
        Seq::empty()
    }
}

/// The tokens that such a run leaves.
pub open spec fn run_rest(ts: Seq<TokenView>, table: Map<Ops, int>, min: int) -> Seq<TokenView>
    decreases ts.len(),
{
    if run_goes_on(ts, table, min) {
        run_rest(parse_unary(ts.skip(1), table).rest, table, min)
    } else {
        ts
    }
}

/// A run that takes operators from `low` on reads what a run from `high`
/// on reads, and then what a run from `low` on reads of the rest.
proof fn lemma_run_in_two(ts: Seq<TokenView>, table: Map<Ops, int>, low: int, high: int)
    requires
        low <= high,
    ensures
        run_listing(ts, table, low) == run_listing(ts, table, high) + run_listing(
            run_rest(ts, table, high),
            table,
            low,
        ),
        run_rest(ts, table, low) == run_rest(run_rest(ts, table, high), table, low),
        run_rest(ts, table, high).len() <= ts.len(),
    decreases ts.len(),
{
    if run_goes_on(ts, table, high) {
        let operand = parse_unary(ts.skip(1), table);
        lemma_run_in_two(operand.rest, table, low, high);
        assert(run_listing(ts, table, low) =~= run_listing(ts, table, high) + run_listing(
            run_rest(ts, table, high),
            table,
            low,
        ));
    } else {
        assert(run_listing(ts, table, high) + run_listing(ts, table, low) =~= run_listing(
            ts,
            table,
            low,
        ));
    }
}

/// A run of operators keeps the operands in their order: read from left
/// to right, the tree that `parse_binop_rhs` builds is what stood to the
/// left, and then each operator and operand as the run read them, whatever
/// the precedences make of the nesting. And the run leaves exactly the
/// tokens from the first on that binds less tightly than `min_precedence`.
pub proof fn lemma_run_keeps_order(
    ts: Seq<TokenView>,
    table: Map<Ops, int>,
    lhs: Expr,
    min_precedence: int,
)
    ensures
        parse_binop_rhs(ts, table, lhs, min_precedence).result matches Ok(tree) ==> {
            &&& listing(tree) == listing(lhs) + run_listing(ts, table, min_precedence)
            &&& parse_binop_rhs(ts, table, lhs, min_precedence).rest == run_rest(
                ts,
                table,
                min_precedence,
            )
        },
    decreases ts.len(),
{
    let out = parse_binop_rhs(ts, table, lhs, min_precedence);
    let tok_prec = precedence_of(table, first_of(ts));
    if out.result is Ok && tok_prec >= min_precedence {
        if let Some(TokenView::Operator(op)) = first_of(ts) {
            let operand = parse_unary(ts.skip(1), table);
            lemma_unary(ts.skip(1), table);
            let rhs = operand.result->Ok_0;
            if tok_prec < precedence_of(table, first_of(operand.rest)) {
                let tighter = parse_binop_rhs(operand.rest, table, rhs, tok_prec + 1);
                let right = tighter.result->Ok_0;
                let node = Expr::Binary { op, left: Box::new(lhs), right: Box::new(right) };
                lemma_binop_rhs(operand.rest, table, rhs, tok_prec + 1);
                lemma_run_keeps_order(operand.rest, table, rhs, tok_prec + 1);
                lemma_run_keeps_order(tighter.rest, table, node, min_precedence);
                lemma_run_in_two(operand.rest, table, min_precedence, tok_prec + 1);
                assert(listing(node) =~= listing(lhs) + seq![Item::Operator(op)] + listing(right));
                assert(listing(out.result->Ok_0) =~= listing(lhs) + run_listing(
                    ts,
                    table,
                    min_precedence,
                ));
            } else {
                let node = Expr::Binary { op, left: Box::new(lhs), right: Box::new(rhs) };
                lemma_run_keeps_order(operand.rest, table, node, min_precedence);
                assert(listing(node) =~= listing(lhs) + seq![Item::Operator(op)] + listing(rhs));
                assert(listing(out.result->Ok_0) =~= listing(lhs) + run_listing(
                    ts,
                    table,
                    min_precedence,
                ));
            }
        } else {
            assert(listing(lhs) + Seq::<Item>::empty() =~= listing(lhs));
        }
    } else if out.result is Ok {
        assert(listing(lhs) + Seq::<Item>::empty() =~= listing(lhs));
    }
}

/// A run ends below its precedence: the token that it leaves at the front
/// does not bind as tightly as `min_precedence`, for as long as that is
/// not negative.
pub proof fn lemma_run_ends_below(
    ts: Seq<TokenView>,
    table: Map<Ops, int>,
    lhs: Expr,
    min_precedence: int,
)
    requires
        min_precedence >= 0,
    ensures
        parse_binop_rhs(ts, table, lhs, min_precedence).result is Ok ==> precedence_of(
            table,
            first_of(parse_binop_rhs(ts, table, lhs, min_precedence).rest),
        ) < min_precedence,
    decreases ts.len(),
{
    let out = parse_binop_rhs(ts, table, lhs, min_precedence);
    let tok_prec = precedence_of(table, first_of(ts));
    if out.result is Ok && tok_prec >= min_precedence {
        let op = first_of(ts)->0->Operator_0;
        let operand = parse_unary(ts.skip(1), table);
        lemma_unary(ts.skip(1), table);
        let rhs = operand.result->Ok_0;
        if tok_prec < precedence_of(table, first_of(operand.rest)) {
            let tighter = parse_binop_rhs(operand.rest, table, rhs, tok_prec + 1);
            lemma_binop_rhs(operand.rest, table, rhs, tok_prec + 1);
            lemma_run_ends_below(
                tighter.rest,
                table,
                Expr::Binary { op, left: Box::new(lhs), right: Box::new(tighter.result->Ok_0) },
                min_precedence,
            );
        } else {
            lemma_run_ends_below(
                operand.rest,
                table,
                Expr::Binary { op, left: Box::new(lhs), right: Box::new(rhs) },
                min_precedence,
            );
        }
    }
}

/// A run nests by precedence. The operator at the front of a run takes for
/// its right side the operand behind it and with it all that a run above
/// the operator's own precedence reads: the operators that follow and bind
/// more tightly, with their operands, and nothing that binds as tightly or
/// less. What has been read so far becomes the left side of whatever the
/// run takes next.
pub proof fn lemma_run_nests_by_precedence(
    ts: Seq<TokenView>,
    table: Map<Ops, int>,
    lhs: Expr,
    min_precedence: int,
)
    requires
        min_precedence >= 0,
        precedence_of(table, first_of(ts)) >= min_precedence,
        parse_binop_rhs(ts, table, lhs, min_precedence).result is Ok,
    ensures
        ({
            let op = first_of(ts)->0->Operator_0;
            let own = precedence_of(table, first_of(ts));
            let operand = parse_unary(ts.skip(1), table);
            exists|right: Expr|
                {
                    &&& listing(right) == listing(operand.result->Ok_0) + run_listing(
                        operand.rest,
                        table,
                        own + 1,
                    )
                    &&& precedence_of(table, first_of(run_rest(operand.rest, table, own + 1)))
                        <= own
                    &&& #[trigger] parse_binop_rhs(
                        run_rest(operand.rest, table, own + 1),
                        table,
                        Expr::Binary { op, left: Box::new(lhs), right: Box::new(right) },
                        min_precedence,
                    ) == parse_binop_rhs(ts, table, lhs, min_precedence)
                }
        }),
{
    let op = first_of(ts)->0->Operator_0;
    let own = precedence_of(table, first_of(ts));
    let operand = parse_unary(ts.skip(1), table);
    lemma_unary(ts.skip(1), table);
    let rhs = operand.result->Ok_0;
    if own < precedence_of(table, first_of(operand.rest)) {
        let tighter = parse_binop_rhs(operand.rest, table, rhs, own + 1);
        lemma_binop_rhs(operand.rest, table, rhs, own + 1);
        lemma_run_keeps_order(operand.rest, table, rhs, own + 1);
        lemma_run_ends_below(operand.rest, table, rhs, own + 1);
        let right = tighter.result->Ok_0;
        assert(parse_binop_rhs(
            run_rest(operand.rest, table, own + 1),
            table,
            Expr::Binary { op, left: Box::new(lhs), right: Box::new(right) },
            min_precedence,
        ) == parse_binop_rhs(ts, table, lhs, min_precedence));
    } else {
        assert(!run_goes_on(operand.rest, table, own + 1));
        assert(listing(rhs) + Seq::<Item>::empty() =~= listing(rhs));
        assert(parse_binop_rhs(
            run_rest(operand.rest, table, own + 1),
            table,
            Expr::Binary { op, left: Box::new(lhs), right: Box::new(rhs) },
            min_precedence,
        ) == parse_binop_rhs(ts, table, lhs, min_precedence));
    }
}

/// A loop that is written without a step has the literal `1.0` for its
/// step: where no comma follows the end condition, the step of what is
/// parsed is that literal.
pub proof fn lemma_omitted_step_is_one(
    ts: Seq<TokenView>,
    table: Map<Ops, int>,
    varname: Seq<char>,
    start: Expr,
    end: Expr,
    rest: Seq<TokenView>,
)
    requires
        first_of(rest) != Some(TokenView::Comma),
        parse_for_loop_tail(ts, table, varname, start, end, rest).result is Ok,
    ensures
        parse_for_loop_tail(ts, table, varname, start, end, rest).result->Ok_0 matches Expr::For {
            step,
            ..
        } && *step == default_step(),
{
}

/// Once the prototype of a binary overload has been parsed, its operator
/// binds with the precedence that the prototype declares, and every other
/// operator as before.
pub proof fn lemma_overload_enters_precedence(ts: Seq<TokenView>, table: Map<Ops, int>)
    requires
        parse_prototype(ts, table).parsed.result matches Ok(PrototypeView::BinaryOverload { .. }),
    ensures
        parse_prototype(ts, table).parsed.result matches Ok(
            PrototypeView::BinaryOverload { operator, precedence, .. },
        ) && parse_prototype(ts, table).table == table.insert(operator, precedence)
            && precedence_of(
            parse_prototype(ts, table).table,
            Some(TokenView::Operator(operator)),
        ) == precedence,
{
}

/// No entry ever leaves the operator table: an operator that had a
/// precedence has one after a prototype and after a step at the top level.
pub proof fn lemma_entries_stay(ts: Seq<TokenView>, table: Map<Ops, int>, op: Ops)
    requires
        table.dom().contains(op),
    ensures
        parse_prototype(ts, table).table.dom().contains(op),
        crate::driver::top_level(ts, table).table.dom().contains(op),
{
}

/// An operator that has no entry in the table is not taken as an infix
/// operator: the expression ends before it.
pub proof fn lemma_operator_without_entry_ends_expression(
    ts: Seq<TokenView>,
    table: Map<Ops, int>,
    lhs: Expr,
    min_precedence: int,
)
    requires
        min_precedence >= 0,
        first_of(ts) matches Some(TokenView::Operator(op)) && !table.dom().contains(op),
    ensures
        parse_binop_rhs(ts, table, lhs, min_precedence) == done(lhs, ts),
{
}

proof fn lemma_position_keeps(functions: Seq<Entry>, i: int, entry: Entry, name: Seq<char>, from: int)
    requires
        0 <= i < functions.len(),
        0 <= from,
        entry.name == functions[i].name,
    ensures
        position_from(functions.update(i, entry), name, from) == position_from(
            functions,
            name,
            from,
        ),
    decreases functions.len() - from,
{
    if from < functions.len() && functions[from].name != name {
        lemma_position_keeps(functions, i, entry, name, from + 1);
    }
}

/// Once the function that wraps a top-level expression has been taken out
/// of the table, nothing under its name has a body: the next expression
/// can be defined, and so can any number of expressions one after the
/// other.
pub proof fn lemma_expressions_follow_one_another(functions: Seq<Entry>)
    ensures
        !has_body(without_top_level_expr(functions), anonymous_name()),
{
    if let Some(i) = position_from(functions, anonymous_name(), 0) {
        lemma_position_in_range(functions, anonymous_name(), 0);
        let entry = undefined(functions, i, Status::Removed)[i];
        lemma_position_keeps(functions, i, entry, anonymous_name(), 0);
    }
}

proof fn lemma_position_in_range(functions: Seq<Entry>, name: Seq<char>, from: int)
    requires
        0 <= from,
    ensures
        position_from(functions, name, from) matches Some(i) ==> from <= i < functions.len(),
    decreases functions.len() - from,
{
    if from < functions.len() && functions[from].name != name {
        lemma_position_in_range(functions, name, from + 1);
    }
}

/// A call of a function that is not declared fails, and so does a call
/// with more or fewer arguments than the function has parameters; nothing
/// is lowered for either.
pub proof fn lemma_call_arity(
    callee: Seq<char>,
    args: Seq<Expr>,
    b: Builder,
    scope: Map<Seq<char>, nat>,
    functions: Seq<Entry>,
)
    ensures
        function_named(functions, callee) is None ==> lower(
            Expr::Call { callee, args },
            b,
            scope,
            functions,
        ) == failed(BackendErrorView::UndefinedFunction(callee), b),
        function_named(functions, callee) is Some && (function_named(functions, callee)->0).1
            != args.len() ==> lower(Expr::Call { callee, args }, b, scope, functions) == failed(
            BackendErrorView::IncorrectNumberOfArgs {
                func_name: callee,
                param_cnt: (function_named(functions, callee)->0).1,
            },
            b,
        ),
{
}

} // verus!
