//! Lowering as mathematics: for each expression, the instructions that are
//! added to the function being built, and the value or the error that comes
//! of it.

use vstd::prelude::*;
use crate::ast::{Expr, FunctionView};
use crate::backend::{
    declared, defined, function_named, handle_of, position_from, BackendErrorView, Builder, Entry,
    Status,
};
use crate::ir::{ArithOp, CompareOp, Value};
use crate::lexer::Ops;

verus! {

/// The outcome of lowering an expression: its value or an error, and the
/// function as it has been built so far.
pub ghost struct Lowered {
    pub result: Result<Value, BackendErrorView>,
    pub builder: Builder,
}

/// The outcome of lowering the arguments of a call.
pub ghost struct LoweredArgs {
    pub result: Result<Seq<Value>, BackendErrorView>,
    pub builder: Builder,
}

/// The expression was lowered.
pub open spec fn lowered(value: Value, builder: Builder) -> Lowered {
    Lowered { result: Ok(value), builder }
}

/// The expression could not be lowered.
pub open spec fn failed(error: BackendErrorView, builder: Builder) -> Lowered {
    Lowered { result: Err(error), builder }
}

/// The name of the function that overloads a unary operator.
pub open spec fn unary_name(op: Ops) -> Seq<char> {
    "unary"@ + seq![op.symbol()]
}

/// The name of the function that overloads a binary operator.
pub open spec fn binary_name(op: Ops) -> Seq<char> {
    "binary"@ + seq![op.symbol()]
}

/// The literal of the constant zero: the value of a loop, and of a
/// variable without an initializer.
pub open spec fn zero() -> Seq<char> {
    "0.0"@
}

/// The storage location that a scope gives a name.
pub open spec fn slot_of(scope: Map<Seq<char>, nat>, name: Seq<char>) -> usize {
    scope[name] as usize
}

/// Lowers an expression into the function `b`, with the variables of
/// `scope` and the functions of `functions`.
pub open spec fn lower(
    e: Expr,
    b: Builder,
    scope: Map<Seq<char>, nat>,
    functions: Seq<Entry>,
) -> Lowered
    decreases e, 1int, 0int,
{
    match e {
        Expr::Number(text) => lowered(b.next_constant(), b.constant(text)),
        Expr::Variable(name) => if scope.contains_key(name) {
            lowered(b.next_temp(), b.load(slot_of(scope, name)))
        } else {
            failed(BackendErrorView::UnknownVariable(name), b)
        },
        Expr::Unary { op, operand } => match function_named(functions, unary_name(op)) {
            None => failed(BackendErrorView::UndefinedOperator(op), b),
            Some((callee, _)) => {
                let v = lower(*operand, b, scope, functions);
                match v.result {
                    Err(e) => failed(e, v.builder),
                    Ok(value) => lowered(v.builder.next_temp(), v.builder.call(callee, seq![value])),
                }
            },
        },
        Expr::Binary { op, left, right } => if op == Ops::Assign {
            match *left {
                Expr::Variable(name) => {
                    let r = lower(*right, b, scope, functions);
                    match r.result {
                        Err(e) => failed(e, r.builder),
                        Ok(value) => if scope.contains_key(name) {
                            lowered(value, r.builder.store(slot_of(scope, name), value))
                        } else {
                            failed(BackendErrorView::UnknownVariable(name), r.builder)
                        },
                    }
                },
                _ => failed(BackendErrorView::BadAssignment, b),
            }
        } else {
            let l = lower(*left, b, scope, functions);
            match l.result {
                Err(e) => failed(e, l.builder),
                Ok(lhs) => {
                    let r = lower(*right, l.builder, scope, functions);
                    match r.result {
                        Err(e) => failed(e, r.builder),
                        Ok(rhs) => apply(op, lhs, rhs, r.builder, functions),
                    }
                },
            }
        },
        Expr::Call { callee, args } => match function_named(functions, callee) {
            None => failed(BackendErrorView::UndefinedFunction(callee), b),
            Some((handle, params)) => if params != args.len() {
                failed(
                    BackendErrorView::IncorrectNumberOfArgs { func_name: callee, param_cnt: params },
                    b,
                )
            } else {
                let a = lower_args(args, 0, Seq::empty(), b, scope, functions);
                match a.result {
                    Err(e) => failed(e, a.builder),
                    Ok(values) => lowered(a.builder.next_temp(), a.builder.call(handle, values)),
                }
            },
        },
        Expr::If { cond, then_branch, else_branch } => {
            let c = lower(*cond, b, scope, functions);
            match c.result {
                Err(e) => failed(e, c.builder),
                Ok(condition) => {
                    let then_block = c.builder.blocks as usize;
                    let else_block = (c.builder.blocks + 1) as usize;
                    let merge_block = (c.builder.blocks + 2) as usize;
                    let t = lower(
                        *then_branch,
                        c.builder.open_block().open_block().open_block().cond_br(
                            condition,
                            then_block,
                            else_block,
                        ).position_at(then_block),
                        scope,
                        functions,
                    );
                    match t.result {
                        Err(e) => failed(e, t.builder),
                        Ok(then_value) => {
                            let e = lower(
                                *else_branch,
                                t.builder.br(merge_block).position_at(else_block),
                                scope,
                                functions,
                            );
                            match e.result {
                                Err(err) => failed(err, e.builder),
                                Ok(else_value) => {
                                    let merged = e.builder.br(merge_block).position_at(merge_block);
                                    lowered(
                                        merged.next_temp(),
                                        merged.phi(
                                            then_value,
                                            t.builder.current as usize,
                                            else_value,
                                            e.builder.current as usize,
                                        ),
                                    )
                                },
                            }
                        },
                    }
                },
            }
        },
        Expr::For { varname, start, end, step, body } => {
            let slot = b.slots as usize;
            let s = lower(*start, b.alloca(), scope, functions);
            match s.result {
                Err(e) => failed(e, s.builder),
                Ok(first) => {
                    let loop_block = s.builder.blocks as usize;
                    lower_loop(
                        e,
                        slot,
                        loop_block,
                        s.builder.store(slot, first).open_block().br(loop_block).position_at(
                            loop_block,
                        ),
                        scope.insert(varname, slot as nat),
                        functions,
                    )
                },
            }
        },
        Expr::Let { .. } => lower_let(e, 0, b, scope, functions),
    }
}

/// Lowers what the loop `e` runs each time round, in the scope that binds
/// its variable to the storage location `slot`: the body, whose value is
/// dropped; the step, which is added to the variable; the end condition,
/// and the jump back to `loop_block` for as long as it is not zero. The
/// value of the loop is zero.
pub open spec fn lower_loop(
    e: Expr,
    slot: usize,
    loop_block: usize,
    b: Builder,
    inner: Map<Seq<char>, nat>,
    functions: Seq<Entry>,
) -> Lowered
    decreases e, 0int, 0int,
{
    match e {
        Expr::For { varname, start, end, step, body } => {
            let bd = lower(*body, b, inner, functions);
            match bd.result {
                Err(error) => failed(error, bd.builder),
                Ok(_) => {
                    let st = lower(*step, bd.builder, inner, functions);
                    match st.result {
                        Err(error) => failed(error, st.builder),
                        Ok(by) => {
                            let current = st.builder.next_temp();
                            let loaded = st.builder.load(slot);
                            let next = loaded.next_temp();
                            let en = lower(
                                *end,
                                loaded.arith(ArithOp::Add, current, by).store(slot, next),
                                inner,
                                functions,
                            );
                            match en.result {
                                Err(error) => failed(error, en.builder),
                                Ok(again) => {
                                    let after_block = en.builder.blocks as usize;
                                    let out = en.builder.open_block().cond_br(
                                        again,
                                        loop_block,
                                        after_block,
                                    ).position_at(after_block);
                                    lowered(out.next_constant(), out.constant(zero()))
                                },
                            }
                        },
                    }
                },
            }
        },
        _ => arbitrary(),
    }
}

/// Applies a binary operator other than assignment to two values: the
/// built-in instruction where the operator has one, else a call of its
/// overload.
pub open spec fn apply(op: Ops, lhs: Value, rhs: Value, b: Builder, functions: Seq<Entry>) -> Lowered {
    match op {
        Ops::Plus => lowered(b.next_temp(), b.arith(ArithOp::Add, lhs, rhs)),
        Ops::Minus => lowered(b.next_temp(), b.arith(ArithOp::Sub, lhs, rhs)),
        Ops::Mult => lowered(b.next_temp(), b.arith(ArithOp::Mul, lhs, rhs)),
        Ops::Div => lowered(b.next_temp(), b.arith(ArithOp::Div, lhs, rhs)),
        Ops::Neq => lowered(b.next_temp(), b.compare(CompareOp::NotEqual, lhs, rhs)),
        Ops::Lt => lowered(b.next_temp(), b.compare(CompareOp::Less, lhs, rhs)),
        Ops::Gt => lowered(b.next_temp(), b.compare(CompareOp::Greater, lhs, rhs)),
        _ => match function_named(functions, binary_name(op)) {
            None => failed(BackendErrorView::UndefinedOperator(op), b),
            Some((callee, _)) => lowered(b.next_temp(), b.call(callee, seq![lhs, rhs])),
        },
    }
}

/// Lowers the arguments of a call from the `i`-th on, from left to right;
/// `values` holds those of the arguments before.
pub open spec fn lower_args(
    args: Seq<Expr>,
    i: int,
    values: Seq<Value>,
    b: Builder,
    scope: Map<Seq<char>, nat>,
    functions: Seq<Entry>,
) -> LoweredArgs
    decreases args, 0int, args.len() - i,
{
    if i < 0 || i >= args.len() {
        LoweredArgs { result: Ok(values), builder: b }
    } else {
        let v = lower(args[i], b, scope, functions);
        match v.result {
            Err(e) => LoweredArgs { result: Err(e), builder: v.builder },
            Ok(value) => lower_args(args, i + 1, values.push(value), v.builder, scope, functions),
        }
    }
}

/// Lowers the `var` form `e` from its `i`-th binding on: each binding's
/// initializer, or zero where it has none, is stored in a new storage
/// location, which the name stands for in what follows; the value is that
/// of the body.
pub open spec fn lower_let(
    e: Expr,
    i: int,
    b: Builder,
    scope: Map<Seq<char>, nat>,
    functions: Seq<Entry>,
) -> Lowered
    decreases e, 0int, e->bindings.len() - i,
{
    match e {
        Expr::Let { bindings, body } => {
            if i < 0 || i >= bindings.len() {
                lower(*body, b, scope, functions)
            } else {
                let init = match bindings[i].1 {
                    Some(first) => lower(first, b, scope, functions),
                    None => lowered(b.next_constant(), b.constant(zero())),
                };
                match init.result {
                    Err(error) => failed(error, init.builder),
                    Ok(value) => {
                        let slot = init.builder.slots as usize;
                        lower_let(
                            e,
                            i + 1,
                            init.builder.alloca().store(slot, value),
                            scope.insert(bindings[i].0, slot as nat),
                            functions,
                        )
                    },
                }
            }
        },
        _ => arbitrary(),
    }
}

/// A function's entry block once parameters have been given storage, and
/// the scope that binds them.
pub ghost struct Bound {
    pub builder: Builder,
    pub scope: Map<Seq<char>, nat>,
}

/// Gives each parameter from the `i`-th on a storage location that holds
/// the argument, and binds the parameter's name to it.
pub open spec fn bind_params(
    params: Seq<Seq<char>>,
    i: int,
    b: Builder,
    scope: Map<Seq<char>, nat>,
) -> Bound
    decreases params.len() - i,
{
    if i < 0 || i >= params.len() {
        Bound { builder: b, scope }
    } else {
        let slot = b.slots as usize;
        bind_params(
            params,
            i + 1,
            b.alloca().store(slot, Value::Param(i as usize)),
            scope.insert(params[i], slot as nat),
        )
    }
}

/// The entry block of a function with these parameters, and the scope of
/// its body.
pub open spec fn entry(params: Seq<Seq<char>>) -> Bound {
    bind_params(params, 0, Builder::empty().open_block().position_at(0), Map::empty())
}

/// Whether a function with this name has a body.
pub open spec fn has_body(functions: Seq<Entry>, name: Seq<char>) -> bool {
    position_from(functions, name, 0) matches Some(i) && functions[i].status == Status::Defined
}

/// The outcome of lowering a function definition: the function's handle or
/// an error, and the function table, the builder and the scope after it.
pub ghost struct Defined {
    pub result: Result<usize, BackendErrorView>,
    pub functions: Seq<Entry>,
    pub builder: Builder,
    pub scope: Map<Seq<char>, nat>,
}

/// Lowers a function definition. A function that has a body cannot get
/// another. Otherwise the function is declared, so that its body can call
/// it; the body is lowered in a scope that holds the parameters and nothing
/// else, and its value is returned. Where the body cannot be lowered the
/// function table stays as it was.
pub open spec fn define(
    f: FunctionView,
    functions: Seq<Entry>,
    b: Builder,
    scope: Map<Seq<char>, nat>,
) -> Defined {
    let name = f.proto.mangled_name();
    if has_body(functions, name) {
        Defined {
            result: Err(BackendErrorView::MultipleFunctionDefs(name)),
            functions,
            builder: b,
            scope,
        }
    } else {
        let table = declared(functions, name, f.proto.params().len());
        let handle = handle_of(functions, name);
        let start = entry(f.proto.params());
        let body = lower(f.body, start.builder, start.scope, table);
        match body.result {
            Err(e) => Defined { result: Err(e), functions, builder: body.builder, scope: start.scope },
            Ok(value) => Defined {
                result: Ok(handle as usize),
                functions: defined(table, handle, body.builder.ret(value)),
                builder: Builder::empty(),
                scope: start.scope,
            },
        }
    }
}

} // verus!
