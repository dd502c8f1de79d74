//! What lowering builds is in order: the proof that the steps of every
//! function that has been lowered are well formed.

use vstd::prelude::*;
use crate::ast::{Expr, FunctionView};
use crate::backend::{arg_ops, declared, function_named, Builder, Entry};
use crate::ir::{ArithOp, CompareOp, Op, Value};
use crate::lexer::Ops;
use crate::lowering::{
    apply, binary_name, bind_params, define, entry, lower, lower_args, lower_let, lower_loop,
    lowered, slot_of, unary_name, zero, Lowered,
};
use crate::shape::{is_open, shape, step, well_formed, Shape};

verus! {

/// The builder's counts are those of its steps, the steps are in order so
/// far, and no count is beyond the number of steps.
pub open spec fn at(b: Builder, params: nat) -> bool {
    let s = shape(b.ops);
    &&& s.ok
    &&& s.args == 0
    &&& s.temps == b.temps
    &&& s.slots == b.slots
    &&& s.blocks == b.blocks
    &&& s.current == b.current
    &&& s.consts <= b.constants.len()
    &&& s.params <= params
    &&& b.temps <= b.ops.len()
    &&& b.slots <= b.ops.len()
    &&& b.blocks <= b.ops.len()
    &&& forall|j: int| s.closed.contains(j) ==> 0 <= j < s.blocks
}

/// The current block does not end yet.
pub open spec fn open(b: Builder) -> bool {
    is_open(shape(b.ops))
}

/// The blocks of the builder that have ended.
pub open spec fn closed(b: Builder) -> Set<int> {
    shape(b.ops).closed
}

/// The steps and the constants can be counted in a `usize`.
pub open spec fn fits(b: Builder) -> bool {
    b.ops.len() <= usize::MAX && b.constants.len() <= usize::MAX
}

/// The builder has no fewer steps and constants than `b`.
pub open spec fn grown(b: Builder, b2: Builder) -> bool {
    b.ops.len() <= b2.ops.len() && b.constants.len() <= b2.constants.len()
}

/// The value can be read in the function that `b` builds.
pub open spec fn value_ok(v: Value, b: Builder, params: nat) -> bool {
    match v {
        Value::Const(i) => i < b.constants.len(),
        Value::Param(i) => i < params,
        Value::Temp(i) => i < b.temps,
    }
}

/// `b2` comes of `b` by instructions added to the current block.
pub open spec fn same_block(b: Builder, b2: Builder, params: nat) -> bool {
    &&& at(b2, params)
    &&& open(b2)
    &&& closed(b2) == closed(b)
    &&& b2.current == b.current
    &&& b2.blocks == b.blocks
    &&& b.temps <= b2.temps
    &&& b.slots <= b2.slots
    &&& b.constants.len() <= b2.constants.len()
}

/// `b2` comes of `b` by lowering: the blocks that `b` had and did not
/// build on are untouched; of the blocks that are new, all but the current
/// one have ended; and the block that `b` built on is still the current
/// one or has ended.
pub open spec fn extends(b: Builder, b2: Builder, params: nat) -> bool {
    &&& at(b2, params)
    &&& open(b2)
    &&& b.temps <= b2.temps
    &&& b.slots <= b2.slots
    &&& b.blocks <= b2.blocks
    &&& b.constants.len() <= b2.constants.len()
    &&& forall|j: int|
        0 <= j < b.blocks && j != b.current ==> (closed(b2).contains(j) <==> closed(b).contains(j))
    &&& forall|j: int| b.blocks <= j < b2.blocks && j != b2.current ==> closed(b2).contains(j)
    &&& (b2.current == b.current || (closed(b2).contains(b.current as int) && b2.current
        >= b.blocks))
}

proof fn lemma_push(ops: Seq<Op>, op: Op)
    ensures
        shape(ops.push(op)) == step(shape(ops), op),
{
    assert(ops.push(op).drop_last() =~= ops);
}

proof fn lemma_extends_trans(b0: Builder, b1: Builder, b2: Builder, params: nat)
    requires
        at(b0, params),
        open(b0),
        extends(b0, b1, params),
        extends(b1, b2, params),
    ensures
        extends(b0, b2, params),
{
}

proof fn lemma_same_block_extends(b: Builder, b2: Builder, params: nat)
    requires
        at(b, params),
        open(b),
        same_block(b, b2, params),
    ensures
        extends(b, b2, params),
{
}

proof fn lemma_value_stays_ok(v: Value, b: Builder, b2: Builder, params: nat)
    requires
        value_ok(v, b, params),
        b.temps <= b2.temps,
        b.constants.len() <= b2.constants.len(),
    ensures
        value_ok(v, b2, params),
{
}

proof fn lemma_constant(b: Builder, text: Seq<char>, params: nat)
    requires
        at(b, params),
        open(b),
        fits(b.constant(text)),
    ensures
        same_block(b, b.constant(text), params),
        value_ok(b.next_constant(), b.constant(text), params),
{
}

proof fn lemma_alloca(b: Builder, params: nat)
    requires
        at(b, params),
        open(b),
        fits(b.alloca()),
    ensures
        same_block(b, b.alloca(), params),
        b.alloca().slots == b.slots + 1,
        b.alloca().temps == b.temps,
        (b.slots as usize) == b.slots,
{
    lemma_push(b.ops, Op::Alloca { slot: b.slots as usize });
}

proof fn lemma_load(b: Builder, slot: usize, params: nat)
    requires
        at(b, params),
        open(b),
        slot < b.slots,
        fits(b.load(slot)),
    ensures
        same_block(b, b.load(slot), params),
        value_ok(b.next_temp(), b.load(slot), params),
        b.load(slot).slots == b.slots,
{
    lemma_push(b.ops, Op::Load { dest: b.temps as usize, slot });
}

proof fn lemma_store(b: Builder, slot: usize, value: Value, params: nat)
    requires
        at(b, params),
        open(b),
        slot < b.slots,
        value_ok(value, b, params),
        fits(b.store(slot, value)),
    ensures
        same_block(b, b.store(slot, value), params),
        b.store(slot, value).slots == b.slots,
        b.store(slot, value).temps == b.temps,
{
    lemma_push(b.ops, Op::Store { slot, value });
}

proof fn lemma_arith(b: Builder, op: ArithOp, lhs: Value, rhs: Value, params: nat)
    requires
        at(b, params),
        open(b),
        value_ok(lhs, b, params),
        value_ok(rhs, b, params),
        fits(b.arith(op, lhs, rhs)),
    ensures
        same_block(b, b.arith(op, lhs, rhs), params),
        value_ok(b.next_temp(), b.arith(op, lhs, rhs), params),
        b.arith(op, lhs, rhs).slots == b.slots,
{
    lemma_push(b.ops, Op::Arith { dest: b.temps as usize, op, lhs, rhs });
}

proof fn lemma_compare(b: Builder, op: CompareOp, lhs: Value, rhs: Value, params: nat)
    requires
        at(b, params),
        open(b),
        value_ok(lhs, b, params),
        value_ok(rhs, b, params),
        fits(b.compare(op, lhs, rhs)),
    ensures
        same_block(b, b.compare(op, lhs, rhs), params),
        value_ok(b.next_temp(), b.compare(op, lhs, rhs), params),
{
    lemma_push(b.ops, Op::Compare { dest: b.temps as usize, op, lhs, rhs });
}

/// The shape after some of the arguments of a call have been given.
proof fn lemma_args(b: Builder, args: Seq<Value>, k: int, params: nat)
    requires
        at(b, params),
        open(b),
        0 <= k <= args.len(),
        forall|i: int| 0 <= i < args.len() ==> value_ok(#[trigger] args[i], b, params),
    ensures
        shape(b.ops + arg_ops(args).take(k)) == (Shape {
            args: k as nat,
            consts: shape(b.ops + arg_ops(args).take(k)).consts,
            params: shape(b.ops + arg_ops(args).take(k)).params,
            ..shape(b.ops)
        }),
        shape(b.ops + arg_ops(args).take(k)).consts <= b.constants.len(),
        shape(b.ops + arg_ops(args).take(k)).params <= params,
    decreases k,
{
    if k > 0 {
        lemma_args(b, args, k - 1, params);
        let before = b.ops + arg_ops(args).take(k - 1);
        assert(b.ops + arg_ops(args).take(k) =~= before.push(Op::Arg { value: args[k - 1] }));
        lemma_push(before, Op::Arg { value: args[k - 1] });
    }
}

proof fn lemma_call(b: Builder, callee: usize, args: Seq<Value>, params: nat)
    requires
        at(b, params),
        open(b),
        forall|i: int| 0 <= i < args.len() ==> value_ok(#[trigger] args[i], b, params),
        fits(b.call(callee, args)),
    ensures
        same_block(b, b.call(callee, args), params),
        value_ok(b.next_temp(), b.call(callee, args), params),
        b.call(callee, args).slots == b.slots,
{
    lemma_args(b, args, args.len() as int, params);
    assert(arg_ops(args).take(args.len() as int) =~= arg_ops(args));
    lemma_push(
        b.ops + arg_ops(args),
        Op::Call { dest: b.temps as usize, callee, argc: args.len() as usize },
    );
}

proof fn lemma_open_block(b: Builder, params: nat)
    requires
        at(b, params),
        fits(b.open_block()),
    ensures
        at(b.open_block(), params),
        closed(b.open_block()) == closed(b),
        b.open_block().blocks == b.blocks + 1,
        (b.blocks as usize) == b.blocks,
{
    lemma_push(b.ops, Op::Block { block: b.blocks as usize });
}

proof fn lemma_position_at(b: Builder, block: usize, params: nat)
    requires
        at(b, params),
        block < b.blocks,
        fits(b.position_at(block)),
    ensures
        at(b.position_at(block), params),
        closed(b.position_at(block)) == closed(b),
{
    lemma_push(b.ops, Op::Position { block });
}

proof fn lemma_br(b: Builder, target: usize, params: nat)
    requires
        at(b, params),
        open(b),
        target < b.blocks,
        fits(b.br(target)),
    ensures
        at(b.br(target), params),
        closed(b.br(target)) == closed(b).insert(b.current as int),
{
    lemma_push(b.ops, Op::Br { target });
}

proof fn lemma_cond_br(
    b: Builder,
    cond: Value,
    then_block: usize,
    else_block: usize,
    params: nat,
)
    requires
        at(b, params),
        open(b),
        value_ok(cond, b, params),
        then_block < b.blocks,
        else_block < b.blocks,
        fits(b.cond_br(cond, then_block, else_block)),
    ensures
        at(b.cond_br(cond, then_block, else_block), params),
        closed(b.cond_br(cond, then_block, else_block)) == closed(b).insert(b.current as int),
{
    lemma_push(b.ops, Op::CondBr { cond, then_block, else_block });
}

proof fn lemma_phi(
    b: Builder,
    first: Value,
    first_block: usize,
    second: Value,
    second_block: usize,
    params: nat,
)
    requires
        at(b, params),
        open(b),
        value_ok(first, b, params),
        value_ok(second, b, params),
        first_block < b.blocks,
        second_block < b.blocks,
        closed(b).contains(first_block as int),
        closed(b).contains(second_block as int),
        fits(b.phi(first, first_block, second, second_block)),
    ensures
        same_block(b, b.phi(first, first_block, second, second_block), params),
        value_ok(b.next_temp(), b.phi(first, first_block, second, second_block), params),
{
    lemma_push(
        b.ops,
        Op::Phi { dest: b.temps as usize, first, first_block, second, second_block },
    );
}

proof fn lemma_ret(b: Builder, value: Value, params: nat)
    requires
        at(b, params),
        open(b),
        value_ok(value, b, params),
        fits(b.ret(value)),
    ensures
        at(b.ret(value), params),
        closed(b.ret(value)) == closed(b).insert(b.current as int),
{
    lemma_push(b.ops, Op::Ret { value });
}

/// Lowering only ever adds steps and constants.
pub proof fn lemma_lower_grows(
    e: Expr,
    b: Builder,
    scope: Map<Seq<char>, nat>,
    functions: Seq<Entry>,
)
    ensures
        grown(b, lower(e, b, scope, functions).builder),
    decreases e, 1int, 0int,
{
    match e {
        Expr::Number(_) => {},
        Expr::Variable(_) => {},
        Expr::Unary { op, operand } => {
            lemma_lower_grows(*operand, b, scope, functions);
        },
        Expr::Binary { op, left, right } => {
            if op == Ops::Assign {
                lemma_lower_grows(*right, b, scope, functions);
            } else {
                lemma_lower_grows(*left, b, scope, functions);
                let l = lower(*left, b, scope, functions);
                lemma_lower_grows(*right, l.builder, scope, functions);
            }
        },
        Expr::Call { callee, args } => {
            lemma_args_grow(args, 0, Seq::empty(), b, scope, functions);
        },
        Expr::If { cond, then_branch, else_branch } => {
            lemma_lower_grows(*cond, b, scope, functions);
            let c = lower(*cond, b, scope, functions);
            if let Ok(condition) = c.result {
                let then_block = c.builder.blocks as usize;
                let else_block = (c.builder.blocks + 1) as usize;
                let merge_block = (c.builder.blocks + 2) as usize;
                let b2 = c.builder.open_block().open_block().open_block().cond_br(
                    condition,
                    then_block,
                    else_block,
                ).position_at(then_block);
                lemma_lower_grows(*then_branch, b2, scope, functions);
                let t = lower(*then_branch, b2, scope, functions);
                if t.result is Ok {
                    lemma_lower_grows(
                        *else_branch,
                        t.builder.br(merge_block).position_at(else_block),
                        scope,
                        functions,
                    );
                }
            }
        },
        Expr::For { varname, start, end, step, body } => {
            lemma_lower_grows(*start, b.alloca(), scope, functions);
            let s = lower(*start, b.alloca(), scope, functions);
            if let Ok(first) = s.result {
                let slot = b.slots as usize;
                let loop_block = s.builder.blocks as usize;
                lemma_loop_grows(
                    e,
                    slot,
                    loop_block,
                    s.builder.store(slot, first).open_block().br(loop_block).position_at(
                        loop_block,
                    ),
                    scope.insert(varname, slot as nat),
                    functions,
                );
            }
        },
        Expr::Let { .. } => {
            lemma_let_grows(e, 0, b, scope, functions);
        },
    }
}

proof fn lemma_args_grow(
    args: Seq<Expr>,
    i: int,
    values: Seq<Value>,
    b: Builder,
    scope: Map<Seq<char>, nat>,
    functions: Seq<Entry>,
)
    ensures
        grown(b, lower_args(args, i, values, b, scope, functions).builder),
    decreases args, 0int, args.len() - i,
{
    if 0 <= i < args.len() {
        lemma_lower_grows(args[i], b, scope, functions);
        let v = lower(args[i], b, scope, functions);
        if let Ok(value) = v.result {
            lemma_args_grow(args, i + 1, values.push(value), v.builder, scope, functions);
        }
    }
}

proof fn lemma_loop_grows(
    e: Expr,
    slot: usize,
    loop_block: usize,
    b: Builder,
    inner: Map<Seq<char>, nat>,
    functions: Seq<Entry>,
)
    requires
        e is For,
    ensures
        grown(b, lower_loop(e, slot, loop_block, b, inner, functions).builder),
    decreases e, 0int, 0int,
{
    match e {
        Expr::For { varname, start, end, step, body } => {
            lemma_lower_grows(*body, b, inner, functions);
            let bd = lower(*body, b, inner, functions);
            if bd.result is Ok {
                lemma_lower_grows(*step, bd.builder, inner, functions);
                let st = lower(*step, bd.builder, inner, functions);
                if let Ok(by) = st.result {
                    let current = st.builder.next_temp();
                    let loaded = st.builder.load(slot);
                    let next = loaded.next_temp();
                    lemma_lower_grows(
                        *end,
                        loaded.arith(ArithOp::Add, current, by).store(slot, next),
                        inner,
                        functions,
                    );
                }
            }
        },
        _ => {},
    }
}

proof fn lemma_let_grows(
    e: Expr,
    i: int,
    b: Builder,
    scope: Map<Seq<char>, nat>,
    functions: Seq<Entry>,
)
    requires
        e is Let,
    ensures
        grown(b, lower_let(e, i, b, scope, functions).builder),
    decreases e, 0int, e->bindings.len() - i,
{
    match e {
        Expr::Let { bindings, body } => {
            if i < 0 || i >= bindings.len() {
                lemma_lower_grows(*body, b, scope, functions);
            } else {
                let init = match bindings[i].1 {
                    Some(first) => {
                        lemma_lower_grows(first, b, scope, functions);
                        lower(first, b, scope, functions)
                    },
                    None => lowered(b.next_constant(), b.constant(zero())),
                };
                if let Ok(value) = init.result {
                    let slot = init.builder.slots as usize;
                    lemma_let_grows(
                        e,
                        i + 1,
                        init.builder.alloca().store(slot, value),
                        scope.insert(bindings[i].0, slot as nat),
                        functions,
                    );
                }
            }
        },
        _ => {},
    }
}

/// Every name of the scope stands for a storage location that has been
/// made.
pub open spec fn scope_ok(scope: Map<Seq<char>, nat>, b: Builder) -> bool {
    forall|name: Seq<char>| scope.contains_key(name) ==> #[trigger] scope[name] < b.slots
}

/// An expression can be lowered into `b`.
pub open spec fn ready(b: Builder, scope: Map<Seq<char>, nat>, params: nat) -> bool {
    at(b, params) && open(b) && scope_ok(scope, b)
}

/// Where lowering went through, what it built extends `b` and its value
/// can be read.
pub open spec fn sound(b: Builder, out: Lowered, params: nat) -> bool {
    out.result matches Ok(v) ==> extends(b, out.builder, params) && value_ok(
        v,
        out.builder,
        params,
    )
}

proof fn lemma_apply(
    op: Ops,
    lhs: Value,
    rhs: Value,
    b: Builder,
    functions: Seq<Entry>,
    params: nat,
)
    requires
        at(b, params),
        open(b),
        value_ok(lhs, b, params),
        value_ok(rhs, b, params),
        fits(apply(op, lhs, rhs, b, functions).builder),
    ensures
        apply(op, lhs, rhs, b, functions).result matches Ok(v) ==> same_block(
            b,
            apply(op, lhs, rhs, b, functions).builder,
            params,
        ) && value_ok(v, apply(op, lhs, rhs, b, functions).builder, params),
{
    match op {
        Ops::Plus => lemma_arith(b, ArithOp::Add, lhs, rhs, params),
        Ops::Minus => lemma_arith(b, ArithOp::Sub, lhs, rhs, params),
        Ops::Mult => lemma_arith(b, ArithOp::Mul, lhs, rhs, params),
        Ops::Div => lemma_arith(b, ArithOp::Div, lhs, rhs, params),
        Ops::Neq => lemma_compare(b, CompareOp::NotEqual, lhs, rhs, params),
        Ops::Lt => lemma_compare(b, CompareOp::Less, lhs, rhs, params),
        Ops::Gt => lemma_compare(b, CompareOp::Greater, lhs, rhs, params),
        _ => {
            if let Some((callee, _)) = function_named(functions, binary_name(op)) {
                lemma_call(b, callee, seq![lhs, rhs], params);
            }
        },
    }
}

/// What lowering builds is in order, whatever the expression.
pub proof fn lemma_lower(
    e: Expr,
    b: Builder,
    scope: Map<Seq<char>, nat>,
    functions: Seq<Entry>,
    params: nat,
)
    requires
        ready(b, scope, params),
        fits(lower(e, b, scope, functions).builder),
    ensures
        sound(b, lower(e, b, scope, functions), params),
    decreases e, 1int, 0int,
{
    let out = lower(e, b, scope, functions);
    if out.result is Ok {
        match e {
            Expr::Number(text) => {
                lemma_constant(b, text, params);
            },
            Expr::Variable(name) => {
                lemma_load(b, slot_of(scope, name), params);
            },
            Expr::Unary { op, operand } => {
                let callee = (function_named(functions, unary_name(op))->0).0;
                let v = lower(*operand, b, scope, functions);
                lemma_lower(*operand, b, scope, functions, params);
                lemma_call(v.builder, callee, seq![v.result->Ok_0], params);
                lemma_extends_trans(b, v.builder, out.builder, params);
            },
            Expr::Binary { op, left, right } => {
                if op == Ops::Assign {
                    let r = lower(*right, b, scope, functions);
                    lemma_lower(*right, b, scope, functions, params);
                    let name = left->Variable_0;
                    lemma_store(r.builder, slot_of(scope, name), r.result->Ok_0, params);
                    lemma_extends_trans(b, r.builder, out.builder, params);
                } else {
                    let l = lower(*left, b, scope, functions);
                    let r = lower(*right, l.builder, scope, functions);
                    lemma_lower_grows(*right, l.builder, scope, functions);
                    lemma_lower(*left, b, scope, functions, params);
                    lemma_lower(*right, l.builder, scope, functions, params);
                    lemma_extends_trans(b, l.builder, r.builder, params);
                    lemma_apply(op, l.result->Ok_0, r.result->Ok_0, r.builder, functions, params);
                    lemma_extends_trans(b, r.builder, out.builder, params);
                }
            },
            Expr::Call { callee, args } => {
                let handle = (function_named(functions, callee)->0).0;
                let a = lower_args(args, 0, Seq::empty(), b, scope, functions);
                lemma_lower_args(args, 0, Seq::empty(), b, b, scope, functions, params);
                lemma_call(a.builder, handle, a.result->Ok_0, params);
                lemma_extends_trans(b, a.builder, out.builder, params);
            },
            Expr::If { .. } => {
                lemma_lower_if(e, b, scope, functions, params);
            },
            Expr::For { .. } => {
                lemma_lower_for(e, b, scope, functions, params);
            },
            Expr::Let { .. } => {
                lemma_lower_let(e, 0, b, scope, functions, params);
            },
        }
    }
}

/// The arguments of a call, lowered from the `i`-th on into `b`, which
/// extends the builder `b0` that the first argument was lowered into.
proof fn lemma_lower_args(
    args: Seq<Expr>,
    i: int,
    values: Seq<Value>,
    b0: Builder,
    b: Builder,
    scope: Map<Seq<char>, nat>,
    functions: Seq<Entry>,
    params: nat,
)
    requires
        ready(b0, scope, params),
        ready(b, scope, params),
        b0 == b || extends(b0, b, params),
        forall|k: int| 0 <= k < values.len() ==> value_ok(#[trigger] values[k], b, params),
        fits(lower_args(args, i, values, b, scope, functions).builder),
    ensures
        lower_args(args, i, values, b, scope, functions).result matches Ok(all) ==> ({
            let out = lower_args(args, i, values, b, scope, functions).builder;
            &&& out == b0 || extends(b0, out, params)
            &&& at(out, params)
            &&& open(out)
            &&& forall|k: int| 0 <= k < all.len() ==> value_ok(#[trigger] all[k], out, params)
        }),
    decreases args, 0int, args.len() - i,
{
    if 0 <= i < args.len() {
        let v = lower(args[i], b, scope, functions);
        if let Ok(value) = v.result {
            lemma_args_grow(args, i + 1, values.push(value), v.builder, scope, functions);
            lemma_lower(args[i], b, scope, functions, params);
            if b0 != b {
                lemma_extends_trans(b0, b, v.builder, params);
            }
            assert forall|k: int| 0 <= k < values.push(value).len() implies value_ok(
                #[trigger] values.push(value)[k],
                v.builder,
                params,
            ) by {
                if k < values.len() {
                    lemma_value_stays_ok(values[k], b, v.builder, params);
                }
            }
            lemma_lower_args(
                args,
                i + 1,
                values.push(value),
                b0,
                v.builder,
                scope,
                functions,
                params,
            );
        }
    }
}

proof fn lemma_lower_if(
    e: Expr,
    b: Builder,
    scope: Map<Seq<char>, nat>,
    functions: Seq<Entry>,
    params: nat,
)
    requires
        e is If,
        ready(b, scope, params),
        fits(lower(e, b, scope, functions).builder),
        lower(e, b, scope, functions).result is Ok,
    ensures
        sound(b, lower(e, b, scope, functions), params),
    decreases e, 0int, 0int,
{
    match e {
        Expr::If { cond, then_branch, else_branch } => {
            let c = lower(*cond, b, scope, functions);
            let condition = c.result->Ok_0;
            let then_block = c.builder.blocks as usize;
            let else_block = (c.builder.blocks + 1) as usize;
            let merge_block = (c.builder.blocks + 2) as usize;
            let b1 = c.builder.open_block();
            let b2 = b1.open_block();
            let b3 = b2.open_block();
            let b4 = b3.cond_br(condition, then_block, else_block);
            let b5 = b4.position_at(then_block);
            let t = lower(*then_branch, b5, scope, functions);
            let then_value = t.result->Ok_0;
            let b6 = t.builder.br(merge_block);
            let b7 = b6.position_at(else_block);
            let el = lower(*else_branch, b7, scope, functions);
            let else_value = el.result->Ok_0;
            let b8 = el.builder.br(merge_block);
            let b9 = b8.position_at(merge_block);
            lemma_lower_grows(*then_branch, b5, scope, functions);
            lemma_lower_grows(*else_branch, b7, scope, functions);
            // the condition
            lemma_lower(*cond, b, scope, functions, params);
            lemma_open_block(c.builder, params);
            lemma_open_block(b1, params);
            lemma_open_block(b2, params);
            lemma_cond_br(b3, condition, then_block, else_block, params);
            lemma_position_at(b4, then_block, params);
            // the first branch
            lemma_lower(*then_branch, b5, scope, functions, params);
            lemma_br(t.builder, merge_block, params);
            lemma_position_at(b6, else_block, params);
            // the second branch
            lemma_lower(*else_branch, b7, scope, functions, params);
            lemma_br(el.builder, merge_block, params);
            lemma_position_at(b8, merge_block, params);
            lemma_value_stays_ok(then_value, t.builder, b9, params);
            lemma_phi(
                b9,
                then_value,
                t.builder.current as usize,
                else_value,
                el.builder.current as usize,
                params,
            );
        },
        _ => {},
    }
}

proof fn lemma_lower_for(
    e: Expr,
    b: Builder,
    scope: Map<Seq<char>, nat>,
    functions: Seq<Entry>,
    params: nat,
)
    requires
        e is For,
        ready(b, scope, params),
        fits(lower(e, b, scope, functions).builder),
        lower(e, b, scope, functions).result is Ok,
    ensures
        sound(b, lower(e, b, scope, functions), params),
    decreases e, 0int, 1int,
{
    match e {
        Expr::For { varname, start, end, step, body } => {
            let out = lower(e, b, scope, functions);
            let slot = b.slots as usize;
            let b1 = b.alloca();
            let s = lower(*start, b1, scope, functions);
            let first = s.result->Ok_0;
            let loop_block = s.builder.blocks as usize;
            let b2 = s.builder.store(slot, first);
            let b3 = b2.open_block();
            let b4 = b3.br(loop_block);
            let b5 = b4.position_at(loop_block);
            let inner = scope.insert(varname, slot as nat);
            lemma_loop_grows(e, slot, loop_block, b5, inner, functions);
            lemma_lower_grows(*start, b1, scope, functions);
            lemma_alloca(b, params);
            lemma_lower(*start, b1, scope, functions, params);
            lemma_store(s.builder, slot, first, params);
            lemma_open_block(b2, params);
            lemma_br(b3, loop_block, params);
            lemma_position_at(b4, loop_block, params);
            lemma_same_block_extends(b, b1, params);
            lemma_extends_trans(b, b1, s.builder, params);
            lemma_lower_loop(e, slot, loop_block, b5, inner, functions, params);
            lemma_extends_trans(b, b5, out.builder, params);
        },
        _ => {},
    }
}

/// What a loop runs each time round, lowered into the loop's block `b`.
/// All the blocks that `b` had but the loop's have ended or are waiting;
/// afterwards all the new ones have ended but the one behind the loop.
proof fn lemma_lower_loop(
    e: Expr,
    slot: usize,
    loop_block: usize,
    b: Builder,
    inner: Map<Seq<char>, nat>,
    functions: Seq<Entry>,
    params: nat,
)
    requires
        e is For,
        ready(b, inner, params),
        slot < b.slots,
        loop_block < b.blocks,
        fits(lower_loop(e, slot, loop_block, b, inner, functions).builder),
        lower_loop(e, slot, loop_block, b, inner, functions).result is Ok,
    ensures
        ({
            let out = lower_loop(e, slot, loop_block, b, inner, functions);
            &&& at(out.builder, params)
            &&& open(out.builder)
            &&& value_ok(out.result->Ok_0, out.builder, params)
            &&& b.temps <= out.builder.temps
            &&& b.slots <= out.builder.slots
            &&& b.blocks < out.builder.blocks
            &&& b.constants.len() <= out.builder.constants.len()
            &&& out.builder.current >= b.blocks
            &&& closed(out.builder).contains(b.current as int)
            &&& forall|j: int|
                0 <= j < b.blocks && j != b.current ==> (closed(out.builder).contains(j)
                    <==> closed(b).contains(j))
            &&& forall|j: int|
                b.blocks <= j < out.builder.blocks && j != out.builder.current ==> closed(
                    out.builder,
                ).contains(j)
        }),
    decreases e, 0int, 0int,
{
    match e {
        Expr::For { varname, start, end, step, body } => {
            let bd = lower(*body, b, inner, functions);
            let st = lower(*step, bd.builder, inner, functions);
            let by = st.result->Ok_0;
            let current = st.builder.next_temp();
            let loaded = st.builder.load(slot);
            let next = loaded.next_temp();
            let added = loaded.arith(ArithOp::Add, current, by);
            let stored = added.store(slot, next);
            let en = lower(*end, stored, inner, functions);
            let again = en.result->Ok_0;
            let after_block = en.builder.blocks as usize;
            let b1 = en.builder.open_block();
            let b2 = b1.cond_br(again, loop_block, after_block);
            let b3 = b2.position_at(after_block);
            lemma_lower_grows(*step, bd.builder, inner, functions);
            lemma_lower_grows(*end, stored, inner, functions);
            lemma_lower(*body, b, inner, functions, params);
            lemma_lower(*step, bd.builder, inner, functions, params);
            lemma_extends_trans(b, bd.builder, st.builder, params);
            lemma_load(st.builder, slot, params);
            lemma_value_stays_ok(by, st.builder, loaded, params);
            lemma_arith(loaded, ArithOp::Add, current, by, params);
            lemma_store(added, slot, next, params);
            lemma_same_block_extends(st.builder, stored, params);
            lemma_extends_trans(b, st.builder, stored, params);
            lemma_lower(*end, stored, inner, functions, params);
            lemma_extends_trans(b, stored, en.builder, params);
            lemma_open_block(en.builder, params);
            lemma_cond_br(b1, again, loop_block, after_block, params);
            lemma_position_at(b2, after_block, params);
            lemma_constant(b3, zero(), params);
        },
        _ => {},
    }
}

proof fn lemma_lower_let(
    e: Expr,
    i: int,
    b: Builder,
    scope: Map<Seq<char>, nat>,
    functions: Seq<Entry>,
    params: nat,
)
    requires
        e is Let,
        ready(b, scope, params),
        fits(lower_let(e, i, b, scope, functions).builder),
    ensures
        sound(b, lower_let(e, i, b, scope, functions), params),
    decreases e, 0int, e->bindings.len() - i,
{
    match e {
        Expr::Let { bindings, body } => {
            let out = lower_let(e, i, b, scope, functions);
            if out.result is Ok {
                if i < 0 || i >= bindings.len() {
                    lemma_lower(*body, b, scope, functions, params);
                } else {
                    let init = match bindings[i].1 {
                        Some(first) => lower(first, b, scope, functions),
                        None => lowered(b.next_constant(), b.constant(zero())),
                    };
                    let value = init.result->Ok_0;
                    let slot = init.builder.slots as usize;
                    let b1 = init.builder.alloca();
                    let b2 = b1.store(slot, value);
                    let inner = scope.insert(bindings[i].0, slot as nat);
                    lemma_let_grows(e, i + 1, b2, inner, functions);
                    match bindings[i].1 {
                        Some(first) => {
                            lemma_lower(first, b, scope, functions, params);
                        },
                        None => {
                            lemma_constant(b, zero(), params);
                            lemma_same_block_extends(b, init.builder, params);
                        },
                    }
                    lemma_alloca(init.builder, params);
                    lemma_value_stays_ok(value, init.builder, b1, params);
                    lemma_store(b1, slot, value, params);
                    lemma_same_block_extends(init.builder, b2, params);
                    lemma_extends_trans(b, init.builder, b2, params);
                    lemma_lower_let(e, i + 1, b2, inner, functions, params);
                    lemma_extends_trans(b, b2, out.builder, params);
                }
            }
        },
        _ => {},
    }
}

proof fn lemma_bind_grows(
    names: Seq<Seq<char>>,
    i: int,
    b: Builder,
    scope: Map<Seq<char>, nat>,
)
    ensures
        grown(b, bind_params(names, i, b, scope).builder),
    decreases names.len() - i,
{
    if 0 <= i < names.len() {
        let slot = b.slots as usize;
        lemma_bind_grows(
            names,
            i + 1,
            b.alloca().store(slot, Value::Param(i as usize)),
            scope.insert(names[i], slot as nat),
        );
    }
}

/// Giving the parameters storage adds to the entry block and to nothing
/// else.
proof fn lemma_bind_params(
    names: Seq<Seq<char>>,
    i: int,
    b: Builder,
    scope: Map<Seq<char>, nat>,
)
    requires
        0 <= i,
        ready(b, scope, names.len()),
        fits(bind_params(names, i, b, scope).builder),
    ensures
        ready(
            bind_params(names, i, b, scope).builder,
            bind_params(names, i, b, scope).scope,
            names.len(),
        ),
        closed(bind_params(names, i, b, scope).builder) == closed(b),
        bind_params(names, i, b, scope).builder.current == b.current,
        bind_params(names, i, b, scope).builder.blocks == b.blocks,
    decreases names.len() - i,
{
    if i < names.len() {
        let params = names.len();
        let slot = b.slots as usize;
        let b1 = b.alloca();
        let b2 = b1.store(slot, Value::Param(i as usize));
        lemma_bind_grows(names, i + 1, b2, scope.insert(names[i], slot as nat));
        lemma_alloca(b, params);
        lemma_store(b1, slot, Value::Param(i as usize), params);
        lemma_bind_params(names, i + 1, b2, scope.insert(names[i], slot as nat));
    }
}

/// What is built for a function with the parameters `names` and the body
/// `body` is well formed once the body's value has been returned, as long
/// as the steps and the constants can be counted.
pub proof fn lemma_body_well_formed(names: Seq<Seq<char>>, body: Expr, functions: Seq<Entry>)
    requires
        lower(body, entry(names).builder, entry(names).scope, functions).result is Ok,
        fits(
            lower(body, entry(names).builder, entry(names).scope, functions).builder.ret(
                lower(body, entry(names).builder, entry(names).scope, functions).result->Ok_0,
            ),
        ),
    ensures
        ({
            let out = lower(body, entry(names).builder, entry(names).scope, functions);
            let last = out.builder.ret(out.result->Ok_0);
            well_formed(last.ops, names.len(), last.constants.len())
        }),
{
    let params = names.len();
    let b0 = Builder::empty().open_block();
    let b1 = b0.position_at(0);
    let start = entry(names);
    let out = lower(body, start.builder, start.scope, functions);
    let value = out.result->Ok_0;
    let last = out.builder.ret(value);
    lemma_lower_grows(body, start.builder, start.scope, functions);
    lemma_bind_grows(names, 0, b1, Map::empty());
    // the entry block
    lemma_push(Seq::empty(), Op::Block { block: 0 });
    lemma_push(b0.ops, Op::Position { block: 0 });
    lemma_bind_params(names, 0, b1, Map::empty());
    // the body and the return
    lemma_lower(body, start.builder, start.scope, functions, params);
    lemma_ret(out.builder, value, params);
    assert forall|j: int| 0 <= j < shape(last.ops).blocks implies shape(last.ops).closed.contains(
        j,
    ) by {
    }
}

/// The body of every function that has been defined is well formed, as
/// long as its steps and its constants can be counted.
pub proof fn lemma_define_well_formed(
    f: FunctionView,
    functions: Seq<Entry>,
    b: Builder,
    scope: Map<Seq<char>, nat>,
)
    requires
        define(f, functions, b, scope).result is Ok,
        ({
            let handle = define(f, functions, b, scope).result->Ok_0 as int;
            let body = define(f, functions, b, scope).functions[handle];
            body.ops.len() <= usize::MAX && body.constants.len() <= usize::MAX
        }),
        crate::backend::handle_of(functions, f.proto.mangled_name()) <= usize::MAX,
    ensures
        ({
            let handle = define(f, functions, b, scope).result->Ok_0 as int;
            let body = define(f, functions, b, scope).functions[handle];
            well_formed(body.ops, f.proto.params().len(), body.constants.len())
        }),
{
    let names = f.proto.params();
    let table = declared(functions, f.proto.mangled_name(), names.len());
    let handle = crate::backend::handle_of(functions, f.proto.mangled_name());
    let start = entry(names);
    let body = lower(f.body, start.builder, start.scope, table);
    let last = body.builder.ret(body.result->Ok_0);
    lemma_handle_in_table(functions, f.proto.mangled_name(), names.len());
    assert(define(f, functions, b, scope).result == Ok::<usize, crate::backend::BackendErrorView>(
        handle as usize,
    ));
    assert(define(f, functions, b, scope).functions == crate::backend::defined(
        table,
        handle,
        last,
    ));
    lemma_body_well_formed(names, f.body, table);
}

/// The handle that a declaration gives lies in the table after it.
proof fn lemma_handle_in_table(functions: Seq<Entry>, name: Seq<char>, params: nat)
    ensures
        0 <= crate::backend::handle_of(functions, name) < declared(functions, name, params).len(),
{
    lemma_position_in_table(functions, name, 0);
}

proof fn lemma_position_in_table(functions: Seq<Entry>, name: Seq<char>, from: int)
    requires
        0 <= from,
    ensures
        crate::backend::position_from(functions, name, from) matches Some(i) ==> from <= i
            < functions.len(),
    decreases functions.len() - from,
{
    if from < functions.len() && functions[from].name != name {
        lemma_position_in_table(functions, name, from + 1);
    }
}

} // verus!
