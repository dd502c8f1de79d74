//! When a function's steps are in order: every block ends in a jump or a
//! return with nothing behind it, and every step reads only what steps
//! before it have made.

use vstd::prelude::*;
use crate::ir::{Op, Value};

verus! {

/// What a run through a function's steps has found.
pub ghost struct Shape {
    /// Every step so far was in order.
    pub ok: bool,
    /// How many results, storage locations and blocks have been made.
    pub temps: nat,
    pub slots: nat,
    pub blocks: nat,
    /// The block where instructions are added; -1 before the first
    /// `Position`.
    pub current: int,
    /// The blocks that end in a jump or a return.
    pub closed: Set<int>,
    /// How many arguments wait for their call.
    pub args: nat,
    /// One more than the greatest place among the constants, and among the
    /// parameters, that a step has read.
    pub consts: nat,
    pub params: nat,
}

/// The greater of two numbers.
pub open spec fn max(a: nat, b: nat) -> nat {
    if a >= b {
        a
    } else {
        b
    }
}

/// Whether an instruction can be added: there is a current block, and it
/// does not end yet.
pub open spec fn is_open(s: Shape) -> bool {
    0 <= s.current < s.blocks && !s.closed.contains(s.current)
}

/// An instruction is added that is not part of a call.
pub open spec fn plain(s: Shape) -> Shape {
    Shape { ok: s.ok && is_open(s) && s.args == 0, ..s }
}

/// A step reads a value: a result must have been made before.
pub open spec fn reads(s: Shape, v: Value) -> Shape {
    match v {
        Value::Const(i) => Shape { consts: max(s.consts, (i + 1) as nat), ..s },
        Value::Param(i) => Shape { params: max(s.params, (i + 1) as nat), ..s },
        Value::Temp(i) => Shape { ok: s.ok && i < s.temps, ..s },
    }
}

/// A step reads or writes a storage location, which must have been made.
pub open spec fn touches(s: Shape, slot: usize) -> Shape {
    Shape { ok: s.ok && slot < s.slots, ..s }
}

/// A step names a block, which must have been added.
pub open spec fn names(s: Shape, block: usize) -> Shape {
    Shape { ok: s.ok && block < s.blocks, ..s }
}

/// A step makes a result, which must get the next number.
pub open spec fn yields(s: Shape, dest: usize) -> Shape {
    Shape { ok: s.ok && dest == s.temps, temps: s.temps + 1, ..s }
}

/// A step ends the current block.
pub open spec fn ends(s: Shape) -> Shape {
    Shape { closed: s.closed.insert(s.current), ..s }
}

/// What has been found once one more step has been looked at.
pub open spec fn step(s: Shape, op: Op) -> Shape {
    match op {
        Op::Alloca { slot } => Shape {
            ok: s.ok && s.args == 0 && s.blocks >= 1 && slot == s.slots,
            slots: s.slots + 1,
            ..s
        },
        Op::Load { dest, slot } => yields(touches(plain(s), slot), dest),
        Op::Store { slot, value } => reads(touches(plain(s), slot), value),
        Op::Arith { dest, lhs, rhs, .. } => yields(reads(reads(plain(s), lhs), rhs), dest),
        Op::Compare { dest, lhs, rhs, .. } => yields(reads(reads(plain(s), lhs), rhs), dest),
        Op::Arg { value } => {
            let t = reads(Shape { ok: s.ok && is_open(s), ..s }, value);
            Shape { args: s.args + 1, ..t }
        },
        Op::Call { dest, argc, .. } => {
            let t = yields(Shape { ok: s.ok && is_open(s) && argc == s.args, ..s }, dest);
            Shape { args: 0, ..t }
        },
        Op::Block { block } => Shape {
            ok: s.ok && s.args == 0 && block == s.blocks,
            blocks: s.blocks + 1,
            ..s
        },
        Op::Position { block } => Shape { current: block as int, ..names(
            Shape { ok: s.ok && s.args == 0, ..s },
            block,
        ) },
        Op::Br { target } => ends(names(plain(s), target)),
        Op::CondBr { cond, then_block, else_block } => ends(
            names(names(reads(plain(s), cond), then_block), else_block),
        ),
        Op::Phi { dest, first, first_block, second, second_block } => {
            let t = names(names(reads(reads(plain(s), first), second), first_block), second_block);
            yields(
                Shape {
                    ok: t.ok && s.closed.contains(first_block as int) && s.closed.contains(
                        second_block as int,
                    ),
                    ..t
                },
                dest,
            )
        },
        Op::Ret { value } => ends(reads(plain(s), value)),
    }
}

/// What a run through `ops` finds.
pub open spec fn shape(ops: Seq<Op>) -> Shape
    decreases ops.len(),
{
    if ops.len() == 0 {
        Shape {
            ok: true,
            temps: 0,
            slots: 0,
            blocks: 0,
            current: -1,
            closed: Set::empty(),
            args: 0,
            consts: 0,
            params: 0,
        }
    } else {
        step(shape(ops.drop_last()), ops.last())
    }
}

/// The steps of a function with `params` parameters and `constants`
/// constants are in order: results, storage locations and blocks are
/// numbered as they are made; every instruction stands in a block that
/// does not end before it, and reads only results and storage locations
/// made before it and constants and parameters that the function has; a
/// merge names two blocks that have ended; every call takes exactly the
/// arguments given just before it; and every block ends in a jump or a
/// return.
pub open spec fn well_formed(ops: Seq<Op>, params: nat, constants: nat) -> bool {
    let s = shape(ops);
    &&& s.ok
    &&& s.args == 0
    &&& s.blocks >= 1
    &&& s.consts <= constants
    &&& s.params <= params
    &&& forall|j: int| 0 <= j < s.blocks ==> s.closed.contains(j)
}

/// A step leaves a run that was out of order out of order, and lowers
/// neither of the two bounds.
pub proof fn lemma_step_keeps(s: Shape, op: Op)
    ensures
        step(s, op).ok ==> s.ok,
        s.consts <= step(s, op).consts,
        s.params <= step(s, op).params,
{
}

/// What holds of a run holds of every run that it begins: the longer run
/// is in order only if the shorter is, and its bounds are no lower.
pub proof fn lemma_prefix(ops: Seq<Op>, k: int)
    requires
        0 <= k <= ops.len(),
    ensures
        shape(ops).ok ==> shape(ops.take(k)).ok,
        shape(ops.take(k)).consts <= shape(ops).consts,
        shape(ops.take(k)).params <= shape(ops).params,
    decreases ops.len(),
{
    if k == ops.len() {
        assert(ops.take(k) =~= ops);
    } else {
        assert(ops.drop_last().take(k) =~= ops.take(k));
        lemma_prefix(ops.drop_last(), k);
        lemma_step_keeps(shape(ops.drop_last()), ops.last());
    }
}

/// The run so far, as `check` holds it.
struct Run {
    temps: usize,
    slots: usize,
    blocks: usize,
    current: Option<usize>,
    closed: Vec<bool>,
    args: usize,
}

impl Run {
    /// The run holds what a run through `ops` finds, and all was in order.
    spec fn holds(&self, ops: Seq<Op>, params: nat, constants: nat) -> bool {
        let s = shape(ops);
        &&& s.ok
        &&& s.temps == self.temps
        &&& s.slots == self.slots
        &&& s.blocks == self.blocks
        &&& self.closed@.len() == self.blocks
        &&& s.current == match self.current {
            Some(c) => c as int,
            None => -1,
        }
        &&& s.args == self.args
        &&& forall|j: int| s.closed.contains(j) <==> 0 <= j < self.blocks && self.closed@[j]
        &&& s.consts <= constants
        &&& s.params <= params
        &&& self.temps <= ops.len()
        &&& self.slots <= ops.len()
        &&& self.blocks <= ops.len()
        &&& self.args <= ops.len()
    }

    spec fn open(&self) -> bool {
        match self.current {
            Some(c) => c < self.blocks && c < self.closed@.len() && !self.closed@[c as int],
            None => false,
        }
    }

    fn is_open(&self) -> (r: bool)
        ensures
            r == self.open(),
    {
        match self.current {
            Some(c) => c < self.blocks && c < self.closed.len() && !self.closed[c],
            None => false,
        }
    }

    /// Whether the value can be read.
    fn can_read(&self, v: Value, params: usize, constants: usize) -> (r: bool)
        ensures
            r == match v {
                Value::Const(i) => i < constants,
                Value::Param(i) => i < params,
                Value::Temp(i) => i < self.temps,
            },
    {
        match v {
            Value::Const(i) => i < constants,
            Value::Param(i) => i < params,
            Value::Temp(i) => i < self.temps,
        }
    }
}

/// Whether the steps of a function with `params` parameters and
/// `constants` constants are well formed.
pub fn check(ops: &Vec<Op>, params: usize, constants: usize) -> (r: bool)
    ensures
        r == well_formed(ops@, params as nat, constants as nat),
{
    let mut run = Run {
        temps: 0,
        slots: 0,
        blocks: 0,
        current: None,
        closed: Vec::new(),
        args: 0,
    };
    let mut k: usize = 0;
    while k < ops.len()
        invariant
            k <= ops.len(),
            run.holds(ops@.take(k as int), params as nat, constants as nat),
        decreases ops.len() - k,
    {
        let op = ops[k];
        let open = run.is_open();
        proof {
            assert(ops@.take(k + 1).drop_last() =~= ops@.take(k as int));
            lemma_prefix(ops@, k + 1);
        }
        let fine = match op {
            Op::Alloca { slot } => run.args == 0 && run.blocks >= 1 && slot == run.slots,
            Op::Load { dest, slot } => open && run.args == 0 && slot < run.slots && dest
                == run.temps,
            Op::Store { slot, value } => open && run.args == 0 && slot < run.slots && run.can_read(
                value,
                params,
                constants,
            ),
            Op::Arith { dest, lhs, rhs, .. } => open && run.args == 0 && run.can_read(
                lhs,
                params,
                constants,
            ) && run.can_read(rhs, params, constants) && dest == run.temps,
            Op::Compare { dest, lhs, rhs, .. } => open && run.args == 0 && run.can_read(
                lhs,
                params,
                constants,
            ) && run.can_read(rhs, params, constants) && dest == run.temps,
            Op::Arg { value } => open && run.can_read(value, params, constants),
            Op::Call { dest, argc, .. } => open && argc == run.args && dest == run.temps,
            Op::Block { block } => run.args == 0 && block == run.blocks,
            Op::Position { block } => run.args == 0 && block < run.blocks,
            Op::Br { target } => open && run.args == 0 && target < run.blocks,
            Op::CondBr { cond, then_block, else_block } => open && run.args == 0 && run.can_read(
                cond,
                params,
                constants,
            ) && then_block < run.blocks && else_block < run.blocks,
            Op::Phi { dest, first, first_block, second, second_block } => open && run.args == 0
                && run.can_read(first, params, constants) && run.can_read(
                second,
                params,
                constants,
            ) && first_block < run.blocks && second_block < run.blocks && run.closed[first_block]
                && run.closed[second_block] && dest == run.temps,
            Op::Ret { value } => open && run.args == 0 && run.can_read(value, params, constants),
        };
        if !fine {
            return false;
        }
        match op {
            Op::Alloca { .. } => {
                run.slots = run.slots + 1;
            },
            Op::Load { .. } | Op::Arith { .. } | Op::Compare { .. } | Op::Phi { .. } => {
                run.temps = run.temps + 1;
            },
            Op::Store { .. } => {},
            Op::Arg { .. } => {
                run.args = run.args + 1;
            },
            Op::Call { .. } => {
                run.temps = run.temps + 1;
                run.args = 0;
            },
            Op::Block { .. } => {
                run.blocks = run.blocks + 1;
                run.closed.push(false);
            },
            Op::Position { block } => {
                run.current = Some(block);
            },
            Op::Br { .. } | Op::CondBr { .. } | Op::Ret { .. } => {
                match run.current {
                    Some(c) => {
                        run.closed[c] = true;
                    },
                    None => {},
                }
            },
        }
        k += 1;
    }
    assert(ops@.take(ops.len() as int) =~= ops@);
    if run.args != 0 || run.blocks < 1 {
        return false;
    }
    let mut j: usize = 0;
    while j < run.blocks
        invariant
            j <= run.blocks,
            run.holds(ops@, params as nat, constants as nat),
            forall|i: int| 0 <= i < j ==> shape(ops@).closed.contains(i),
        decreases run.blocks - j,
    {
        if !run.closed[j] {
            assert(!shape(ops@).closed.contains(j as int));
            return false;
        }
        j += 1;
    }
    true
}

} // verus!
