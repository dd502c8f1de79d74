//! The instructions that lowering emits: what a backend is told to do, one
//! step after the other.

use vstd::prelude::*;

verus! {

/// A value that an instruction reads.
#[derive(Debug, Clone, Copy, PartialEq, Eq, Structural)]
pub enum Value {
    /// The constant whose literal stands at this place among the
    /// function's constants.
    Const(usize),
    /// The parameter at this place.
    Param(usize),
    /// What the instruction with this result number yielded.
    Temp(usize),
}

/// The arithmetic instructions.
#[derive(Debug, Clone, Copy, PartialEq, Eq, Structural)]
pub enum ArithOp {
    Add,
    Sub,
    Mul,
    Div,
}

/// The comparisons. Each yields 1.0 where it holds and 0.0 where it does
/// not.
#[derive(Debug, Clone, Copy, PartialEq, Eq, Structural)]
pub enum CompareOp {
    NotEqual,
    Less,
    Greater,
}

/// One step of the protocol. Results, storage locations and blocks are
/// numbered from 0 in the order in which a function's steps make them.
#[derive(Debug, Clone, Copy, PartialEq, Eq, Structural)]
#[allow(inconsistent_fields)]
pub enum Op {
    /// Makes a storage location in the function's entry block.
    Alloca { slot: usize },
    /// Reads a storage location.
    Load { dest: usize, slot: usize },
    /// Writes a storage location.
    Store { slot: usize, value: Value },
    Arith { dest: usize, op: ArithOp, lhs: Value, rhs: Value },
    Compare { dest: usize, op: CompareOp, lhs: Value, rhs: Value },
    /// The next argument of the call that follows.
    Arg { value: Value },
    /// Calls the function with this handle on the `argc` arguments before.
    Call { dest: usize, callee: usize, argc: usize },
    /// Adds a block to the function.
    Block { block: usize },
    /// Moves the place where instructions are added to the end of a block.
    Position { block: usize },
    /// Jumps to a block.
    Br { target: usize },
    /// Jumps to `then_block` where `cond` is not zero, else to `else_block`.
    CondBr { cond: Value, then_block: usize, else_block: usize },
    /// The first value where control came from the first block, the second
    /// where it came from the second.
    Phi { dest: usize, first: Value, first_block: usize, second: Value, second_block: usize },
    /// Returns from the function.
    Ret { value: Value },
}

} // verus!
