//! The backend as lowering sees it: the functions that have been declared
//! and defined, and the instructions of the function being built.

use vstd::prelude::*;
use crate::ast::anonymous_name;
use crate::ir::{ArithOp, CompareOp, Op, Value};
use crate::lexer::Ops;
use crate::shape::{check, well_formed};
use crate::text::same_text;

verus! {

/// Why a form could not be lowered.
#[derive(Debug, PartialEq)]
pub enum BackendError<'src> {
    /// A variable that nothing binds.
    UnknownVariable(&'src str),
    /// A call of a function that nothing declares.
    UndefinedFunction(&'src str),
    /// A second definition of a function.
    MultipleFunctionDefs(String),
    /// A call with more or fewer arguments than the function has
    /// parameters.
    IncorrectNumberOfArgs { func_name: &'src str, param_cnt: usize },
    /// A function that the backend found malformed.
    FailedToVerifyFunc(String),
    /// An operator that is not built in and that no overload defines.
    UndefinedOperator(Ops),
    /// An assignment to what is not a variable.
    BadAssignment,
}

/// Why a form could not be lowered, with names as character sequences.
pub ghost enum BackendErrorView {
    UnknownVariable(Seq<char>),
    UndefinedFunction(Seq<char>),
    MultipleFunctionDefs(Seq<char>),
    IncorrectNumberOfArgs { func_name: Seq<char>, param_cnt: nat },
    FailedToVerifyFunc(Seq<char>),
    UndefinedOperator(Ops),
    BadAssignment,
}

impl<'src> View for BackendError<'src> {
    type V = BackendErrorView;

    open spec fn view(&self) -> BackendErrorView {
        match self {
            BackendError::UnknownVariable(name) => BackendErrorView::UnknownVariable(name@),
            BackendError::UndefinedFunction(name) => BackendErrorView::UndefinedFunction(name@),
            BackendError::MultipleFunctionDefs(name) => BackendErrorView::MultipleFunctionDefs(
                name@,
            ),
            BackendError::IncorrectNumberOfArgs { func_name, param_cnt } => {
                BackendErrorView::IncorrectNumberOfArgs {
                    func_name: func_name@,
                    param_cnt: *param_cnt as nat,
                }
            },
            BackendError::FailedToVerifyFunc(name) => BackendErrorView::FailedToVerifyFunc(name@),
            BackendError::UndefinedOperator(op) => BackendErrorView::UndefinedOperator(*op),
            BackendError::BadAssignment => BackendErrorView::BadAssignment,
        }
    }
}

/// What is known of a function's name.
#[derive(Debug, Clone, Copy, PartialEq, Eq, Structural)]
pub enum Status {
    /// The function was taken out again; the name is free.
    Removed,
    /// The function is declared and has no body.
    Declared,
    /// The function has a body.
    Defined,
}

/// An entry of the function table.
pub ghost struct Entry {
    pub name: Seq<char>,
    pub params: nat,
    pub status: Status,
    /// The instructions of the body; empty unless the function is defined.
    pub ops: Seq<Op>,
    /// The literals that the body's constants stand for.
    pub constants: Seq<Seq<char>>,
}

/// The function being built.
pub ghost struct Builder {
    pub ops: Seq<Op>,
    pub constants: Seq<Seq<char>>,
    /// How many results have been numbered.
    pub temps: nat,
    /// How many storage locations have been made.
    pub slots: nat,
    /// How many blocks have been added.
    pub blocks: nat,
    /// The block at whose end instructions are added.
    pub current: nat,
}

/// The `Arg` steps for a list of values.
pub open spec fn arg_ops(args: Seq<Value>) -> Seq<Op> {
    Seq::new(args.len(), |i: int| Op::Arg { value: args[i] })
}

impl Builder {
    /// A function without a single step.
    pub open spec fn empty() -> Builder {
        Builder { ops: Seq::empty(), constants: Seq::empty(), temps: 0, slots: 0, blocks: 0, current: 0 }
    }

    /// The result that the next instruction will have.
    pub open spec fn next_temp(self) -> Value {
        Value::Temp(self.temps as usize)
    }

    /// One more step.
    pub open spec fn emit(self, op: Op) -> Builder {
        Builder { ops: self.ops.push(op), ..self }
    }

    /// Adds an instruction that has a result.
    pub open spec fn emit_temp(self, op: Op) -> Builder {
        Builder { ops: self.ops.push(op), temps: self.temps + 1, ..self }
    }

    /// One more constant, for the literal `text`.
    pub open spec fn constant(self, text: Seq<char>) -> Builder {
        Builder { constants: self.constants.push(text), ..self }
    }

    /// The value of the constant that `constant` adds.
    pub open spec fn next_constant(self) -> Value {
        Value::Const(self.constants.len() as usize)
    }

    /// A new storage location in the entry block.
    pub open spec fn alloca(self) -> Builder {
        Builder { ops: self.ops.push(Op::Alloca { slot: self.slots as usize }), slots: self.slots + 1, ..self }
    }

    /// Reads a storage location.
    pub open spec fn load(self, slot: usize) -> Builder {
        self.emit_temp(Op::Load { dest: self.temps as usize, slot })
    }

    /// Writes a storage location.
    pub open spec fn store(self, slot: usize, value: Value) -> Builder {
        self.emit(Op::Store { slot, value })
    }

    /// An arithmetic instruction.
    pub open spec fn arith(self, op: ArithOp, lhs: Value, rhs: Value) -> Builder {
        self.emit_temp(Op::Arith { dest: self.temps as usize, op, lhs, rhs })
    }

    /// A comparison.
    pub open spec fn compare(self, op: CompareOp, lhs: Value, rhs: Value) -> Builder {
        self.emit_temp(Op::Compare { dest: self.temps as usize, op, lhs, rhs })
    }

    /// The arguments of a call, then the call.
    pub open spec fn call(self, callee: usize, args: Seq<Value>) -> Builder {
        Builder {
            ops: (self.ops + arg_ops(args)).push(
                Op::Call { dest: self.temps as usize, callee, argc: args.len() as usize },
            ),
            temps: self.temps + 1,
            ..self
        }
    }

    /// A new block.
    pub open spec fn open_block(self) -> Builder {
        Builder {
            ops: self.ops.push(Op::Block { block: self.blocks as usize }),
            blocks: self.blocks + 1,
            ..self
        }
    }

    /// Instructions are added at the end of `block` from now on.
    pub open spec fn position_at(self, block: usize) -> Builder {
        Builder { ops: self.ops.push(Op::Position { block }), current: block as nat, ..self }
    }

    /// A jump.
    pub open spec fn br(self, target: usize) -> Builder {
        self.emit(Op::Br { target })
    }

    /// A jump to one of two blocks.
    pub open spec fn cond_br(self, cond: Value, then_block: usize, else_block: usize) -> Builder {
        self.emit(Op::CondBr { cond, then_block, else_block })
    }

    /// A merge of the values of two blocks.
    pub open spec fn phi(
        self,
        first: Value,
        first_block: usize,
        second: Value,
        second_block: usize,
    ) -> Builder {
        self.emit_temp(
            Op::Phi { dest: self.temps as usize, first, first_block, second, second_block },
        )
    }

    /// A return.
    pub open spec fn ret(self, value: Value) -> Builder {
        self.emit(Op::Ret { value })
    }
}

/// The place of the first entry with this name, from `from` on.
pub open spec fn position_from(functions: Seq<Entry>, name: Seq<char>, from: int) -> Option<int>
    decreases functions.len() - from,
{
    if from < 0 || from >= functions.len() {
        None
    } else if functions[from].name == name {
        Some(from)
    } else {
        position_from(functions, name, from + 1)
    }
}

/// The handle of the function with this name and the number of its
/// parameters, if the name is declared.
pub open spec fn function_named(functions: Seq<Entry>, name: Seq<char>) -> Option<(usize, nat)> {
    match position_from(functions, name, 0) {
        Some(i) => if functions[i].status == Status::Removed {
            None
        } else {
            Some((i as usize, functions[i].params))
        },
        None => None,
    }
}

/// The handle that `declare` gives a name.
pub open spec fn handle_of(functions: Seq<Entry>, name: Seq<char>) -> int {
    match position_from(functions, name, 0) {
        Some(i) => i,
        None => functions.len() as int,
    }
}

/// The table after a function has been declared: a new name gets a new
/// entry, a name without a body the number of parameters given, and a
/// function that has a body stays as it is.
pub open spec fn declared(functions: Seq<Entry>, name: Seq<char>, params: nat) -> Seq<Entry> {
    match position_from(functions, name, 0) {
        Some(i) => if functions[i].status == Status::Defined {
            functions
        } else {
            functions.update(i, Entry { params, status: Status::Declared, ..functions[i] })
        },
        None => functions.push(
            Entry { name, params, status: Status::Declared, ops: Seq::empty(), constants: Seq::empty() },
        ),
    }
}

/// The table after a declaration has been taken back: the entry made for it
/// is gone, or has the number of parameters and the status it had before.
pub open spec fn taken_back(
    functions: Seq<Entry>,
    handle: int,
    previous: Option<(usize, Status)>,
) -> Seq<Entry> {
    match previous {
        Some((params, status)) => functions.update(
            handle,
            Entry { params: params as nat, status, ..functions[handle] },
        ),
        None => functions.drop_last(),
    }
}

/// The table after the function with this handle has been given a body.
pub open spec fn defined(functions: Seq<Entry>, handle: int, body: Builder) -> Seq<Entry> {
    functions.update(
        handle,
        Entry {
            name: functions[handle].name,
            params: functions[handle].params,
            status: Status::Defined,
            ops: body.ops,
            constants: body.constants,
        },
    )
}

/// The table after the function with this handle has lost its body and
/// been given the status `status`.
pub open spec fn undefined(functions: Seq<Entry>, handle: int, status: Status) -> Seq<Entry> {
    functions.update(
        handle,
        Entry {
            name: functions[handle].name,
            params: functions[handle].params,
            status,
            ops: Seq::empty(),
            constants: Seq::empty(),
        },
    )
}

/// The table without the function that wraps a top-level expression: its
/// entry, if there is one, has no body and the name is free.
pub open spec fn without_top_level_expr(functions: Seq<Entry>) -> Seq<Entry> {
    match position_from(functions, anonymous_name(), 0) {
        Some(i) => undefined(functions, i, Status::Removed),
        None => functions,
    }
}

/// The state of a backend: its function table and the function being
/// built.
pub ghost struct BackendView {
    pub functions: Seq<Entry>,
    pub builder: Builder,
}

/// The texts of a list of strings.
pub open spec fn string_views(strings: Seq<String>) -> Seq<Seq<char>> {
    Seq::new(strings.len(), |i: int| strings[i]@)
}

/// A backend that records what it is told.
#[derive(Debug)]
pub struct Backend {
    names: Vec<String>,
    params: Vec<usize>,
    statuses: Vec<Status>,
    bodies: Vec<Vec<Op>>,
    pools: Vec<Vec<String>>,
    ops: Vec<Op>,
    constants: Vec<String>,
    temps: usize,
    slots: usize,
    blocks: usize,
    current: usize,
}

impl View for Backend {
    type V = BackendView;

    closed spec fn view(&self) -> BackendView {
        BackendView {
            functions: Seq::new(
                self.names@.len(),
                |i: int|
                    Entry {
                        name: self.names@[i]@,
                        params: self.params@[i] as nat,
                        status: self.statuses@[i],
                        ops: self.bodies@[i]@,
                        constants: string_views(self.pools@[i]@),
                    },
            ),
            builder: Builder {
                ops: self.ops@,
                constants: string_views(self.constants@),
                temps: self.temps as nat,
                slots: self.slots as nat,
                blocks: self.blocks as nat,
                current: self.current as nat,
            },
        }
    }
}

impl Backend {
    /// What holds of every backend: its tables are of one length, and no
    /// count is beyond the number of steps.
    #[verifier::type_invariant]
    pub(crate) closed spec fn inv(&self) -> bool {
        &&& self.params@.len() == self.names@.len()
        &&& self.statuses@.len() == self.names@.len()
        &&& self.bodies@.len() == self.names@.len()
        &&& self.pools@.len() == self.names@.len()
        &&& self.temps <= self.ops@.len()
        &&& self.slots <= self.ops@.len()
        &&& self.blocks <= self.ops@.len()
    }

    /// A backend without functions.
    pub fn new() -> (r: Self)
        ensures
            r@.functions == Seq::<Entry>::empty(),
            r@.builder == Builder::empty(),
    {
        let r = Backend {
            names: Vec::new(),
            params: Vec::new(),
            statuses: Vec::new(),
            bodies: Vec::new(),
            pools: Vec::new(),
            ops: Vec::new(),
            constants: Vec::new(),
            temps: 0,
            slots: 0,
            blocks: 0,
            current: 0,
        };
        assert(r@.builder.constants =~= Seq::<Seq<char>>::empty());
        r
    }

    /// The counts of a backend fit their types, and none is beyond the
    /// number of steps.
    pub(crate) proof fn lemma_counts(&self)
        requires
            self.inv(),
        ensures
            self@.builder.temps <= usize::MAX,
            self@.builder.slots <= usize::MAX,
            self@.builder.blocks <= usize::MAX,
            self@.builder.current <= usize::MAX,
            self@.builder.constants.len() <= usize::MAX,
            self@.builder.ops.len() <= usize::MAX,
            self@.builder.temps <= self@.builder.ops.len(),
            self@.builder.slots <= self@.builder.ops.len(),
            self@.builder.blocks <= self@.builder.ops.len(),
            self@.functions.len() <= usize::MAX,
    {
        assert(self.constants.len() == self.constants@.len());
        assert(self.names.len() == self.names@.len());
        assert(self.ops.len() == self.ops@.len());
    }

    /// Adds a step and leaves the counts as they are.
    fn push(&mut self, op: Op)
        ensures
            final(self)@ == (BackendView { builder: old(self)@.builder.emit(op), ..old(self)@ }),
            final(self).temps == old(self).temps,
            final(self).slots == old(self).slots,
            final(self).blocks == old(self).blocks,
            final(self).current == old(self).current,
            old(self).ops@.len() < final(self).ops@.len() <= usize::MAX,
    {
        let mut taken = Backend::new();
        core::mem::swap(self, &mut taken);
        proof {
            use_type_invariant(&taken);
        }
        let Backend {
            names,
            params,
            statuses,
            bodies,
            pools,
            mut ops,
            constants,
            temps,
            slots,
            blocks,
            current,
        } = taken;
        ops.push(op);
        assert(ops.len() == ops@.len());
        *self = Backend {
            names,
            params,
            statuses,
            bodies,
            pools,
            ops,
            constants,
            temps,
            slots,
            blocks,
            current,
        };
    }

    /// Adds a constant.
    fn push_constant(&mut self, text: String)
        ensures
            final(self)@ == (BackendView { builder: old(self)@.builder.constant(text@), ..old(self)@ }),
    {
        let mut taken = Backend::new();
        core::mem::swap(self, &mut taken);
        proof {
            use_type_invariant(&taken);
        }
        let Backend {
            names,
            params,
            statuses,
            bodies,
            pools,
            ops,
            mut constants,
            temps,
            slots,
            blocks,
            current,
        } = taken;
        let ghost before = constants@;
        constants.push(text);
        assert(string_views(constants@) =~= string_views(before).push(text@));
        *self = Backend {
            names,
            params,
            statuses,
            bodies,
            pools,
            ops,
            constants,
            temps,
            slots,
            blocks,
            current,
        };
    }

    /// Adds an entry to the function table.
    fn push_entry(&mut self, name: String, count: usize)
        ensures
            final(self)@.builder == old(self)@.builder,
            final(self)@.functions == old(self)@.functions.push(
                Entry {
                    name: name@,
                    params: count as nat,
                    status: Status::Declared,
                    ops: Seq::empty(),
                    constants: Seq::empty(),
                },
            ),
    {
        let mut taken = Backend::new();
        core::mem::swap(self, &mut taken);
        proof {
            use_type_invariant(&taken);
        }
        let ghost before = taken@.functions;
        let Backend {
            mut names,
            mut params,
            mut statuses,
            mut bodies,
            mut pools,
            ops,
            constants,
            temps,
            slots,
            blocks,
            current,
        } = taken;
        names.push(name);
        params.push(count);
        statuses.push(Status::Declared);
        bodies.push(Vec::new());
        pools.push(Vec::new());
        *self = Backend {
            names,
            params,
            statuses,
            bodies,
            pools,
            ops,
            constants,
            temps,
            slots,
            blocks,
            current,
        };
        proof {
            assert(string_views(Seq::<String>::empty()) =~= Seq::<Seq<char>>::empty());
            assert(self@.functions =~= before.push(
                Entry {
                    name: name@,
                    params: count as nat,
                    status: Status::Declared,
                    ops: Seq::empty(),
                    constants: Seq::empty(),
                },
            ));
        }
    }

    /// Takes the last entry from the function table.
    fn pop_entry(&mut self)
        requires
            old(self)@.functions.len() > 0,
        ensures
            final(self)@.builder == old(self)@.builder,
            final(self)@.functions == old(self)@.functions.drop_last(),
    {
        let mut taken = Backend::new();
        core::mem::swap(self, &mut taken);
        proof {
            use_type_invariant(&taken);
        }
        let Backend {
            mut names,
            mut params,
            mut statuses,
            mut bodies,
            mut pools,
            ops,
            constants,
            temps,
            slots,
            blocks,
            current,
        } = taken;
        let _ = names.pop();
        let _ = params.pop();
        let _ = statuses.pop();
        let _ = bodies.pop();
        let _ = pools.pop();
        *self = Backend {
            names,
            params,
            statuses,
            bodies,
            pools,
            ops,
            constants,
            temps,
            slots,
            blocks,
            current,
        };
    }

    /// Adds a step that has a result.
    fn push_temp(&mut self, op: Op) -> (r: Value)
        ensures
            final(self)@ == (BackendView { builder: old(self)@.builder.emit_temp(op), ..old(self)@ }),
            r == old(self)@.builder.next_temp(),
            r == Value::Temp(old(self).temps),
    {
        proof {
            use_type_invariant(&*self);
        }
        let dest = self.temps;
        self.push(op);
        proof {
            use_type_invariant(&*self);
        }
        self.temps = self.temps + 1;
        Value::Temp(dest)
    }

    /// The number that the next result will have.
    pub fn next_temp(&self) -> (r: usize)
        ensures
            r == self@.builder.temps,
    {
        proof {
            use_type_invariant(&*self);
        }
        self.temps
    }

    /// The block at whose end instructions are added.
    pub fn current_block(&self) -> (r: usize)
        ensures
            r == self@.builder.current,
    {
        proof {
            use_type_invariant(&*self);
        }
        self.current
    }

    /// Enters a literal among the constants of the function being built.
    pub fn constant(&mut self, text: &str) -> (r: Value)
        ensures
            final(self)@ == (BackendView { builder: old(self)@.builder.constant(text@), ..old(self)@ }),
            r == old(self)@.builder.next_constant(),
    {
        proof {
            use_type_invariant(&*self);
        }
        let index = self.constants.len();
        self.push_constant(String::from_str(text));
        Value::Const(index)
    }

    /// Makes a storage location in the entry block.
    pub fn alloca(&mut self) -> (slot: usize)
        ensures
            final(self)@ == (BackendView { builder: old(self)@.builder.alloca(), ..old(self)@ }),
            slot == old(self)@.builder.slots,
    {
        proof {
            use_type_invariant(&*self);
        }
        let slot = self.slots;
        self.push(Op::Alloca { slot });
        proof {
            use_type_invariant(&*self);
        }
        self.slots = self.slots + 1;
        slot
    }

    /// Reads a storage location.
    pub fn load(&mut self, slot: usize) -> (r: Value)
        ensures
            final(self)@ == (BackendView { builder: old(self)@.builder.load(slot), ..old(self)@ }),
            r == old(self)@.builder.next_temp(),
    {
        proof {
            use_type_invariant(&*self);
        }
        let dest = self.temps;
        self.push_temp(Op::Load { dest, slot })
    }

    /// Writes a storage location.
    pub fn store(&mut self, slot: usize, value: Value)
        ensures
            final(self)@ == (BackendView { builder: old(self)@.builder.store(slot, value), ..old(self)@ }),
    {
        proof {
            use_type_invariant(&*self);
        }
        self.push(Op::Store { slot, value });
    }

    /// Adds an arithmetic instruction.
    pub fn arith(&mut self, op: ArithOp, lhs: Value, rhs: Value) -> (r: Value)
        ensures
            final(self)@ == (BackendView {
                builder: old(self)@.builder.arith(op, lhs, rhs),
                ..old(self)@
            }),
            r == old(self)@.builder.next_temp(),
    {
        proof {
            use_type_invariant(&*self);
        }
        let dest = self.temps;
        self.push_temp(Op::Arith { dest, op, lhs, rhs })
    }

    /// Adds a comparison.
    pub fn compare(&mut self, op: CompareOp, lhs: Value, rhs: Value) -> (r: Value)
        ensures
            final(self)@ == (BackendView {
                builder: old(self)@.builder.compare(op, lhs, rhs),
                ..old(self)@
            }),
            r == old(self)@.builder.next_temp(),
    {
        proof {
            use_type_invariant(&*self);
        }
        let dest = self.temps;
        self.push_temp(Op::Compare { dest, op, lhs, rhs })
    }

    /// Calls the function with the handle `callee` on `args`.
    pub fn call(&mut self, callee: usize, args: &Vec<Value>) -> (r: Value)
        ensures
            final(self)@ == (BackendView { builder: old(self)@.builder.call(callee, args@), ..old(self)@ }),
            r == old(self)@.builder.next_temp(),
    {
        proof {
            use_type_invariant(&*self);
        }
        let mut i: usize = 0;
        while i < args.len()
            invariant
                i <= args.len(),
                self.temps == old(self).temps,
                self@ == (BackendView {
                    builder: Builder {
                        ops: old(self)@.builder.ops + arg_ops(args@).take(i as int),
                        ..old(self)@.builder
                    },
                    ..old(self)@
                }),
            decreases args.len() - i,
        {
            self.push(Op::Arg { value: args[i] });
            assert(arg_ops(args@).take(i + 1) =~= arg_ops(args@).take(i as int).push(
                Op::Arg { value: args@[i as int] },
            ));
            assert(old(self)@.builder.ops + arg_ops(args@).take(i + 1) =~= (old(self)@.builder.ops
                + arg_ops(args@).take(i as int)).push(Op::Arg { value: args@[i as int] }));
            i += 1;
        }
        assert(arg_ops(args@).take(args.len() as int) =~= arg_ops(args@));
        let dest = self.temps;
        self.push_temp(Op::Call { dest, callee, argc: args.len() })
    }

    /// Adds a block to the function being built.
    pub fn open_block(&mut self) -> (block: usize)
        ensures
            final(self)@ == (BackendView { builder: old(self)@.builder.open_block(), ..old(self)@ }),
            block == old(self)@.builder.blocks,
    {
        proof {
            use_type_invariant(&*self);
        }
        let block = self.blocks;
        self.push(Op::Block { block });
        proof {
            use_type_invariant(&*self);
        }
        self.blocks = self.blocks + 1;
        block
    }

    /// Moves the place where instructions are added to the end of `block`.
    pub fn position_at(&mut self, block: usize)
        ensures
            final(self)@ == (BackendView { builder: old(self)@.builder.position_at(block), ..old(self)@ }),
    {
        proof {
            use_type_invariant(&*self);
        }
        self.push(Op::Position { block });
        proof {
            use_type_invariant(&*self);
        }
        self.current = block;
    }

    /// Jumps to `target`.
    pub fn br(&mut self, target: usize)
        ensures
            final(self)@ == (BackendView { builder: old(self)@.builder.br(target), ..old(self)@ }),
    {
        proof {
            use_type_invariant(&*self);
        }
        self.push(Op::Br { target });
    }

    /// Jumps to `then_block` where `cond` is not zero, else to `else_block`.
    pub fn cond_br(&mut self, cond: Value, then_block: usize, else_block: usize)
        ensures
            final(self)@ == (BackendView {
                builder: old(self)@.builder.cond_br(cond, then_block, else_block),
                ..old(self)@
            }),
    {
        proof {
            use_type_invariant(&*self);
        }
        self.push(Op::CondBr { cond, then_block, else_block });
    }

    /// Merges the values that two blocks give.
    pub fn phi(&mut self, first: Value, first_block: usize, second: Value, second_block: usize) -> (r:
        Value)
        ensures
            final(self)@ == (BackendView {
                builder: old(self)@.builder.phi(first, first_block, second, second_block),
                ..old(self)@
            }),
            r == old(self)@.builder.next_temp(),
    {
        proof {
            use_type_invariant(&*self);
        }
        let dest = self.temps;
        self.push_temp(Op::Phi { dest, first, first_block, second, second_block })
    }

    /// Returns `value` from the function.
    pub fn ret(&mut self, value: Value)
        ensures
            final(self)@ == (BackendView { builder: old(self)@.builder.ret(value), ..old(self)@ }),
    {
        proof {
            use_type_invariant(&*self);
        }
        self.push(Op::Ret { value });
    }

    /// The place of the first entry with this name.
    fn position(&self, name: &str) -> (r: Option<usize>)
        ensures
            match r {
                Some(i) => position_from(self@.functions, name@, 0) == Some(i as int) && i
                    < self@.functions.len() && self@.functions[i as int].name == name@,
                None => position_from(self@.functions, name@, 0) is None,
            },
    {
        proof {
            use_type_invariant(&*self);
        }
        let mut i: usize = 0;
        while i < self.names.len()
            invariant
                i <= self.names.len(),
                position_from(self@.functions, name@, 0) == position_from(
                    self@.functions,
                    name@,
                    i as int,
                ),
            decreases self.names.len() - i,
        {
            if same_text(self.names[i].as_str(), name) {
                return Some(i);
            }
            i += 1;
        }
        None
    }

    /// The handle of the function with this name and the number of its
    /// parameters, if the name is declared.
    pub fn get_function(&self, name: &str) -> (r: Option<(usize, usize)>)
        ensures
            match r {
                Some((handle, params)) => function_named(self@.functions, name@) == Some(
                    (handle, params as nat),
                ) && handle < self@.functions.len(),
                None => function_named(self@.functions, name@) is None,
            },
    {
        proof {
            use_type_invariant(&*self);
        }
        match self.position(name) {
            Some(i) => match self.statuses[i] {
                Status::Removed => None,
                _ => Some((i, self.params[i])),
            },
            None => None,
        }
    }

    /// Whether the function with this name has a body.
    pub fn is_defined(&self, name: &str) -> (r: bool)
        ensures
            r == (position_from(self@.functions, name@, 0) matches Some(i)
                && self@.functions[i].status == Status::Defined),
    {
        proof {
            use_type_invariant(&*self);
        }
        match self.position(name) {
            Some(i) => match self.statuses[i] {
                Status::Defined => true,
                _ => false,
            },
            None => false,
        }
    }

    /// Declares a function and hands back its handle and, where the name
    /// had an entry, the number of parameters and the status that the entry
    /// had.
    pub fn declare(&mut self, name: &str, params: usize) -> (r: (usize, Option<(usize, Status)>))
        ensures
            final(self)@.functions == declared(old(self)@.functions, name@, params as nat),
            final(self)@.builder == old(self)@.builder,
            r.0 == handle_of(old(self)@.functions, name@),
            r.0 < final(self)@.functions.len(),
            final(self)@.functions[r.0 as int].name == name@,
            match r.1 {
                Some((count, status)) => position_from(old(self)@.functions, name@, 0) == Some(
                    r.0 as int,
                ) && r.0 < old(self)@.functions.len() && old(self)@.functions[r.0 as int].params
                    == count && old(self)@.functions[r.0 as int].status == status,
                None => position_from(old(self)@.functions, name@, 0) is None && r.0 == old(
                    self,
                )@.functions.len(),
            },
    {
        proof {
            use_type_invariant(&*self);
        }
        match self.position(name) {
            Some(i) => {
                let before = (self.params[i], self.statuses[i]);
                match self.statuses[i] {
                    Status::Defined => {},
                    _ => {
                        self.params[i] = params;
                        self.statuses[i] = Status::Declared;
                    },
                }
                (i, Some(before))
            },
            None => {
                let handle = self.names.len();
                self.push_entry(String::from_str(name), params);
                (handle, None)
            },
        }
    }

    /// Takes a declaration back.
    pub(crate) fn take_back(&mut self, handle: usize, previous: Option<(usize, Status)>)
        requires
            handle < old(self)@.functions.len(),
            previous is None ==> handle == old(self)@.functions.len() - 1,
        ensures
            final(self)@.functions == taken_back(old(self)@.functions, handle as int, previous),
            final(self)@.builder == old(self)@.builder,
    {
        proof {
            use_type_invariant(&*self);
        }
        match previous {
            Some((params, status)) => {
                self.params[handle] = params;
                self.statuses[handle] = status;
            },
            None => {
                self.pop_entry();
            },
        }
    }

    /// Starts a function: nothing but its entry block, where instructions
    /// are added.
    pub fn begin_function(&mut self)
        ensures
            final(self)@.functions == old(self)@.functions,
            final(self)@.builder == Builder::empty().open_block().position_at(0),
    {
        proof {
            use_type_invariant(&*self);
        }
        self.temps = 0;
        self.slots = 0;
        self.blocks = 0;
        self.current = 0;
        self.ops = Vec::new();
        self.constants = Vec::new();
        assert(string_views(self.constants@) =~= Seq::<Seq<char>>::empty());
        let entry = self.open_block();
        self.position_at(entry);
    }

    /// Makes what has been built the body of the function with the handle
    /// `handle`. Nothing is left in the builder.
    pub fn end_function(&mut self, handle: usize)
        requires
            handle < old(self)@.functions.len(),
        ensures
            final(self)@.functions == defined(
                old(self)@.functions,
                handle as int,
                old(self)@.builder,
            ),
            final(self)@.builder == Builder::empty(),
    {
        proof {
            use_type_invariant(&*self);
        }
        let mut ops: Vec<Op> = Vec::new();
        let mut constants: Vec<String> = Vec::new();
        self.temps = 0;
        self.slots = 0;
        self.blocks = 0;
        self.current = 0;
        core::mem::swap(&mut self.ops, &mut ops);
        core::mem::swap(&mut self.constants, &mut constants);
        self.bodies[handle] = ops;
        self.pools[handle] = constants;
        self.statuses[handle] = Status::Defined;
        assert(string_views(self.constants@) =~= Seq::<Seq<char>>::empty());
    }

    /// Takes the body from the function with the handle `handle` and gives
    /// the function the status `status`.
    fn strip(&mut self, handle: usize, status: Status)
        requires
            handle < old(self)@.functions.len(),
        ensures
            final(self)@.functions == undefined(old(self)@.functions, handle as int, status),
            final(self)@.builder == old(self)@.builder,
    {
        proof {
            use_type_invariant(&*self);
        }
        self.bodies[handle] = Vec::new();
        self.pools[handle] = Vec::new();
        self.statuses[handle] = status;
        assert(string_views(Seq::<String>::empty()) =~= Seq::<Seq<char>>::empty());
    }

    /// Whether the body of the function with the handle `handle` is well
    /// formed.
    pub fn verify(&self, handle: usize) -> (r: bool)
        requires
            handle < self@.functions.len(),
        ensures
            r == well_formed(
                self@.functions[handle as int].ops,
                self@.functions[handle as int].params,
                self@.functions[handle as int].constants.len(),
            ),
    {
        proof {
            use_type_invariant(&*self);
        }
        check(&self.bodies[handle], self.params[handle], self.pools[handle].len())
    }

    /// Takes in the verdict of whoever checked the function with the handle
    /// `handle`. A function found malformed loses its body and stays
    /// declared.
    pub fn verified(&mut self, handle: usize, well_formed: bool) -> (r: Result<
        usize,
        BackendError<'static>,
    >)
        requires
            handle < old(self)@.functions.len(),
        ensures
            final(self)@.builder == old(self)@.builder,
            well_formed ==> r == Ok::<usize, BackendError<'static>>(handle) && final(self)@.functions
                == old(self)@.functions,
            !well_formed ==> r is Err && r->Err_0@ == BackendErrorView::FailedToVerifyFunc(
                old(self)@.functions[handle as int].name,
            ) && final(self)@.functions == undefined(
                old(self)@.functions,
                handle as int,
                Status::Declared,
            ),
    {
        proof {
            use_type_invariant(&*self);
        }
        if well_formed {
            Ok(handle)
        } else {
            let name = self.names[handle].clone();
            self.strip(handle, Status::Declared);
            Err(BackendError::FailedToVerifyFunc(name))
        }
    }

    /// Takes the function that wraps a top-level expression out of the
    /// table, if it is there, so that the next one can be defined.
    pub fn delete_top_level_expr(&mut self)
        ensures
            final(self)@.builder == old(self)@.builder,
            final(self)@.functions == without_top_level_expr(old(self)@.functions),
    {
        proof {
            use_type_invariant(&*self);
        }
        match self.position("__anonymous_expr") {
            Some(i) => {
                self.strip(i, Status::Removed);
            },
            None => {},
        }
    }

    /// The instructions of the function being built.
    pub fn building_ops(&self) -> (r: &Vec<Op>)
        ensures
            r@ == self@.builder.ops,
    {
        proof {
            use_type_invariant(&*self);
        }
        &self.ops
    }

    /// The literals of the constants of the function being built.
    pub fn building_constants(&self) -> (r: &Vec<String>)
        ensures
            string_views(r@) == self@.builder.constants,
    {
        proof {
            use_type_invariant(&*self);
        }
        &self.constants
    }

    /// How many entries the function table has.
    pub fn function_count(&self) -> (r: usize)
        ensures
            r == self@.functions.len(),
    {
        proof {
            use_type_invariant(&*self);
        }
        self.names.len()
    }

    /// The name of the function with the handle `handle`.
    pub fn function_name(&self, handle: usize) -> (r: &str)
        requires
            handle < self@.functions.len(),
        ensures
            r@ == self@.functions[handle as int].name,
    {
        proof {
            use_type_invariant(&*self);
        }
        self.names[handle].as_str()
    }

    /// How many parameters the function with the handle `handle` takes.
    pub fn function_params(&self, handle: usize) -> (r: usize)
        requires
            handle < self@.functions.len(),
        ensures
            r == self@.functions[handle as int].params,
    {
        proof {
            use_type_invariant(&*self);
        }
        self.params[handle]
    }

    /// What is known of the function with the handle `handle`.
    pub fn function_status(&self, handle: usize) -> (r: Status)
        requires
            handle < self@.functions.len(),
        ensures
            r == self@.functions[handle as int].status,
    {
        proof {
            use_type_invariant(&*self);
        }
        self.statuses[handle]
    }

    /// The body of the function with the handle `handle`.
    pub fn function_ops(&self, handle: usize) -> (r: &Vec<Op>)
        requires
            handle < self@.functions.len(),
        ensures
            r@ == self@.functions[handle as int].ops,
    {
        proof {
            use_type_invariant(&*self);
        }
        &self.bodies[handle]
    }

    /// The literals of the constants of the function with the handle
    /// `handle`.
    pub fn function_constants(&self, handle: usize) -> (r: &Vec<String>)
        requires
            handle < self@.functions.len(),
        ensures
            string_views(r@) == self@.functions[handle as int].constants,
    {
        proof {
            use_type_invariant(&*self);
        }
        &self.pools[handle]
    }
}

} // verus!
