//! Lowering: from syntax trees to the instructions of a backend.

use vstd::prelude::*;
use crate::ast::{lemma_tree_of_lists, trees, ASTExpr, Expr, Function, Prototype};
use crate::backend::{declared, handle_of, Backend, BackendError, BackendErrorView, Status};
use crate::ir::{ArithOp, CompareOp, Value};
use crate::lexer::Ops;
use crate::lowering::{apply, bind_params, define, entry, lower, lower_args, lower_let};
use crate::scope::Scope;
use crate::shape::well_formed;
use crate::sound::lemma_body_well_formed;

verus! {

/// The view of the outcome of lowering an expression.
pub open spec fn value_result<'src>(r: Result<Value, BackendError<'src>>) -> Result<
    Value,
    BackendErrorView,
> {
    match r {
        Ok(v) => Ok(v),
        Err(e) => Err(e@),
    }
}

/// The handle of the function that overloads an operator, if there is one.
fn overload(backend: &Backend, prefix: &'static str, op: Ops) -> (r: Option<usize>)
    ensures
        r == match crate::backend::function_named(backend@.functions, prefix@ + seq![op.symbol()]) {
            Some((handle, _)) => Some(handle),
            None => None,
        },
{
    let name = String::from_str(prefix).concat(op.as_str());
    match backend.get_function(name.as_str()) {
        Some((handle, _)) => Some(handle),
        None => None,
    }
}

/// Applies a binary operator other than assignment to two values.
fn apply_operator<'src>(op: Ops, lhs: Value, rhs: Value, backend: &mut Backend) -> (r: Result<
    Value,
    BackendError<'src>,
>)
    ensures
        final(backend)@.functions == old(backend)@.functions,
        value_result(r) == apply(
            op,
            lhs,
            rhs,
            old(backend)@.builder,
            old(backend)@.functions,
        ).result,
        final(backend)@.builder == apply(
            op,
            lhs,
            rhs,
            old(backend)@.builder,
            old(backend)@.functions,
        ).builder,
{
    match op {
        Ops::Plus => Ok(backend.arith(ArithOp::Add, lhs, rhs)),
        Ops::Minus => Ok(backend.arith(ArithOp::Sub, lhs, rhs)),
        Ops::Mult => Ok(backend.arith(ArithOp::Mul, lhs, rhs)),
        Ops::Div => Ok(backend.arith(ArithOp::Div, lhs, rhs)),
        Ops::Neq => Ok(backend.compare(CompareOp::NotEqual, lhs, rhs)),
        Ops::Lt => Ok(backend.compare(CompareOp::Less, lhs, rhs)),
        Ops::Gt => Ok(backend.compare(CompareOp::Greater, lhs, rhs)),
        _ => match overload(backend, "binary", op) {
            None => Err(BackendError::UndefinedOperator(op)),
            Some(callee) => {
                let mut args: Vec<Value> = Vec::new();
                args.push(lhs);
                args.push(rhs);
                assert(args@ =~= seq![lhs, rhs]);
                Ok(backend.call(callee, &args))
            },
        },
    }
}

impl<'src> ASTExpr<'src> {
    /// Lowers the expression into the function that `backend` is building
    /// and hands back its value. The scope is left as it was found.
    pub fn codegen(&self, scope: &mut Scope, backend: &mut Backend) -> (r: Result<
        Value,
        BackendError<'src>,
    >)
        ensures
            final(scope)@ == old(scope)@,
            final(backend)@.functions == old(backend)@.functions,
            value_result(r) == lower(
                self@,
                old(backend)@.builder,
                old(scope)@,
                old(backend)@.functions,
            ).result,
            final(backend)@.builder == lower(
                self@,
                old(backend)@.builder,
                old(scope)@,
                old(backend)@.functions,
            ).builder,
        decreases self, 1int, 0int,
    {
        proof {
            use_type_invariant(&*backend);
            backend.lemma_counts();
        }
        match self {
            ASTExpr::NumberExpr(text) => Ok(backend.constant(text)),
            ASTExpr::VariableExpr(name) => match scope.lookup(name) {
                Some(slot) => Ok(backend.load(slot)),
                None => Err(BackendError::UnknownVariable(name)),
            },
            ASTExpr::UnaryExpr { op, operand } => match overload(backend, "unary", *op) {
                None => Err(BackendError::UndefinedOperator(*op)),
                Some(callee) => match operand.codegen(scope, backend) {
                    Err(e) => Err(e),
                    Ok(value) => {
                        let mut args: Vec<Value> = Vec::new();
                        args.push(value);
                        Ok(backend.call(callee, &args))
                    },
                },
            },
            ASTExpr::BinaryExpr { op, left, right } => match *op {
                Ops::Assign => match &**left {
                    ASTExpr::VariableExpr(name) => match right.codegen(scope, backend) {
                        Err(e) => Err(e),
                        Ok(value) => match scope.lookup(name) {
                            Some(slot) => {
                                backend.store(slot, value);
                                Ok(value)
                            },
                            None => Err(BackendError::UnknownVariable(name)),
                        },
                    },
                    _ => Err(BackendError::BadAssignment),
                },
                _ => match left.codegen(scope, backend) {
                    Err(e) => Err(e),
                    Ok(lhs) => match right.codegen(scope, backend) {
                        Err(e) => Err(e),
                        Ok(rhs) => apply_operator(*op, lhs, rhs, backend),
                    },
                },
            },
            ASTExpr::CallExpr { callee, args } => {
                proof {
                    lemma_tree_of_lists(*self);
                }
                let (handle, params) = match backend.get_function(callee) {
                    None => {
                        return Err(BackendError::UndefinedFunction(callee));
                    },
                    Some(found) => found,
                };
                if params != args.len() {
                    return Err(
                        BackendError::IncorrectNumberOfArgs { func_name: callee, param_cnt: params },
                    );
                }
                let mut values: Vec<Value> = Vec::new();
                let mut i: usize = 0;
                while i < args.len()
                    invariant
                        i <= args.len(),
                        scope@ == old(scope)@,
                        backend@.functions == old(backend)@.functions,
                        self matches ASTExpr::CallExpr { args: a, .. } && a == args,
                        self@ == (Expr::Call { callee: callee@, args: trees(args@) }),
                        crate::backend::function_named(old(backend)@.functions, callee@) == Some(
                            (handle, params as nat),
                        ),
                        params == args.len(),
                        lower_args(
                            trees(args@),
                            i as int,
                            values@,
                            backend@.builder,
                            scope@,
                            backend@.functions,
                        ) == lower_args(
                            trees(args@),
                            0,
                            Seq::empty(),
                            old(backend)@.builder,
                            old(scope)@,
                            old(backend)@.functions,
                        ),
                    decreases args.len() - i,
                {
                    match args[i].codegen(scope, backend) {
                        Err(e) => {
                            return Err(e);
                        },
                        Ok(value) => {
                            values.push(value);
                        },
                    }
                    i += 1;
                }
                Ok(backend.call(handle, &values))
            },
            ASTExpr::IfExpr { cond, then_branch, else_branch } => {
                let condition = match cond.codegen(scope, backend) {
                    Err(e) => {
                        return Err(e);
                    },
                    Ok(v) => v,
                };
                proof {
                    use_type_invariant(&*backend);
            backend.lemma_counts();
                }
                let then_block = backend.open_block();
                let else_block = backend.open_block();
                let merge_block = backend.open_block();
                backend.cond_br(condition, then_block, else_block);
                backend.position_at(then_block);
                let then_value = match then_branch.codegen(scope, backend) {
                    Err(e) => {
                        return Err(e);
                    },
                    Ok(v) => v,
                };
                let then_end = backend.current_block();
                backend.br(merge_block);
                backend.position_at(else_block);
                let else_value = match else_branch.codegen(scope, backend) {
                    Err(e) => {
                        return Err(e);
                    },
                    Ok(v) => v,
                };
                let else_end = backend.current_block();
                backend.br(merge_block);
                backend.position_at(merge_block);
                Ok(backend.phi(then_value, then_end, else_value, else_end))
            },
            ASTExpr::ForLoopExpr { varname, start, end, step, body } => {
                let slot = backend.alloca();
                let first = match start.codegen(scope, backend) {
                    Err(e) => {
                        return Err(e);
                    },
                    Ok(v) => v,
                };
                proof {
                    use_type_invariant(&*backend);
            backend.lemma_counts();
                }
                backend.store(slot, first);
                let loop_block = backend.open_block();
                backend.br(loop_block);
                backend.position_at(loop_block);
                let shadowed = scope.insert(varname, slot);
                let looped = self.codegen_loop(slot, loop_block, scope, backend);
                scope.restore(varname, shadowed);
                looped
            },
            ASTExpr::VarExpr { .. } => self.codegen_let(0, scope, backend),
        }
    }

    /// Lowers what a loop runs each time round: its body, the step, the
    /// update of its variable and the test for another round.
    fn codegen_loop(&self, slot: usize, loop_block: usize, scope: &mut Scope, backend: &mut Backend) -> (r:
        Result<Value, BackendError<'src>>)
        requires
            self is ForLoopExpr,
        ensures
            final(scope)@ == old(scope)@,
            final(backend)@.functions == old(backend)@.functions,
            value_result(r) == crate::lowering::lower_loop(
                self@,
                slot,
                loop_block,
                old(backend)@.builder,
                old(scope)@,
                old(backend)@.functions,
            ).result,
            final(backend)@.builder == crate::lowering::lower_loop(
                self@,
                slot,
                loop_block,
                old(backend)@.builder,
                old(scope)@,
                old(backend)@.functions,
            ).builder,
        decreases self, 0int, 0int,
    {
        match self {
            ASTExpr::ForLoopExpr { varname, start, end, step, body } => {
                match body.codegen(scope, backend) {
                    Err(e) => {
                        return Err(e);
                    },
                    Ok(_) => {},
                }
                let by = match step.codegen(scope, backend) {
                    Err(e) => {
                        return Err(e);
                    },
                    Ok(v) => v,
                };
                let current = backend.load(slot);
                let next = backend.arith(ArithOp::Add, current, by);
                backend.store(slot, next);
                let again = match end.codegen(scope, backend) {
                    Err(e) => {
                        return Err(e);
                    },
                    Ok(v) => v,
                };
                proof {
                    use_type_invariant(&*backend);
            backend.lemma_counts();
                }
                let after_block = backend.open_block();
                backend.cond_br(again, loop_block, after_block);
                backend.position_at(after_block);
                Ok(backend.constant("0.0"))
            },
            _ => unreached(),
        }
    }

    /// Lowers a `var` form from its `i`-th binding on.
    fn codegen_let(&self, i: usize, scope: &mut Scope, backend: &mut Backend) -> (r: Result<
        Value,
        BackendError<'src>,
    >)
        requires
            self is VarExpr,
        ensures
            final(scope)@ == old(scope)@,
            final(backend)@.functions == old(backend)@.functions,
            value_result(r) == lower_let(
                self@,
                i as int,
                old(backend)@.builder,
                old(scope)@,
                old(backend)@.functions,
            ).result,
            final(backend)@.builder == lower_let(
                self@,
                i as int,
                old(backend)@.builder,
                old(scope)@,
                old(backend)@.functions,
            ).builder,
        decreases self, 0int, self->var_names.len() - i,
    {
        proof {
            lemma_tree_of_lists(*self);
            use_type_invariant(&*backend);
            backend.lemma_counts();
        }
        match self {
            ASTExpr::VarExpr { var_names, body } => {
                if i >= var_names.len() {
                    return body.codegen(scope, backend);
                }
                let name = var_names[i].0;
                let value = match &var_names[i].1 {
                    Some(init) => match init.codegen(scope, backend) {
                        Err(e) => {
                            return Err(e);
                        },
                        Ok(v) => v,
                    },
                    None => backend.constant("0.0"),
                };
                proof {
                    use_type_invariant(&*backend);
            backend.lemma_counts();
                }
                let slot = backend.alloca();
                backend.store(slot, value);
                let shadowed = scope.insert(name, slot);
                let r = self.codegen_let(i + 1, scope, backend);
                scope.restore(name, shadowed);
                r
            },
            _ => unreached(),
        }
    }
}

/// The view of the outcome of lowering a prototype or a function.
pub open spec fn handle_result<'src>(r: Result<usize, BackendError<'src>>) -> Result<
    usize,
    BackendErrorView,
> {
    match r {
        Ok(handle) => Ok(handle),
        Err(e) => Err(e@),
    }
}

impl<'src> Prototype<'src> {
    /// Declares the function under its mangled name and hands back its
    /// handle.
    pub fn codegen(&self, backend: &mut Backend) -> (r: Result<usize, BackendError<'src>>)
        ensures
            r is Ok,
            r->Ok_0 == handle_of(old(backend)@.functions, self@.mangled_name()),
            final(backend)@.functions == declared(
                old(backend)@.functions,
                self@.mangled_name(),
                self@.params().len(),
            ),
            final(backend)@.builder == old(backend)@.builder,
    {
        let name = self.get_name();
        let (handle, _) = backend.declare(name.as_str(), self.get_num_params());
        Ok(handle)
    }
}

impl<'src> Function<'src> {
    /// Lowers the definition and hands back the handle of the function.
    pub fn codegen(&self, scope: &mut Scope, backend: &mut Backend) -> (r: Result<
        usize,
        BackendError<'src>,
    >)
        ensures
            handle_result(r) == define(
                self@,
                old(backend)@.functions,
                old(backend)@.builder,
                old(scope)@,
            ).result,
            final(backend)@.functions == define(
                self@,
                old(backend)@.functions,
                old(backend)@.builder,
                old(scope)@,
            ).functions,
            final(backend)@.builder == define(
                self@,
                old(backend)@.functions,
                old(backend)@.builder,
                old(scope)@,
            ).builder,
            final(scope)@ == define(
                self@,
                old(backend)@.functions,
                old(backend)@.builder,
                old(scope)@,
            ).scope,
            r is Ok ==> r->Ok_0 < final(backend)@.functions.len(),
            r is Ok ==> final(backend)@.functions[r->Ok_0 as int].name == self@.proto.mangled_name(),
            r is Ok ==> final(backend)@.functions[r->Ok_0 as int].params
                == self@.proto.params().len(),
            r is Ok ==> final(backend)@.functions[r->Ok_0 as int].status == Status::Defined,
            r is Ok ==> well_formed(
                final(backend)@.functions[r->Ok_0 as int].ops,
                self@.proto.params().len(),
                final(backend)@.functions[r->Ok_0 as int].constants.len(),
            ),
    {
        let name = self.proto.get_name();
        if backend.is_defined(name.as_str()) {
            return Err(BackendError::MultipleFunctionDefs(name));
        }
        let params = self.proto.param_names();
        let (handle, previous) = backend.declare(name.as_str(), params.len());
        let ghost table = backend@.functions;
        backend.begin_function();
        scope.clear();
        let mut i: usize = 0;
        while i < params.len()
            invariant
                i <= params.len(),
                backend@.functions == table,
                params@.len() == self@.proto.params().len(),
                forall|k: int| 0 <= k < params@.len() ==> (#[trigger] params@[k])@
                    == self@.proto.params()[k],
                bind_params(self@.proto.params(), i as int, backend@.builder, scope@) == entry(
                    self@.proto.params(),
                ),
            decreases params.len() - i,
        {
            let slot = backend.alloca();
            backend.store(slot, Value::Param(i));
            let _ = scope.insert(params[i], slot);
            i += 1;
        }
        match self.body.codegen(scope, backend) {
            Err(e) => {
                backend.take_back(handle, previous);
                proof {
                    match previous {
                        Some((count, status)) => {},
                        None => {},
                    }
                }
                Err(e)
            },
            Ok(value) => {
                backend.ret(value);
                proof {
                    use_type_invariant(&*backend);
            backend.lemma_counts();
                    lemma_body_well_formed(self@.proto.params(), self@.body, table);
                }
                backend.end_function(handle);
                Ok(handle)
            },
        }
    }
}

} // verus!
