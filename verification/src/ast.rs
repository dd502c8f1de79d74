//! The syntax tree: expressions, prototypes and function definitions.

use vstd::prelude::*;
use crate::lexer::Ops;

verus! {

/// An expression. Every subtree is owned by its parent.
#[derive(Debug, PartialEq)]
pub enum ASTExpr<'src> {
    /// A numeric literal, as it is written.
    NumberExpr(&'src str),
    VariableExpr(&'src str),
    UnaryExpr { op: Ops, operand: Box<ASTExpr<'src>> },
    BinaryExpr { op: Ops, left: Box<ASTExpr<'src>>, right: Box<ASTExpr<'src>> },
    CallExpr { callee: &'src str, args: Vec<Box<ASTExpr<'src>>> },
    IfExpr {
        cond: Box<ASTExpr<'src>>,
        then_branch: Box<ASTExpr<'src>>,
        else_branch: Box<ASTExpr<'src>>,
    },
    ForLoopExpr {
        varname: &'src str,
        start: Box<ASTExpr<'src>>,
        end: Box<ASTExpr<'src>>,
        step: Box<ASTExpr<'src>>,
        body: Box<ASTExpr<'src>>,
    },
    VarExpr { var_names: Vec<(&'src str, Option<Box<ASTExpr<'src>>>)>, body: Box<ASTExpr<'src>> },
}

/// An expression as a mathematical tree.
pub ghost enum Expr {
    Number(Seq<char>),
    Variable(Seq<char>),
    Unary { op: Ops, operand: Box<Expr> },
    Binary { op: Ops, left: Box<Expr>, right: Box<Expr> },
    Call { callee: Seq<char>, args: Seq<Expr> },
    If { cond: Box<Expr>, then_branch: Box<Expr>, else_branch: Box<Expr> },
    For { varname: Seq<char>, start: Box<Expr>, end: Box<Expr>, step: Box<Expr>, body: Box<Expr> },
    Let { bindings: Seq<(Seq<char>, Option<Expr>)>, body: Box<Expr> },
}

impl<'src> ASTExpr<'src> {
    /// The tree that this expression is.
    pub open spec fn tree(&self) -> Expr
        decreases self,
    {
        match self {
            ASTExpr::NumberExpr(text) => Expr::Number(text@),
            ASTExpr::VariableExpr(name) => Expr::Variable(name@),
            ASTExpr::UnaryExpr { op, operand } => Expr::Unary {
                op: *op,
                operand: Box::new(operand.tree()),
            },
            ASTExpr::BinaryExpr { op, left, right } => Expr::Binary {
                op: *op,
                left: Box::new(left.tree()),
                right: Box::new(right.tree()),
            },
            ASTExpr::CallExpr { callee, args } => Expr::Call {
                callee: callee@,
                args: Seq::new(
                    args@.len(),
                    |i: int|
                        if 0 <= i < args@.len() {
                            args@[i].tree()
                        } else {
                            arbitrary()
                        },
                ),
            },
            ASTExpr::IfExpr { cond, then_branch, else_branch } => Expr::If {
                cond: Box::new(cond.tree()),
                then_branch: Box::new(then_branch.tree()),
                else_branch: Box::new(else_branch.tree()),
            },
            ASTExpr::ForLoopExpr { varname, start, end, step, body } => Expr::For {
                varname: varname@,
                start: Box::new(start.tree()),
                end: Box::new(end.tree()),
                step: Box::new(step.tree()),
                body: Box::new(body.tree()),
            },
            ASTExpr::VarExpr { var_names, body } => Expr::Let {
                bindings: Seq::new(
                    var_names@.len(),
                    |i: int|
                        (
                            var_names@[i].0@,
                            if 0 <= i < var_names@.len() {
                                match var_names@[i].1 {
                                    Some(init) => Some(init.tree()),
                                    None => None,
                                }
                            } else {
                                None
                            },
                        ),
                ),
                body: Box::new(body.tree()),
            },
        }
    }
}

/// The trees of a list of expressions.
pub open spec fn trees<'src>(exprs: Seq<Box<ASTExpr<'src>>>) -> Seq<Expr> {
    Seq::new(exprs.len(), |i: int| exprs[i].tree())
}

/// The bindings of a `var` form as mathematical values.
pub open spec fn bindings_of<'src>(names: Seq<(&'src str, Option<Box<ASTExpr<'src>>>)>) -> Seq<
    (Seq<char>, Option<Expr>),
> {
    Seq::new(
        names.len(),
        |i: int|
            (
                names[i].0@,
                match names[i].1 {
                    Some(init) => Some(init.tree()),
                    None => None,
                },
            ),
    )
}

/// A call's tree holds the trees of its arguments, and a `var` form's tree
/// its bindings.
pub proof fn lemma_tree_of_lists<'src>(e: ASTExpr<'src>)
    ensures
        e matches ASTExpr::CallExpr { callee, args } ==> e.tree() == (Expr::Call {
            callee: callee@,
            args: trees(args@),
        }),
        e matches ASTExpr::VarExpr { var_names, body } ==> e.tree() == (Expr::Let {
            bindings: bindings_of(var_names@),
            body: Box::new(body.tree()),
        }),
{
    match e {
        ASTExpr::CallExpr { callee, args } => {
            assert(e.tree()->Call_args =~= trees(args@));
        },
        ASTExpr::VarExpr { var_names, body } => {
            assert(e.tree()->Let_bindings =~= bindings_of(var_names@));
        },
        _ => {},
    }
}

impl<'src> View for ASTExpr<'src> {
    type V = Expr;

    open spec fn view(&self) -> Expr {
        self.tree()
    }
}

/// The signature of a function or of an operator overload.
#[derive(Debug, PartialEq)]
#[allow(inconsistent_fields)]
pub enum Prototype<'src> {
    FunctionProto { name: &'src str, args: Vec<&'src str> },
    OverloadedUnaryOpProto { operator: Ops, arg: &'src str },
    OverloadedBinaryOpProto { operator: Ops, args: (&'src str, &'src str), precedence: i32 },
}

/// A prototype as a mathematical value.
#[allow(inconsistent_fields)]
pub ghost enum PrototypeView {
    Function { name: Seq<char>, args: Seq<Seq<char>> },
    UnaryOverload { operator: Ops, arg: Seq<char> },
    BinaryOverload { operator: Ops, args: (Seq<char>, Seq<char>), precedence: int },
}

impl PrototypeView {
    /// The name under which the function is declared and looked up: its own
    /// name, or `unary` or `binary` and then the operator's symbol.
    pub open spec fn mangled_name(self) -> Seq<char> {
        match self {
            PrototypeView::Function { name, .. } => name,
            PrototypeView::UnaryOverload { operator, .. } => "unary"@ + seq![operator.symbol()],
            PrototypeView::BinaryOverload { operator, .. } => "binary"@ + seq![operator.symbol()],
        }
    }

    /// The names of the parameters, in order.
    pub open spec fn params(self) -> Seq<Seq<char>> {
        match self {
            PrototypeView::Function { args, .. } => args,
            PrototypeView::UnaryOverload { arg, .. } => seq![arg],
            PrototypeView::BinaryOverload { args, .. } => seq![args.0, args.1],
        }
    }
}

impl<'src> View for Prototype<'src> {
    type V = PrototypeView;

    open spec fn view(&self) -> PrototypeView {
        match self {
            Prototype::FunctionProto { name, args } => PrototypeView::Function {
                name: name@,
                args: Seq::new(args@.len(), |i: int| args@[i]@),
            },
            Prototype::OverloadedUnaryOpProto { operator, arg } => PrototypeView::UnaryOverload {
                operator: *operator,
                arg: arg@,
            },
            Prototype::OverloadedBinaryOpProto { operator, args, precedence } => {
                PrototypeView::BinaryOverload {
                    operator: *operator,
                    args: (args.0@, args.1@),
                    precedence: *precedence as int,
                }
            },
        }
    }
}

impl<'src> Prototype<'src> {
    /// The mangled name.
    pub fn get_name(&self) -> (r: String)
        ensures
            r@ == self@.mangled_name(),
    {
        match self {
            Prototype::FunctionProto { name, .. } => String::from_str(name),
            Prototype::OverloadedUnaryOpProto { operator, .. } => {
                String::from_str("unary").concat(operator.as_str())
            },
            Prototype::OverloadedBinaryOpProto { operator, .. } => {
                String::from_str("binary").concat(operator.as_str())
            },
        }
    }

    /// The names of the parameters, in order.
    pub fn param_names(&self) -> (r: Vec<&'src str>)
        ensures
            r@.len() == self@.params().len(),
            forall|i: int| 0 <= i < r@.len() ==> (#[trigger] r@[i])@ == self@.params()[i],
    {
        match self {
            Prototype::FunctionProto { args, .. } => {
                let mut names: Vec<&'src str> = Vec::new();
                let mut i: usize = 0;
                while i < args.len()
                    invariant
                        i <= args.len(),
                        names@ == args@.take(i as int),
                    decreases args.len() - i,
                {
                    names.push(args[i]);
                    i += 1;
                }
                names
            },
            Prototype::OverloadedUnaryOpProto { arg, .. } => {
                let mut names: Vec<&'src str> = Vec::new();
                names.push(*arg);
                names
            },
            Prototype::OverloadedBinaryOpProto { args, .. } => {
                let mut names: Vec<&'src str> = Vec::new();
                names.push(args.0);
                names.push(args.1);
                names
            },
        }
    }

    /// How many parameters the function takes.
    pub fn get_num_params(&self) -> (r: usize)
        ensures
            r == self@.params().len(),
    {
        match self {
            Prototype::FunctionProto { args, .. } => args.len(),
            Prototype::OverloadedUnaryOpProto { .. } => 1,
            Prototype::OverloadedBinaryOpProto { .. } => 2,
        }
    }
}

/// The name of the function that wraps a top-level expression.
pub open spec fn anonymous_name() -> Seq<char> {
    "__anonymous_expr"@
}

/// A function definition: a prototype and the expression that is its value.
#[derive(Debug, PartialEq)]
pub struct Function<'src> {
    pub proto: Box<Prototype<'src>>,
    pub body: Box<ASTExpr<'src>>,
}

/// A function definition as a mathematical value.
pub ghost struct FunctionView {
    pub proto: PrototypeView,
    pub body: Expr,
}

impl<'src> View for Function<'src> {
    type V = FunctionView;

    open spec fn view(&self) -> FunctionView {
        FunctionView { proto: self.proto@, body: self.body@ }
    }
}

} // verus!
