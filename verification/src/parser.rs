//! The parser: recursive descent over the tokens, with precedence climbing
//! for binary operators against a table that overloads extend.

use vstd::prelude::*;
use crate::ast::{bindings_of, lemma_tree_of_lists, trees, ASTExpr, Expr, Function, FunctionView, Prototype, PrototypeView};
use crate::grammar;
use crate::grammar::{builtin_precedences, precedence_of, ParserErrorView};
use crate::lexer::{first_of, token_view_opt, Ops, Token, TokenView, Tokens};
use crate::text::ceiling_of;

verus! {

/// Why a form could not be parsed.
#[derive(Debug, PartialEq)]
pub enum ParserError<'src> {
    /// A token that cannot stand where it was found.
    UnexpectedToken(Token<'src>),
    /// The input ended inside a form.
    UnexpectedEOI,
    /// The token that should have stood there.
    ExpectedToken(&'static str),
    /// A unary overload needs one parameter.
    BadOverloadedUnaryOp,
    /// A binary overload needs a number for its precedence and two
    /// parameters.
    BadOverloadedBinaryOp,
}

impl<'src> View for ParserError<'src> {
    type V = ParserErrorView;

    open spec fn view(&self) -> ParserErrorView {
        match self {
            ParserError::UnexpectedToken(t) => ParserErrorView::UnexpectedToken(t@),
            ParserError::UnexpectedEOI => ParserErrorView::UnexpectedEOI,
            ParserError::ExpectedToken(what) => ParserErrorView::ExpectedToken(what@),
            ParserError::BadOverloadedUnaryOp => ParserErrorView::BadOverloadedUnaryOp,
            ParserError::BadOverloadedBinaryOp => ParserErrorView::BadOverloadedBinaryOp,
        }
    }
}

/// Where an operator's precedence stands in the table.
pub open spec fn slot(op: Ops) -> int {
    match op {
        Ops::Plus => 0,
        Ops::Minus => 1,
        Ops::Mult => 2,
        Ops::Div => 3,
        Ops::Assign => 4,
        Ops::Neq => 5,
        Ops::Lt => 6,
        Ops::Gt => 7,
        Ops::Modulo => 8,
        Ops::Amp => 9,
        Ops::Pipe => 10,
        Ops::Caret => 11,
        Ops::Colon => 12,
    }
}

/// The precedences of the binary operators. It starts with those of the
/// built-in operators; a binary overload enters or replaces one; none ever
/// leaves.
#[derive(Debug)]
pub struct OperatorTable {
    slots: [Option<i32>; 13],
}

impl View for OperatorTable {
    type V = Map<Ops, int>;

    closed spec fn view(&self) -> Map<Ops, int> {
        Map::new(
            |op: Ops| self.slots@[slot(op)] is Some,
            |op: Ops| self.slots@[slot(op)]->0 as int,
        )
    }
}

fn slot_of(op: Ops) -> (i: usize)
    ensures
        i == slot(op),
        i < 13,
{
    match op {
        Ops::Plus => 0,
        Ops::Minus => 1,
        Ops::Mult => 2,
        Ops::Div => 3,
        Ops::Assign => 4,
        Ops::Neq => 5,
        Ops::Lt => 6,
        Ops::Gt => 7,
        Ops::Modulo => 8,
        Ops::Amp => 9,
        Ops::Pipe => 10,
        Ops::Caret => 11,
        Ops::Colon => 12,
    }
}

impl OperatorTable {
    /// The table of a new session.
    pub fn new() -> (r: Self)
        ensures
            r@ == builtin_precedences(),
    {
        let r = OperatorTable {
            slots: [
                Some(20),
                Some(20),
                Some(40),
                Some(40),
                Some(2),
                Some(50),
                Some(50),
                Some(50),
                None,
                None,
                None,
                None,
                None,
            ],
        };
        r
    }

    /// The precedence of an operator, if it has one.
    pub fn get(&self, op: Ops) -> (r: Option<i32>)
        ensures
            r is Some <==> self@.dom().contains(op),
            r is Some ==> r->0 == self@[op],
    {
        self.slots[slot_of(op)]
    }

    /// Enters the precedence of an operator, in place of the one it had.
    pub fn insert(&mut self, op: Ops, precedence: i32)
        ensures
            final(self)@ == old(self)@.insert(op, precedence as int),
    {
        let i = slot_of(op);
        self.slots[i] = Some(precedence);
    }
}

/// The precedence with which a token binds as an infix operator.
pub fn get_token_precedence(table: &OperatorTable, token: Option<Token>) -> (r: i32)
    ensures
        r == precedence_of(table@, token_view_opt(token)),
{
    match token {
        Some(Token::Operator(op)) => match table.get(op) {
            Some(p) => p,
            None => -1,
        },
        _ => -1,
    }
}

/// The view of the outcome of parsing an expression.
pub open spec fn expr_result<'src>(r: Result<Box<ASTExpr<'src>>, ParserError<'src>>) -> Result<
    Expr,
    ParserErrorView,
> {
    match r {
        Ok(e) => Ok(e@),
        Err(e) => Err(e@),
    }
}

/// The view of the outcome of parsing a prototype.
pub open spec fn prototype_result<'src>(
    r: Result<Box<Prototype<'src>>, ParserError<'src>>,
) -> Result<PrototypeView, ParserErrorView> {
    match r {
        Ok(p) => Ok(p@),
        Err(e) => Err(e@),
    }
}

/// The view of the outcome of parsing a function.
pub open spec fn function_result<'src>(
    r: Result<Box<Function<'src>>, ParserError<'src>>,
) -> Result<FunctionView, ParserErrorView> {
    match r {
        Ok(f) => Ok(f@),
        Err(e) => Err(e@),
    }
}

/// Takes the next token if it is `wanted`, and says whether it did.
fn next_if_is<'src>(tokens: &mut Tokens<'src>, wanted: Token<'static>) -> (taken: bool)
    requires
        wanted is OpenParen || wanted is ClosedParen || wanted is Comma || wanted is In,
    ensures
        taken == (first_of(old(tokens).remaining()) == Some(wanted@)),
        taken ==> final(tokens).remaining() == old(tokens).remaining().skip(1),
        !taken ==> final(tokens).remaining() == old(tokens).remaining(),
{
    let found = match (tokens.peek(), wanted) {
        (Some(Token::OpenParen), Token::OpenParen) => true,
        (Some(Token::ClosedParen), Token::ClosedParen) => true,
        (Some(Token::Comma), Token::Comma) => true,
        (Some(Token::In), Token::In) => true,
        _ => false,
    };
    if found {
        let _ = tokens.next();
    }
    found
}

/// primary ::= identifierexpr | numberexpr | parenexpr | ifexpr | forexpr | varexpr
pub fn parse_primary<'src>(tokens: &mut Tokens<'src>, table: &OperatorTable) -> (r: Result<
    Box<ASTExpr<'src>>,
    ParserError<'src>,
>)
    ensures
        expr_result(r) == grammar::parse_primary(old(tokens).remaining(), table@).result,
        final(tokens).remaining() == grammar::parse_primary(old(tokens).remaining(), table@).rest,
        final(tokens).remaining().len() <= old(tokens).remaining().len(),
        r is Ok ==> final(tokens).remaining().len() < old(tokens).remaining().len(),
    decreases old(tokens).remaining().len(), 2int,
{
    match tokens.peek() {
        Some(Token::Identifier(_)) => parse_identifier_expr(tokens, table),
        Some(Token::Number(_)) => parse_number_expr(tokens),
        Some(Token::OpenParen) => parse_paren_expr(tokens, table),
        Some(Token::If) => parse_if_expr(tokens, table),
        Some(Token::For) => parse_for_loop_expression(tokens, table),
        Some(Token::Var) => parse_var_expression(tokens, table),
        Some(unexpected) => Err(ParserError::UnexpectedToken(unexpected)),
        None => Err(ParserError::UnexpectedEOI),
    }
}

/// numberexpr ::= number
pub fn parse_number_expr<'src>(tokens: &mut Tokens<'src>) -> (r: Result<
    Box<ASTExpr<'src>>,
    ParserError<'src>,
>)
    ensures
        expr_result(r) == grammar::parse_number_expr(old(tokens).remaining()).result,
        final(tokens).remaining() == grammar::parse_number_expr(old(tokens).remaining()).rest,
        final(tokens).remaining().len() <= old(tokens).remaining().len(),
        r is Ok ==> final(tokens).remaining().len() < old(tokens).remaining().len(),
{
    match tokens.next() {
        Some(Token::Number(text)) => Ok(Box::new(ASTExpr::NumberExpr(text))),
        Some(unexpected) => Err(ParserError::UnexpectedToken(unexpected)),
        None => Err(ParserError::UnexpectedEOI),
    }
}

/// identifierexpr ::= identifier | identifier '(' (expression (',' expression)*)? ')'
pub fn parse_identifier_expr<'src>(tokens: &mut Tokens<'src>, table: &OperatorTable) -> (r: Result<
    Box<ASTExpr<'src>>,
    ParserError<'src>,
>)
    ensures
        expr_result(r) == grammar::parse_identifier_expr(old(tokens).remaining(), table@).result,
        final(tokens).remaining() == grammar::parse_identifier_expr(
            old(tokens).remaining(),
            table@,
        ).rest,
        final(tokens).remaining().len() <= old(tokens).remaining().len(),
        r is Ok ==> final(tokens).remaining().len() < old(tokens).remaining().len(),
    decreases old(tokens).remaining().len(), 1int,
{
    let ghost ts = tokens.remaining();
    let name = match tokens.next() {
        Some(Token::Identifier(name)) => name,
        Some(unexpected) => {
            return Err(ParserError::UnexpectedToken(unexpected));
        },
        None => {
            return Err(ParserError::UnexpectedEOI);
        },
    };
    if !next_if_is(tokens, Token::OpenParen) {
        return Ok(Box::new(ASTExpr::VariableExpr(name)));
    }
    assert(ts.skip(1).skip(1) =~= ts.skip(2));
    let mut args: Vec<Box<ASTExpr<'src>>> = Vec::new();
    if next_if_is(tokens, Token::ClosedParen) {
        let call = ASTExpr::CallExpr { callee: name, args };
        proof {
            lemma_tree_of_lists(call);
            assert(ts.skip(2).skip(1) =~= ts.skip(3));
            assert(trees(args@) =~= Seq::<Expr>::empty());
        }
        return Ok(Box::new(call));
    }
    assert(trees(args@) =~= Seq::<Expr>::empty());
    loop
        invariant
            tokens.remaining().len() < ts.len(),
            ts == old(tokens).remaining(),
            grammar::parse_call_args(tokens.remaining(), table@, name@, trees(args@))
                == grammar::parse_identifier_expr(ts, table@),
        decreases tokens.remaining().len(),
    {
        let ghost before = trees(args@);
        match parse_expression(tokens, table) {
            Err(e) => {
                return Err(e);
            },
            Ok(arg) => {
                args.push(arg);
                assert(trees(args@) =~= before.push(arg@));
            },
        }
        match tokens.next() {
            Some(Token::ClosedParen) => {
                let call = ASTExpr::CallExpr { callee: name, args };
                proof {
                    lemma_tree_of_lists(call);
                }
                return Ok(Box::new(call));
            },
            Some(Token::Comma) => {},
            Some(unexpected) => {
                return Err(ParserError::UnexpectedToken(unexpected));
            },
            None => {
                return Err(ParserError::UnexpectedEOI);
            },
        }
    }
}

/// parenexpr ::= '(' expression ')'
pub fn parse_paren_expr<'src>(tokens: &mut Tokens<'src>, table: &OperatorTable) -> (r: Result<
    Box<ASTExpr<'src>>,
    ParserError<'src>,
>)
    ensures
        expr_result(r) == grammar::parse_paren_expr(old(tokens).remaining(), table@).result,
        final(tokens).remaining() == grammar::parse_paren_expr(old(tokens).remaining(), table@).rest,
        final(tokens).remaining().len() <= old(tokens).remaining().len(),
        r is Ok ==> final(tokens).remaining().len() < old(tokens).remaining().len(),
    decreases old(tokens).remaining().len(), 1int,
{
    if tokens.next().is_none() {
        return Err(ParserError::UnexpectedEOI);
    }
    let inner = match parse_expression(tokens, table) {
        Ok(e) => e,
        Err(e) => {
            return Err(e);
        },
    };
    match tokens.next() {
        Some(Token::ClosedParen) => Ok(inner),
        Some(unexpected) => Err(ParserError::UnexpectedToken(unexpected)),
        None => Err(ParserError::UnexpectedEOI),
    }
}

/// ifexpr ::= 'if' expression 'then' expression 'else' expression
pub fn parse_if_expr<'src>(tokens: &mut Tokens<'src>, table: &OperatorTable) -> (r: Result<
    Box<ASTExpr<'src>>,
    ParserError<'src>,
>)
    ensures
        expr_result(r) == grammar::parse_if_expr(old(tokens).remaining(), table@).result,
        final(tokens).remaining() == grammar::parse_if_expr(old(tokens).remaining(), table@).rest,
        final(tokens).remaining().len() <= old(tokens).remaining().len(),
        r is Ok ==> final(tokens).remaining().len() < old(tokens).remaining().len(),
    decreases old(tokens).remaining().len(), 1int,
{
    match tokens.next() {
        Some(Token::If) => {},
        _ => {
            return Err(ParserError::ExpectedToken("if"));
        },
    }
    let cond = match parse_expression(tokens, table) {
        Ok(e) => e,
        Err(e) => {
            return Err(e);
        },
    };
    match tokens.next() {
        Some(Token::Then) => {},
        _ => {
            return Err(ParserError::ExpectedToken("then"));
        },
    }
    let then_branch = match parse_expression(tokens, table) {
        Ok(e) => e,
        Err(e) => {
            return Err(e);
        },
    };
    match tokens.next() {
        Some(Token::Else) => {},
        _ => {
            return Err(ParserError::ExpectedToken("else"));
        },
    }
    let else_branch = match parse_expression(tokens, table) {
        Ok(e) => e,
        Err(e) => {
            return Err(e);
        },
    };
    Ok(Box::new(ASTExpr::IfExpr { cond, then_branch, else_branch }))
}

/// forexpr ::= 'for' identifier '=' expression ',' expression (',' expression)? 'in' expression
pub fn parse_for_loop_expression<'src>(tokens: &mut Tokens<'src>, table: &OperatorTable) -> (r:
    Result<Box<ASTExpr<'src>>, ParserError<'src>>)
    ensures
        expr_result(r) == grammar::parse_for_loop_expression(
            old(tokens).remaining(),
            table@,
        ).result,
        final(tokens).remaining() == grammar::parse_for_loop_expression(
            old(tokens).remaining(),
            table@,
        ).rest,
        final(tokens).remaining().len() <= old(tokens).remaining().len(),
        r is Ok ==> final(tokens).remaining().len() < old(tokens).remaining().len(),
    decreases old(tokens).remaining().len(), 1int,
{
    let ghost ts = tokens.remaining();
    match tokens.next() {
        Some(Token::For) => {},
        _ => {
            return Err(ParserError::ExpectedToken("for"));
        },
    }
    let varname = match tokens.next() {
        Some(Token::Identifier(name)) => name,
        _ => {
            return Err(ParserError::ExpectedToken("variable"));
        },
    };
    assert(ts.skip(1).skip(1) =~= ts.skip(2));
    match tokens.next() {
        Some(Token::Operator(Ops::Assign)) => {},
        _ => {
            return Err(ParserError::ExpectedToken("="));
        },
    }
    assert(ts.skip(2).skip(1) =~= ts.skip(3));
    let start = match parse_expression(tokens, table) {
        Ok(e) => e,
        Err(e) => {
            return Err(e);
        },
    };
    match tokens.next() {
        Some(Token::Comma) => {},
        _ => {
            return Err(ParserError::ExpectedToken(","));
        },
    }
    let end = match parse_expression(tokens, table) {
        Ok(e) => e,
        Err(e) => {
            return Err(e);
        },
    };
    let ghost at_step = tokens.remaining();
    let step = if next_if_is(tokens, Token::Comma) {
        match parse_expression(tokens, table) {
            Ok(e) => e,
            Err(e) => {
                return Err(e);
            },
        }
    } else {
        Box::new(ASTExpr::NumberExpr("1.0"))
    };
    let ghost spec_step = if first_of(at_step) == Some(TokenView::Comma) {
            grammar::parse_expression(at_step.skip(1), table@)
        } else {
            grammar::done(grammar::default_step(), at_step)
        };
    assert(spec_step.result == Ok::<Expr, ParserErrorView>(step@));
    match tokens.next() {
        Some(Token::In) => {},
        _ => {
            return Err(ParserError::ExpectedToken("in"));
        },
    }
    let body = match parse_expression(tokens, table) {
        Ok(e) => e,
        Err(e) => {
            return Err(e);
        },
    };
    Ok(Box::new(ASTExpr::ForLoopExpr { varname, start, end, step, body }))
}

/// varexpr ::= 'var' identifier ('=' expression)? (',' identifier ('=' expression)?)* 'in' expression
pub fn parse_var_expression<'src>(tokens: &mut Tokens<'src>, table: &OperatorTable) -> (r: Result<
    Box<ASTExpr<'src>>,
    ParserError<'src>,
>)
    ensures
        expr_result(r) == grammar::parse_var_expression(old(tokens).remaining(), table@).result,
        final(tokens).remaining() == grammar::parse_var_expression(
            old(tokens).remaining(),
            table@,
        ).rest,
        final(tokens).remaining().len() <= old(tokens).remaining().len(),
        r is Ok ==> final(tokens).remaining().len() < old(tokens).remaining().len(),
    decreases old(tokens).remaining().len(), 1int,
{
    let ghost ts = tokens.remaining();
    if tokens.next().is_none() {
        return Err(ParserError::ExpectedToken("<identifier>"));
    }
    let mut var_names: Vec<(&'src str, Option<Box<ASTExpr<'src>>>)> = Vec::new();
    assert(bindings_of(var_names@) =~= Seq::<(Seq<char>, Option<Expr>)>::empty());
    loop
        invariant_except_break
            grammar::parse_var_bindings(tokens.remaining(), table@, bindings_of(var_names@))
                == grammar::parse_var_bindings(ts.skip(1), table@, Seq::empty()),
        invariant
            tokens.remaining().len() < ts.len(),
            ts == old(tokens).remaining(),
            ts.len() > 0,
        ensures
            grammar::parse_var_bindings(ts.skip(1), table@, Seq::empty()) == grammar::done(
                bindings_of(var_names@),
                tokens.remaining(),
            ),
        decreases tokens.remaining().len(),
    {
        let ghost here = tokens.remaining();
        let ghost before = bindings_of(var_names@);
        let name = match tokens.next() {
            Some(Token::Identifier(name)) => name,
            _ => {
                return Err(ParserError::ExpectedToken("<identifier>"));
            },
        };
        let assigned = match tokens.peek() {
            Some(Token::Operator(Ops::Assign)) => true,
            _ => false,
        };
        if assigned {
            let _ = tokens.next();
            assert(here.skip(1).skip(1) =~= here.skip(2));
            match parse_expression(tokens, table) {
                Ok(init) => {
                    var_names.push((name, Some(init)));
                    assert(bindings_of(var_names@) =~= before.push((name@, Some(init@))));
                },
                Err(e) => {
                    return Err(e);
                },
            }
        } else {
            var_names.push((name, None));
            assert(bindings_of(var_names@) =~= before.push((name@, None)));
        }
        if !next_if_is(tokens, Token::Comma) {
            break;
        }
    }
    if !next_if_is(tokens, Token::In) {
        return Err(ParserError::ExpectedToken("in"));
    }
    let body = match parse_expression(tokens, table) {
        Ok(e) => e,
        Err(e) => {
            return Err(e);
        },
    };
    let form = ASTExpr::VarExpr { var_names, body };
    proof {
        lemma_tree_of_lists(form);
    }
    Ok(Box::new(form))
}

/// unary ::= operator unary | primary
pub fn parse_unary<'src>(tokens: &mut Tokens<'src>, table: &OperatorTable) -> (r: Result<
    Box<ASTExpr<'src>>,
    ParserError<'src>,
>)
    ensures
        expr_result(r) == grammar::parse_unary(old(tokens).remaining(), table@).result,
        final(tokens).remaining() == grammar::parse_unary(old(tokens).remaining(), table@).rest,
        final(tokens).remaining().len() <= old(tokens).remaining().len(),
        r is Ok ==> final(tokens).remaining().len() < old(tokens).remaining().len(),
    decreases old(tokens).remaining().len(), 3int,
{
    match tokens.peek() {
        Some(Token::Operator(op)) => {
            let _ = tokens.next();
            match parse_unary(tokens, table) {
                Ok(operand) => Ok(Box::new(ASTExpr::UnaryExpr { op, operand })),
                Err(e) => Err(e),
            }
        },
        _ => parse_primary(tokens, table),
    }
}

/// expression ::= unary binoprhs
pub fn parse_expression<'src>(tokens: &mut Tokens<'src>, table: &OperatorTable) -> (r: Result<
    Box<ASTExpr<'src>>,
    ParserError<'src>,
>)
    ensures
        expr_result(r) == grammar::parse_expression(old(tokens).remaining(), table@).result,
        final(tokens).remaining() == grammar::parse_expression(old(tokens).remaining(), table@).rest,
        final(tokens).remaining().len() <= old(tokens).remaining().len(),
        r is Ok ==> final(tokens).remaining().len() < old(tokens).remaining().len(),
    decreases old(tokens).remaining().len(), 4int,
{
    match parse_unary(tokens, table) {
        Ok(lhs) => parse_binop_rhs(tokens, table, lhs, 0),
        Err(e) => Err(e),
    }
}

/// binoprhs ::= (operator unary)*
pub fn parse_binop_rhs<'src>(
    tokens: &mut Tokens<'src>,
    table: &OperatorTable,
    lhs: Box<ASTExpr<'src>>,
    min_precedence: i64,
) -> (r: Result<Box<ASTExpr<'src>>, ParserError<'src>>)
    ensures
        expr_result(r) == grammar::parse_binop_rhs(
            old(tokens).remaining(),
            table@,
            lhs@,
            min_precedence as int,
        ).result,
        final(tokens).remaining() == grammar::parse_binop_rhs(
            old(tokens).remaining(),
            table@,
            lhs@,
            min_precedence as int,
        ).rest,
        final(tokens).remaining().len() <= old(tokens).remaining().len(),
    decreases old(tokens).remaining().len(), 6int,
{
    let mut left = lhs;
    loop
        invariant
            tokens.remaining().len() <= old(tokens).remaining().len(),
            grammar::parse_binop_rhs(tokens.remaining(), table@, left@, min_precedence as int)
                == grammar::parse_binop_rhs(
                old(tokens).remaining(),
                table@,
                lhs@,
                min_precedence as int,
            ),
        decreases tokens.remaining().len(),
    {
        let next = tokens.peek();
        let tok_prec: i64 = get_token_precedence(table, next) as i64;
        if tok_prec < min_precedence {
            return Ok(left);
        }
        let op = match next {
            Some(Token::Operator(op)) => op,
            _ => {
                return Ok(left);
            },
        };
        let _ = tokens.next();
        let rhs = match parse_unary(tokens, table) {
            Ok(e) => e,
            Err(e) => {
                return Err(e);
            },
        };
        let next_prec: i64 = get_token_precedence(table, tokens.peek()) as i64;
        let right = if tok_prec < next_prec {
            match parse_binop_rhs(tokens, table, rhs, tok_prec + 1) {
                Ok(e) => e,
                Err(e) => {
                    return Err(e);
                },
            }
        } else {
            rhs
        };
        left = Box::new(ASTExpr::BinaryExpr { op, left, right });
    }
}

/// prototype ::= identifier '(' identifier* ')'
///             | 'unary' operator '(' identifier ')'
///             | 'binary' operator number '(' identifier identifier ')'
///
/// A binary overload enters its precedence into the table before its
/// parameters are read.
pub fn parse_prototype<'src>(tokens: &mut Tokens<'src>, table: &mut OperatorTable) -> (r: Result<
    Box<Prototype<'src>>,
    ParserError<'src>,
>)
    ensures
        prototype_result(r) == grammar::parse_prototype(
            old(tokens).remaining(),
            old(table)@,
        ).parsed.result,
        final(tokens).remaining() == grammar::parse_prototype(
            old(tokens).remaining(),
            old(table)@,
        ).parsed.rest,
        final(table)@ == grammar::parse_prototype(old(tokens).remaining(), old(table)@).table,
        final(tokens).remaining().len() <= old(tokens).remaining().len(),
        old(tokens).remaining().len() > 0 ==> final(tokens).remaining().len() < old(
            tokens,
        ).remaining().len(),
{
    match tokens.next() {
        Some(Token::Identifier(name)) => parse_function_prototype(tokens, name),
        Some(Token::UnaryOverload) => parse_unary_prototype(tokens),
        Some(Token::BinaryOverload) => parse_binary_prototype(tokens, table),
        Some(unexpected) => Err(ParserError::UnexpectedToken(unexpected)),
        None => Err(ParserError::UnexpectedEOI),
    }
}

/// What follows the name in the prototype of a named function.
fn parse_function_prototype<'src>(tokens: &mut Tokens<'src>, name: &'src str) -> (r: Result<
    Box<Prototype<'src>>,
    ParserError<'src>,
>)
    ensures
        prototype_result(r) == grammar::parse_function_prototype(
            old(tokens).remaining(),
            name@,
        ).result,
        final(tokens).remaining() == grammar::parse_function_prototype(
            old(tokens).remaining(),
            name@,
        ).rest,
        final(tokens).remaining().len() <= old(tokens).remaining().len(),
{
    let ghost ts = tokens.remaining();
    if !next_if_is(tokens, Token::OpenParen) {
        return Err(ParserError::ExpectedToken("("));
    }
    let mut args: Vec<&'src str> = Vec::new();
    loop
        invariant
            ts == old(tokens).remaining(),
            ts.len() > 0,
            1 + args.len() <= ts.len(),
            tokens.remaining() == ts.skip(1 + args.len()),
            grammar::leading_names(ts.skip(1)) == args.len() + grammar::leading_names(
                tokens.remaining(),
            ),
            forall|i: int| 0 <= i < args.len() ==> (#[trigger] args@[i])@ == grammar::name_of(ts[1 + i]),
        ensures
            grammar::leading_names(ts.skip(1)) == args.len(),
        decreases tokens.remaining().len(),
    {
        match tokens.peek() {
            Some(Token::Identifier(arg)) => {
                let _ = tokens.next();
                args.push(arg);
            },
            _ => {
                break;
            },
        }
    }
    if !next_if_is(tokens, Token::ClosedParen) {
        return Err(ParserError::ExpectedToken(")"));
    }
    let proto = Prototype::FunctionProto { name, args };
    assert(proto@->Function_args =~= Seq::new(
        grammar::leading_names(ts.skip(1)),
        |i: int| grammar::name_of(ts[1 + i]),
    ));
    Ok(Box::new(proto))
}

/// What follows `unary` in the prototype of a unary overload.
fn parse_unary_prototype<'src>(tokens: &mut Tokens<'src>) -> (r: Result<
    Box<Prototype<'src>>,
    ParserError<'src>,
>)
    ensures
        prototype_result(r) == grammar::parse_unary_prototype(old(tokens).remaining()).result,
        final(tokens).remaining() == grammar::parse_unary_prototype(old(tokens).remaining()).rest,
        final(tokens).remaining().len() <= old(tokens).remaining().len(),
{
    let operator = match tokens.next() {
        Some(Token::Operator(op)) => op,
        _ => {
            return Err(ParserError::ExpectedToken("!/&/|/^/:"));
        },
    };
    if !next_if_is(tokens, Token::OpenParen) {
        return Err(ParserError::ExpectedToken("("));
    }
    let arg = match tokens.next() {
        Some(Token::Identifier(arg)) => arg,
        _ => {
            return Err(ParserError::BadOverloadedUnaryOp);
        },
    };
    if !next_if_is(tokens, Token::ClosedParen) {
        return Err(ParserError::ExpectedToken(")"));
    }
    Ok(Box::new(Prototype::OverloadedUnaryOpProto { operator, arg }))
}

/// What follows `binary` in the prototype of a binary overload.
fn parse_binary_prototype<'src>(tokens: &mut Tokens<'src>, table: &mut OperatorTable) -> (r: Result<
    Box<Prototype<'src>>,
    ParserError<'src>,
>)
    ensures
        prototype_result(r) == grammar::parse_binary_prototype(
            old(tokens).remaining(),
            old(table)@,
        ).parsed.result,
        final(tokens).remaining() == grammar::parse_binary_prototype(
            old(tokens).remaining(),
            old(table)@,
        ).parsed.rest,
        final(table)@ == grammar::parse_binary_prototype(old(tokens).remaining(), old(table)@).table,
        final(tokens).remaining().len() <= old(tokens).remaining().len(),
{
    let operator = match tokens.next() {
        Some(Token::Operator(op)) => op,
        _ => {
            return Err(ParserError::ExpectedToken("!/&/|/^/:"));
        },
    };
    let precedence = match tokens.next() {
        Some(Token::Number(text)) => ceiling_of(text),
        _ => {
            return Err(ParserError::BadOverloadedBinaryOp);
        },
    };
    table.insert(operator, precedence);
    if !next_if_is(tokens, Token::OpenParen) {
        return Err(ParserError::ExpectedToken("("));
    }
    let first = tokens.next();
    let second = tokens.next();
    let (lhs, rhs) = match (first, second) {
        (Some(Token::Identifier(lhs)), Some(Token::Identifier(rhs))) => (lhs, rhs),
        _ => {
            return Err(ParserError::BadOverloadedBinaryOp);
        },
    };
    if !next_if_is(tokens, Token::ClosedParen) {
        return Err(ParserError::ExpectedToken(")"));
    }
    Ok(Box::new(Prototype::OverloadedBinaryOpProto { operator, args: (lhs, rhs), precedence }))
}

/// external ::= 'extern' prototype
pub fn parse_extern<'src>(tokens: &mut Tokens<'src>, table: &mut OperatorTable) -> (r: Result<
    Box<Prototype<'src>>,
    ParserError<'src>,
>)
    ensures
        prototype_result(r) == grammar::parse_extern(
            old(tokens).remaining(),
            old(table)@,
        ).parsed.result,
        final(tokens).remaining() == grammar::parse_extern(
            old(tokens).remaining(),
            old(table)@,
        ).parsed.rest,
        final(table)@ == grammar::parse_extern(old(tokens).remaining(), old(table)@).table,
        final(tokens).remaining().len() <= old(tokens).remaining().len(),
        old(tokens).remaining().len() > 0 ==> final(tokens).remaining().len() < old(
            tokens,
        ).remaining().len(),
{
    let _ = tokens.next();
    parse_prototype(tokens, table)
}

/// definition ::= 'def' prototype expression
pub fn parse_definition<'src>(tokens: &mut Tokens<'src>, table: &mut OperatorTable) -> (r: Result<
    Box<Function<'src>>,
    ParserError<'src>,
>)
    ensures
        function_result(r) == grammar::parse_definition(
            old(tokens).remaining(),
            old(table)@,
        ).parsed.result,
        final(tokens).remaining() == grammar::parse_definition(
            old(tokens).remaining(),
            old(table)@,
        ).parsed.rest,
        final(table)@ == grammar::parse_definition(old(tokens).remaining(), old(table)@).table,
        final(tokens).remaining().len() <= old(tokens).remaining().len(),
        old(tokens).remaining().len() > 0 ==> final(tokens).remaining().len() < old(
            tokens,
        ).remaining().len(),
{
    let _ = tokens.next();
    let proto = match parse_prototype(tokens, table) {
        Ok(p) => p,
        Err(e) => {
            return Err(e);
        },
    };
    let body = match parse_expression(tokens, table) {
        Ok(e) => e,
        Err(e) => {
            return Err(e);
        },
    };
    Ok(Box::new(Function { proto, body }))
}

/// toplevelexpr ::= expression
pub fn parse_top_level_expr<'src>(tokens: &mut Tokens<'src>, table: &OperatorTable) -> (r: Result<
    Box<Function<'src>>,
    ParserError<'src>,
>)
    ensures
        function_result(r) == grammar::parse_top_level_expr(old(tokens).remaining(), table@).result,
        final(tokens).remaining() == grammar::parse_top_level_expr(
            old(tokens).remaining(),
            table@,
        ).rest,
        final(tokens).remaining().len() <= old(tokens).remaining().len(),
        r is Ok ==> final(tokens).remaining().len() < old(tokens).remaining().len(),
{
    let body = match parse_expression(tokens, table) {
        Ok(e) => e,
        Err(e) => {
            return Err(e);
        },
    };
    let proto = Prototype::FunctionProto { name: "__anonymous_expr", args: Vec::new() };
    assert(proto@->Function_args =~= Seq::<Seq<char>>::empty());
    Ok(Box::new(Function { proto: Box::new(proto), body }))
}

} // verus!
