//! The top level: one form after the other, each parsed and lowered, with
//! a token dropped after a form that does not parse so that the next step
//! gets further.

use vstd::prelude::*;
use crate::ast::{Function, FunctionView, Prototype, PrototypeView};
use crate::backend::{
    declared, without_top_level_expr, Backend, BackendError, BackendErrorView, Builder, Entry,
};
use crate::grammar;
use crate::grammar::{after, ParserErrorView};
use crate::lexer::{first_of, Lex, Ops, Token, TokenView, Tokens};
use crate::lowering::define;
use crate::parser::{
    parse_definition, parse_extern, parse_top_level_expr, OperatorTable, ParserError,
};
use crate::scope::Scope;

verus! {

/// What one step at the top level found.
#[derive(Debug, PartialEq)]
pub enum TopLevel<'src> {
    /// A function definition.
    Definition(Box<Function<'src>>),
    /// The declaration of a function defined elsewhere.
    Extern(Box<Prototype<'src>>),
    /// An expression, wrapped in a function without a name of its own.
    Expression(Box<Function<'src>>),
    /// A semicolon, which was passed over.
    Separator,
    /// A form that did not parse. One more token was dropped.
    Failed(ParserError<'src>),
}

/// What one step at the top level found, as a mathematical value.
pub ghost enum TopLevelView {
    Definition(FunctionView),
    Extern(PrototypeView),
    Expression(FunctionView),
    Separator,
    Failed(ParserErrorView),
}

impl<'src> View for TopLevel<'src> {
    type V = TopLevelView;

    open spec fn view(&self) -> TopLevelView {
        match self {
            TopLevel::Definition(f) => TopLevelView::Definition(f@),
            TopLevel::Extern(p) => TopLevelView::Extern(p@),
            TopLevel::Expression(f) => TopLevelView::Expression(f@),
            TopLevel::Separator => TopLevelView::Separator,
            TopLevel::Failed(e) => TopLevelView::Failed(e@),
        }
    }
}

/// The outcome of one step: the form, or nothing at the end of the input;
/// the tokens that are left, and the operator table.
pub ghost struct Step {
    pub form: Option<TopLevelView>,
    pub rest: Seq<TokenView>,
    pub table: Map<Ops, int>,
}

/// One step at the top level. The first token decides what is parsed: a
/// definition after `def`, a declaration after `extern`, nothing at a
/// semicolon, and else an expression. After a form that does not parse,
/// the token at which the parser stopped is dropped.
pub open spec fn top_level(ts: Seq<TokenView>, table: Map<Ops, int>) -> Step {
    match first_of(ts) {
        None => Step { form: None, rest: ts, table },
        Some(TokenView::FuncDef) => {
            let d = grammar::parse_definition(ts, table);
            match d.parsed.result {
                Ok(f) => Step {
                    form: Some(TopLevelView::Definition(f)),
                    rest: d.parsed.rest,
                    table: d.table,
                },
                Err(e) => Step {
                    form: Some(TopLevelView::Failed(e)),
                    rest: after(d.parsed.rest),
                    table: d.table,
                },
            }
        },
        Some(TokenView::Extern) => {
            let d = grammar::parse_extern(ts, table);
            match d.parsed.result {
                Ok(p) => Step {
                    form: Some(TopLevelView::Extern(p)),
                    rest: d.parsed.rest,
                    table: d.table,
                },
                Err(e) => Step {
                    form: Some(TopLevelView::Failed(e)),
                    rest: after(d.parsed.rest),
                    table: d.table,
                },
            }
        },
        Some(TokenView::Semicolon) => Step {
            form: Some(TopLevelView::Separator),
            rest: ts.skip(1),
            table,
        },
        Some(_) => {
            let d = grammar::parse_top_level_expr(ts, table);
            match d.result {
                Ok(f) => Step { form: Some(TopLevelView::Expression(f)), rest: d.rest, table },
                Err(e) => Step { form: Some(TopLevelView::Failed(e)), rest: after(d.rest), table },
            }
        },
    }
}

/// The view of what a step found.
pub open spec fn form_view<'src>(form: Option<TopLevel<'src>>) -> Option<TopLevelView> {
    match form {
        Some(f) => Some(f@),
        None => None,
    }
}

/// Takes one step at the top level. Every step on tokens that are not used
/// up takes at least one of them.
pub fn parse_top_level<'src>(tokens: &mut Tokens<'src>, table: &mut OperatorTable) -> (form: Option<
    TopLevel<'src>,
>)
    ensures
        form_view(form) == top_level(old(tokens).remaining(), old(table)@).form,
        final(tokens).remaining() == top_level(old(tokens).remaining(), old(table)@).rest,
        final(table)@ == top_level(old(tokens).remaining(), old(table)@).table,
        form is None <==> old(tokens).remaining().len() == 0,
        form is Some ==> final(tokens).remaining().len() < old(tokens).remaining().len(),
{
    match tokens.peek() {
        None => None,
        Some(Token::FuncDef) => match parse_definition(tokens, table) {
            Ok(f) => Some(TopLevel::Definition(f)),
            Err(e) => {
                let _ = tokens.next();
                Some(TopLevel::Failed(e))
            },
        },
        Some(Token::Extern) => match parse_extern(tokens, table) {
            Ok(p) => Some(TopLevel::Extern(p)),
            Err(e) => {
                let _ = tokens.next();
                Some(TopLevel::Failed(e))
            },
        },
        Some(Token::Semicolon) => {
            let _ = tokens.next();
            Some(TopLevel::Separator)
        },
        Some(_) => match parse_top_level_expr(tokens, table) {
            Ok(f) => Some(TopLevel::Expression(f)),
            Err(e) => {
                let _ = tokens.next();
                Some(TopLevel::Failed(e))
            },
        },
    }
}

/// The outcome of lowering a form: the handle of the function that was
/// declared or defined, if one was, or an error; and the function table,
/// the builder and the scope after it.
pub ghost struct LoweredForm {
    pub result: Result<Option<usize>, BackendErrorView>,
    pub functions: Seq<Entry>,
    pub builder: Builder,
    pub scope: Map<Seq<char>, nat>,
}

/// The outcome of a definition as that of a form.
pub open spec fn defined_form(d: crate::lowering::Defined) -> LoweredForm {
    LoweredForm {
        result: match d.result {
            Ok(handle) => Ok(Some(handle)),
            Err(e) => Err(e),
        },
        functions: d.functions,
        builder: d.builder,
        scope: d.scope,
    }
}

/// Lowers what a step found. A definition is defined and a declaration
/// declared. An expression is defined too, once the function that wrapped
/// the expression before it has been taken out of the table, so that any
/// number of expressions can follow one another. A semicolon and a form
/// that did not parse leave everything as it is.
pub open spec fn lower_form(
    form: TopLevelView,
    functions: Seq<Entry>,
    b: Builder,
    scope: Map<Seq<char>, nat>,
) -> LoweredForm {
    match form {
        TopLevelView::Definition(f) => defined_form(define(f, functions, b, scope)),
        TopLevelView::Expression(f) => defined_form(
            define(f, without_top_level_expr(functions), b, scope),
        ),
        TopLevelView::Extern(p) => LoweredForm {
            result: Ok(Some(crate::backend::handle_of(functions, p.mangled_name()) as usize)),
            functions: declared(functions, p.mangled_name(), p.params().len()),
            builder: b,
            scope,
        },
        _ => LoweredForm { result: Ok(None), functions, builder: b, scope },
    }
}

/// The view of the outcome of lowering a form.
pub open spec fn form_result<'src>(r: Result<Option<usize>, BackendError<'src>>) -> Result<
    Option<usize>,
    BackendErrorView,
> {
    match r {
        Ok(handle) => Ok(handle),
        Err(e) => Err(e@),
    }
}

impl<'src> TopLevel<'src> {
    /// Lowers the form.
    pub fn codegen(&self, scope: &mut Scope, backend: &mut Backend) -> (r: Result<
        Option<usize>,
        BackendError<'src>,
    >)
        ensures
            form_result(r) == lower_form(
                self@,
                old(backend)@.functions,
                old(backend)@.builder,
                old(scope)@,
            ).result,
            final(backend)@.functions == lower_form(
                self@,
                old(backend)@.functions,
                old(backend)@.builder,
                old(scope)@,
            ).functions,
            final(backend)@.builder == lower_form(
                self@,
                old(backend)@.functions,
                old(backend)@.builder,
                old(scope)@,
            ).builder,
            final(scope)@ == lower_form(
                self@,
                old(backend)@.functions,
                old(backend)@.builder,
                old(scope)@,
            ).scope,
    {
        match self {
            TopLevel::Definition(f) => match f.codegen(scope, backend) {
                Ok(handle) => Ok(Some(handle)),
                Err(e) => Err(e),
            },
            TopLevel::Expression(f) => {
                backend.delete_top_level_expr();
                match f.codegen(scope, backend) {
                    Ok(handle) => Ok(Some(handle)),
                    Err(e) => Err(e),
                }
            },
            TopLevel::Extern(p) => match p.codegen(backend) {
                Ok(handle) => Ok(Some(handle)),
                Err(e) => Err(e),
            },
            _ => Ok(None),
        }
    }
}

/// The outcome of compiling a source: the parse errors that were passed
/// over, the error at which lowering stopped, if it did; and the state
/// after it.
pub ghost struct Compiled {
    pub errors: Seq<ParserErrorView>,
    pub failure: Option<BackendErrorView>,
    pub table: Map<Ops, int>,
    pub functions: Seq<Entry>,
    pub builder: Builder,
    pub scope: Map<Seq<char>, nat>,
}

/// Compiles the forms that `ts` holds, one step after the other. A form
/// that does not parse is noted in `errors` and passed over; the first form
/// that cannot be lowered ends the compilation, and the parse errors noted
/// until then are kept.
pub open spec fn compile_tokens(
    ts: Seq<TokenView>,
    errors: Seq<ParserErrorView>,
    table: Map<Ops, int>,
    functions: Seq<Entry>,
    b: Builder,
    scope: Map<Seq<char>, nat>,
) -> Compiled
    decreases ts.len(),
{
    let step = top_level(ts, table);
    match step.form {
        None => Compiled { errors, failure: None, table, functions, builder: b, scope },
        Some(form) => {
            let l = lower_form(form, functions, b, scope);
            match l.result {
                Err(e) => Compiled {
                    errors,
                    failure: Some(e),
                    table: step.table,
                    functions: l.functions,
                    builder: l.builder,
                    scope: l.scope,
                },
                Ok(_) => if step.rest.len() < ts.len() {
                    compile_tokens(
                        step.rest,
                        match form {
                            TopLevelView::Failed(e) => errors.push(e),
                            _ => errors,
                        },
                        step.table,
                        l.functions,
                        l.builder,
                        l.scope,
                    )
                } else {
                    Compiled {
                        errors,
                        failure: None,
                        table: step.table,
                        functions: l.functions,
                        builder: l.builder,
                        scope: l.scope,
                    }
                },
            }
        },
    }
}

/// The views of a list of parse errors.
pub open spec fn error_views<'src>(errors: Seq<ParserError<'src>>) -> Seq<ParserErrorView> {
    Seq::new(errors.len(), |i: int| errors[i]@)
}

/// The view of an error that may be absent.
pub open spec fn failure_view<'src>(failure: Option<BackendError<'src>>) -> Option<
    BackendErrorView,
> {
    match failure {
        Some(e) => Some(e@),
        None => None,
    }
}

/// What a compilation came to.
#[derive(Debug, PartialEq)]
pub struct Compilation<'src> {
    /// The parse errors that were passed over, in the order of the source.
    pub errors: Vec<ParserError<'src>>,
    /// The error at which lowering stopped, if it did.
    pub failure: Option<BackendError<'src>>,
}

/// Compiles a source text into `backend`: every form is parsed and
/// lowered in turn. Hands back the parse errors that were passed over and
/// the error at which lowering stopped, if it did.
pub fn compile_src<'src>(
    source: &'src str,
    table: &mut OperatorTable,
    scope: &mut Scope,
    backend: &mut Backend,
) -> (r: Compilation<'src>)
    ensures
        error_views(r.errors@) == compile_tokens(
            crate::lexer::tokens_of(source@),
            Seq::empty(),
            old(table)@,
            old(backend)@.functions,
            old(backend)@.builder,
            old(scope)@,
        ).errors,
        failure_view(r.failure) == compile_tokens(
            crate::lexer::tokens_of(source@),
            Seq::empty(),
            old(table)@,
            old(backend)@.functions,
            old(backend)@.builder,
            old(scope)@,
        ).failure,
        final(table)@ == compile_tokens(
            crate::lexer::tokens_of(source@),
            Seq::empty(),
            old(table)@,
            old(backend)@.functions,
            old(backend)@.builder,
            old(scope)@,
        ).table,
        final(backend)@.functions == compile_tokens(
            crate::lexer::tokens_of(source@),
            Seq::empty(),
            old(table)@,
            old(backend)@.functions,
            old(backend)@.builder,
            old(scope)@,
        ).functions,
        final(backend)@.builder == compile_tokens(
            crate::lexer::tokens_of(source@),
            Seq::empty(),
            old(table)@,
            old(backend)@.functions,
            old(backend)@.builder,
            old(scope)@,
        ).builder,
        final(scope)@ == compile_tokens(
            crate::lexer::tokens_of(source@),
            Seq::empty(),
            old(table)@,
            old(backend)@.functions,
            old(backend)@.builder,
            old(scope)@,
        ).scope,
{
    let mut tokens = source.lex();
    let mut errors: Vec<ParserError<'src>> = Vec::new();
    assert(error_views(errors@) =~= Seq::<ParserErrorView>::empty());
    loop
        invariant
            compile_tokens(
                tokens.remaining(),
                error_views(errors@),
                table@,
                backend@.functions,
                backend@.builder,
                scope@,
            ) == compile_tokens(
                crate::lexer::tokens_of(source@),
                Seq::empty(),
                old(table)@,
                old(backend)@.functions,
                old(backend)@.builder,
                old(scope)@,
            ),
        decreases tokens.remaining().len(),
    {
        let ghost before = error_views(errors@);
        let form = match parse_top_level(&mut tokens, table) {
            None => {
                return Compilation { errors, failure: None };
            },
            Some(form) => form,
        };
        match form.codegen(scope, backend) {
            Err(e) => {
                return Compilation { errors, failure: Some(e) };
            },
            Ok(_) => {},
        }
        match form {
            TopLevel::Failed(e) => {
                errors.push(e);
                assert(error_views(errors@) =~= before.push(e@));
            },
            _ => {},
        }
    }
}

} // verus!
