//! Reading a module's source text into statements, and printing it back with
//! rewritten specifiers, by the oxc parser and code generator.

use crate::syntax::{body_view, Arg, Expr, Stmt, StmtView};
use vstd::prelude::*;

verus! {

/// `oxc_allocator::Allocator`, the arena that a syntax tree lives in.
#[verifier::external_type_specification]
#[verifier::external_body]
pub struct ExAllocator(oxc_allocator::Allocator);

/// `oxc_ast::ast::Argument`, an argument of a call in the syntax tree.
#[verifier::external_type_specification]
#[verifier::external_body]
pub struct ExArgument<'a>(oxc_ast::ast::Argument<'a>);

/// `oxc_ast::ast::Expression`, an expression in the syntax tree.
#[verifier::external_type_specification]
#[verifier::external_body]
pub struct ExExpression<'a>(oxc_ast::ast::Expression<'a>);

/// `oxc_ast::ast::Statement`, a statement in the syntax tree.
#[verifier::external_type_specification]
#[verifier::external_body]
pub struct ExStatement<'a>(oxc_ast::ast::Statement<'a>);

/// The statements that the parser reads from `source`, the text of the file
/// `path`; `None` where the path has no known extension or the text
/// has syntax errors.
pub uninterp spec fn parsed_module(source: Seq<char>, path: Seq<char>) -> Option<Seq<StmtView>>;

/// What the library reads of an `oxc_ast::ast::Argument`: whether it is a
/// string literal, and then its value. Nothing is claimed of the result.
#[verifier::external_body]
fn read_argument(a: &oxc_ast::ast::Argument<'_>) -> Arg {
    match a {
        oxc_ast::ast::Argument::StringLiteral(s) => Arg::StringLiteral(s.value.to_string()),
        _ => Arg::Other,
    }
}

/// What the library reads of an `oxc_ast::ast::Expression`: whether it is a
/// call, and then the name of a plain identifier as its target and its
/// arguments. Nothing is claimed of the result.
#[verifier::external_body]
fn read_expression(e: &oxc_ast::ast::Expression<'_>) -> Expr {
    match e {
        oxc_ast::ast::Expression::CallExpression(c) => Expr::Call {
            callee: match &c.callee {
                oxc_ast::ast::Expression::Identifier(id) => Some(id.name.to_string()),
                _ => None,
            },
            arguments: c.arguments.iter().map(read_argument).collect(),
        },
        _ => Expr::Other,
    }
}

/// What the library reads of an `oxc_ast::ast::Statement`: the initializers
/// of a variable declaration, the expression of an expression statement.
/// Nothing is claimed of the result.
#[verifier::external_body]
fn read_statement(s: &oxc_ast::ast::Statement<'_>) -> Stmt {
    match s {
        oxc_ast::ast::Statement::VariableDeclaration(v) => Stmt::VariableDeclaration(
            v.declarations.iter().map(|d| d.init.as_ref().map(read_expression)).collect(),
        ),
        oxc_ast::ast::Statement::ExpressionStatement(e) => Stmt::ExpressionStatement(
            read_expression(&e.expression),
        ),
        _ => Stmt::Other,
    }
}

/// `oxc_parser::Parser::parse` on `source`, with the source type that
/// `oxc_span::SourceType::from_path` derives from `path`. The contract names
/// what was read; nothing is claimed of what the parser makes of a text.
#[verifier::external_body]
fn parse_source(source: &str, path: &str) -> (r: Option<Vec<Stmt>>)
    ensures
        match r {
            Some(body) => parsed_module(source@, path@) == Some(body_view(body@)),
            None => parsed_module(source@, path@).is_none(),
        },
{
    let allocator = oxc_allocator::Allocator::default();
    let source_type = oxc_span::SourceType::from_path(path).ok()?;
    let options = oxc_parser::ParseOptions {
        parse_regular_expression: true,
        ..oxc_parser::ParseOptions::default()
    };
    let parsed = oxc_parser::Parser::new(&allocator, source, source_type).with_options(options).parse();
    if parsed.panicked || parsed.diagnostics.has_errors() {
        return None;
    }
    Some(parsed.program.body.iter().map(read_statement).collect())
}

/// Parses the text of a module into its top-level statements.
pub fn parse_module(source: &str, path: &str) -> (r: Option<Vec<Stmt>>)
    ensures
        match r {
            Some(body) => parsed_module(source@, path@) == Some(body_view(body@)),
            None => parsed_module(source@, path@).is_none(),
        },
{
    parse_source(source, path)
}

/// The text that the code generator prints for the module `source` of the
/// file `path`, minified, after the string literals of `body` have been
/// written over those of the parsed module; `None` where `parsed_module` is.
pub uninterp spec fn printed_module(
    source: Seq<char>,
    path: Seq<char>,
    body: Seq<StmtView>,
) -> Option<Seq<char>>;

/// Gives a string literal of the tree the text that `m` holds, as value and
/// as raw form (`oxc_allocator::FromIn::from_in` makes the text). Nothing is
/// claimed of the tree afterwards.
#[verifier::external_body]
fn write_argument<'a>(
    a: &mut oxc_ast::ast::Argument<'a>,
    m: &Arg,
    allocator: &'a oxc_allocator::Allocator,
) {
    if let (oxc_ast::ast::Argument::StringLiteral(s), Arg::StringLiteral(text)) = (a, m) {
        s.value = oxc_allocator::FromIn::from_in(text.as_str(), allocator);
        s.raw = Some(oxc_allocator::FromIn::from_in(text.as_str(), allocator));
    }
}

/// Writes the arguments of `m` over those of a call of the tree.
#[verifier::external_body]
fn write_expression<'a>(
    e: &mut oxc_ast::ast::Expression<'a>,
    m: &Expr,
    allocator: &'a oxc_allocator::Allocator,
) {
    if let (oxc_ast::ast::Expression::CallExpression(c), Expr::Call { arguments, .. }) = (e, m) {
        for (a, m) in c.arguments.iter_mut().zip(arguments.iter()) {
            write_argument(a, m, allocator);
        }
    }
}

/// Writes the expressions of `m` over those of a statement of the tree.
#[verifier::external_body]
fn write_statement<'a>(
    s: &mut oxc_ast::ast::Statement<'a>,
    m: &Stmt,
    allocator: &'a oxc_allocator::Allocator,
) {
    match (s, m) {
        (oxc_ast::ast::Statement::VariableDeclaration(v), Stmt::VariableDeclaration(slots)) => {
            for (d, slot) in v.declarations.iter_mut().zip(slots.iter()) {
                if let (Some(e), Some(m)) = (&mut d.init, slot) {
                    write_expression(e, m, allocator);
                }
            }
        },
        (oxc_ast::ast::Statement::ExpressionStatement(e), Stmt::ExpressionStatement(m)) => {
            write_expression(&mut e.expression, m, allocator)
        },
        _ => {},
    }
}

/// `oxc_codegen::Codegen::build`, minifying, on the tree that
/// `oxc_parser::Parser::parse` gives for `source`, with the literals of
/// `body` written into it. The contract names the text, and claims that
/// printing fails on the inputs on which parsing does, and on no others.
#[verifier::external_body]
fn print_source(source: &str, path: &str, body: &Vec<Stmt>) -> (r: Option<String>)
    ensures
        match r {
            Some(text) => printed_module(source@, path@, body_view(body@)) == Some(text@),
            None => printed_module(source@, path@, body_view(body@)).is_none(),
        },
        r.is_some() == parsed_module(source@, path@).is_some(),
{
    let allocator = oxc_allocator::Allocator::default();
    let source_type = oxc_span::SourceType::from_path(path).ok()?;
    let options = oxc_parser::ParseOptions {
        parse_regular_expression: true,
        ..oxc_parser::ParseOptions::default()
    };
    let mut parsed = oxc_parser::Parser::new(&allocator, source, source_type).with_options(options).parse();
    if parsed.panicked || parsed.diagnostics.has_errors() {
        return None;
    }
    for (s, m) in parsed.program.body.iter_mut().zip(body.iter()) {
        write_statement(s, m, &allocator);
    }
    let options = oxc_codegen::CodegenOptions { minify: true, ..Default::default() };
    Some(oxc_codegen::Codegen::new().with_options(options).build(&parsed.program).code)
}

/// Prints the module `source` with the string literals that `body` holds:
/// the rewritten module, where `body` is what `rewrite` made of the
/// statements that `parse_module` read from `source`. It fails exactly where
/// `parse_module` does.
pub fn print_module(source: &str, path: &str, body: &Vec<Stmt>) -> (r: Option<String>)
    ensures
        match r {
            Some(text) => printed_module(source@, path@, body_view(body@)) == Some(text@),
            None => printed_module(source@, path@, body_view(body@)).is_none(),
        },
        r.is_some() == parsed_module(source@, path@).is_some(),
{
    print_source(source, path, body)
}

} // verus!
