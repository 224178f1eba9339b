//! Lowering: statements and expressions become build steps.
use crate::compiler::codegen::basic::assignment::{lower_assignment, lowered_assignment};
use crate::compiler::codegen::basic::foreign_module::{
    lower_foreign_module, lowered_foreign_module,
};
use crate::compiler::codegen::basic::function_definition::{
    lower_function_definition, lowered_function_definition,
};
use crate::compiler::codegen::basic::return_statement::{lower_return, lowered_return};
use crate::compiler::codegen::control_flow::if_statement::{
    lower_if_statement, lowered_if_statement,
};
use crate::compiler::codegen::expr::{lower_expr, lowered_expr};
use crate::compiler::codegen::looping::for_loop::{lower_for_loop, lowered_for_loop};
use crate::compiler::codegen::looping::while_loop::{lower_while_loop, lowered_while_loop};
use crate::compiler::codegen::scope::{resolve, Binding, Scopes};
use crate::compiler::codegen::value::{LowerError, Value};
use crate::compiler::module::Scalar;
use crate::compiler::{agrees, Compiler, CompilerModel, Lowered};
use crate::parser::ast::{statements_view, Statement, StatementModel, Type, TypeModel};
use vstd::prelude::*;

pub mod basic;
pub mod control_flow;
pub mod expr;
pub mod looping;
pub mod order;
pub mod scope;
pub mod scoping;
pub mod value;

verus! {

broadcast use crate::parser::ast::group_statements;

/// What `identifier` is bound to, innermost frame first. Fails with
/// [`LowerError::UnknownVariable`] exactly where no frame binds it.
pub fn get_variable(variables: &Scopes, identifier: &str) -> (r: Result<Binding, LowerError>)
    ensures
        r == match resolve(variables@, identifier@) {
            Some(binding) => Ok::<Binding, LowerError>(binding),
            None => Err(LowerError::UnknownVariable),
        },
{
    match variables.resolve(identifier) {
        Some(binding) => Ok(binding),
        None => Err(LowerError::UnknownVariable),
    }
}

/// The machine type of what a function with this result hint returns:
/// none for a function that returns nothing. Arrays and custom types have
/// no machine type.
pub open spec fn any_type(hint: TypeModel) -> Result<Option<Scalar>, LowerError> {
    match hint {
        TypeModel::Char => Ok(Some(Scalar::Char)),
        TypeModel::Bool => Ok(Some(Scalar::Bool)),
        TypeModel::Number => Ok(Some(Scalar::Number)),
        TypeModel::Void => Ok(None),
        _ => Err(LowerError::UnsupportedType),
    }
}

/// The machine type of a parameter with this hint. Nothing, arrays and
/// custom types have no machine type.
pub open spec fn basic_type(hint: TypeModel) -> Result<Scalar, LowerError> {
    match hint {
        TypeModel::Char => Ok(Scalar::Char),
        TypeModel::Bool => Ok(Scalar::Bool),
        TypeModel::Number => Ok(Scalar::Number),
        _ => Err(LowerError::UnsupportedType),
    }
}

/// Computes [`any_type`].
pub fn get_any_type_from_type_hint(hint: &Type) -> (r: Result<Option<Scalar>, LowerError>)
    ensures
        r == any_type(hint@),
{
    match hint {
        Type::Char => Ok(Some(Scalar::Char)),
        Type::Bool => Ok(Some(Scalar::Bool)),
        Type::Number => Ok(Some(Scalar::Number)),
        Type::Void => Ok(None),
        _ => Err(LowerError::UnsupportedType),
    }
}

/// Computes [`basic_type`].
pub fn get_basic_type_metadata_from_type_hint(hint: &Type) -> (r: Result<Scalar, LowerError>)
    ensures
        r == basic_type(hint@),
{
    match hint {
        Type::Char => Ok(Scalar::Char),
        Type::Bool => Ok(Scalar::Bool),
        Type::Number => Ok(Scalar::Number),
        _ => Err(LowerError::UnsupportedType),
    }
}

/// What lowering the statements from `at` on gives, one after the other.
/// `top` says whether they stand directly in the entry sequence of the
/// program.
pub open spec fn lowered_block(
    s: CompilerModel,
    statements: Seq<StatementModel>,
    at: int,
    top: bool,
) -> Result<CompilerModel, LowerError>
    decreases statements, statements.len() - at,
{
    if at < 0 || at >= statements.len() {
        Ok(s)
    } else {
        match lowered_statement(s, statements[at], top) {
            Err(error) => Err(error),
            Ok((after, _)) => lowered_block(after, statements, at + 1, top),
        }
    }
}

/// What lowering a statement gives. A statement that is an expression has
/// the value of the expression; every other statement has none. A comment
/// takes no step.
pub open spec fn lowered_statement(s: CompilerModel, statement: StatementModel, top: bool) -> Lowered
    decreases statement, 1nat,
{
    match statement {
        StatementModel::Assignment { .. } => lowered_assignment(s, statement, top),
        StatementModel::FunctionDefinition { .. } => lowered_function_definition(s, statement),
        StatementModel::Return { .. } => lowered_return(s, statement),
        StatementModel::WhileLoop { .. } => lowered_while_loop(s, statement),
        StatementModel::ForLoop { .. } => lowered_for_loop(s, statement),
        StatementModel::IfStatement { .. } => lowered_if_statement(s, statement),
        StatementModel::ForeignModule(_) => lowered_foreign_module(s, statement, top),
        StatementModel::Expr { expr } => lowered_expr(s, expr),
        StatementModel::Comment(_) => Ok((s, Value::Void)),
    }
}

/// Whether what lowering a block returned, and the state it left, are what
/// `expected` says.
pub open spec fn block_agrees(
    r: Result<(), LowerError>,
    after: CompilerModel,
    expected: Result<CompilerModel, LowerError>,
) -> bool {
    match expected {
        Ok(state) => r is Ok && after == state,
        Err(error) => r == Err::<(), LowerError>(error),
    }
}

/// Lowers statements one after the other.
#[verifier::loop_isolation(false)]
pub fn lower_block(compiler: &mut Compiler, statements: &Vec<Statement>, main_function: bool) -> (r:
    Result<(), LowerError>)
    ensures
        block_agrees(
            r,
            final(compiler)@,
            lowered_block(old(compiler)@, statements_view(statements@), 0, main_function),
        ),
    decreases statements, 0nat,
{
    let mut at: usize = 0;
    while at < statements.len()
        invariant
            at <= statements.len(),
            lowered_block(compiler@, statements_view(statements@), at as int, main_function)
                == lowered_block(
                old(compiler)@,
                statements_view(statements@),
                0,
                main_function,
            ),
        decreases statements.len() - at,
    {
        match lower_statement(compiler, &statements[at], main_function) {
            Ok(_) => {},
            Err(error) => {
                return Err(error);
            },
        }
        at += 1;
    }
    Ok(())
}

/// Lowers a statement. `main_function` says whether the statement stands
/// directly in the entry sequence of the program.
pub fn lower_statement(compiler: &mut Compiler, statement: &Statement, main_function: bool) -> (r:
    Result<Value, LowerError>)
    ensures
        agrees(r, final(compiler)@, lowered_statement(old(compiler)@, statement@, main_function)),
    decreases statement, 1nat,
{
    match statement {
        Statement::Assignment { .. } => lower_assignment(compiler, statement, main_function),
        Statement::FunctionDefinition { .. } => lower_function_definition(compiler, statement),
        Statement::Return { .. } => lower_return(compiler, statement),
        Statement::WhileLoop { .. } => lower_while_loop(compiler, statement),
        Statement::ForLoop { .. } => lower_for_loop(compiler, statement),
        Statement::IfStatement { .. } => lower_if_statement(compiler, statement),
        Statement::ForeignModule(_) => lower_foreign_module(compiler, statement, main_function),
        Statement::Expr { expr } => lower_expr(compiler, expr),
        Statement::Comment(_) => Ok(Value::Void),
    }
}

} // verus!
