//! Lowering of expressions.
use crate::compiler::codegen::expr::array::{
    lower_array, lower_array_index, lowered_array, lowered_array_index,
};
use crate::compiler::codegen::expr::function_call::{lower_function_call, lowered_function_call};
use crate::compiler::codegen::expr::op::{
    lower_binop, lower_unary_minus, lowered_binop, lowered_unary_minus,
};
use crate::compiler::codegen::expr::values::{
    lower_bool, lower_char, lower_float, lower_identifier, lowered_bool, lowered_char,
    lowered_float, lowered_identifier,
};
use crate::compiler::codegen::value::{LowerError, Value};
use crate::compiler::{agrees, Compiler, CompilerModel, Lowered};
use crate::parser::expr::{Expr, ExprModel};
use vstd::prelude::*;

pub mod array;
pub mod function_call;
pub mod op;
pub mod values;

verus! {

/// What lowering an expression gives: the steps that compute it, taken
/// after those of the state, and its typed value.
pub open spec fn lowered_expr(s: CompilerModel, e: ExprModel) -> Lowered
    decreases e, 1nat,
{
    match e {
        ExprModel::Float(text) => Ok(lowered_float(s, text)),
        ExprModel::Bool(value) => Ok(lowered_bool(s, value)),
        ExprModel::Char(value) => Ok(lowered_char(s, value)),
        ExprModel::TypeNone => Ok((s, Value::Void)),
        ExprModel::Identifier(name) => lowered_identifier(s, name),
        ExprModel::FunctionCall { .. } => lowered_function_call(s, e),
        ExprModel::UnaryMinus(_) => lowered_unary_minus(s, e),
        ExprModel::Array(_) => lowered_array(s, e),
        ExprModel::ArrayIndex { .. } => lowered_array_index(s, e),
        ExprModel::BinOp { .. } => lowered_binop(s, e),
    }
}

/// Lowers an expression: takes the steps that compute it and returns its
/// typed value.
pub fn lower_expr(compiler: &mut Compiler, expr: &Expr) -> (r: Result<Value, LowerError>)
    ensures
        agrees(r, final(compiler)@, lowered_expr(old(compiler)@, expr@)),
    decreases expr, 1nat,
{
    match expr {
        Expr::Float(text) => Ok(lower_float(compiler, text)),
        Expr::Bool(value) => Ok(lower_bool(compiler, *value)),
        Expr::Char(value) => Ok(lower_char(compiler, *value)),
        Expr::TypeNone => Ok(Value::Void),
        Expr::Identifier(name) => lower_identifier(compiler, name),
        Expr::FunctionCall { .. } => lower_function_call(compiler, expr),
        Expr::UnaryMinus(_) => lower_unary_minus(compiler, expr),
        Expr::Array(_) => lower_array(compiler, expr),
        Expr::ArrayIndex { .. } => lower_array_index(compiler, expr),
        Expr::BinOp { .. } => lower_binop(compiler, expr),
    }
}

} // verus!
