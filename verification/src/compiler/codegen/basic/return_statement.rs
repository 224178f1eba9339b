//! Lowering of `return`.
use crate::compiler::codegen::expr::{lower_expr, lowered_expr};
use crate::compiler::codegen::value::{LowerError, Value};
use crate::compiler::module::Step;
use crate::compiler::{agrees, Compiler, CompilerModel, Lowered};
use crate::parser::ast::{Statement, StatementModel};
use vstd::prelude::*;

verus! {

/// What lowering a `return` gives: the value, which must not be nothing,
/// then the return of it, which ends the block.
pub open spec fn lowered_return(s: CompilerModel, statement: StatementModel) -> Lowered {
    match statement {
        StatementModel::Return { value } => match lowered_expr(s, value) {
            Err(error) => Err(error),
            Ok((after, returned)) => match returned.operand() {
                None => Err(LowerError::VoidValue),
                Some(operand) => Ok(
                    (after.emit(Step::Return { value: Some(operand.id) }), Value::Void),
                ),
            },
        },
        _ => Err(LowerError::Unimplemented),
    }
}

/// Lowers a `return`.
pub fn lower_return(compiler: &mut Compiler, statement: &Statement) -> (r: Result<Value, LowerError>)
    ensures
        agrees(r, final(compiler)@, lowered_return(old(compiler)@, statement@)),
{
    match statement {
        Statement::Return { value } => {
            let returned = match lower_expr(compiler, value) {
                Ok(returned) => returned,
                Err(error) => {
                    return Err(error);
                },
            };
            let operand = match returned.into_basic_value() {
                Ok(operand) => operand,
                Err(error) => {
                    return Err(error);
                },
            };
            compiler.emit(Step::Return { value: Some(operand.id) });
            Ok(Value::Void)
        },
        _ => Err(LowerError::Unimplemented),
    }
}

} // verus!
