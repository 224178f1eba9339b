//! Lowering of imported files.
use crate::compiler::codegen::value::{LowerError, Value};
use crate::compiler::codegen::{lower_block, lowered_block};
use crate::compiler::{agrees, Compiler, CompilerModel, Lowered};
use crate::parser::ast::{Statement, StatementModel};
use vstd::prelude::*;

verus! {

/// What lowering an imported file gives: its statements in place, as if
/// they stood where the import stands. Its names land in the frame and in
/// the module of the importing file.
pub open spec fn lowered_foreign_module(
    s: CompilerModel,
    statement: StatementModel,
    top: bool,
) -> Lowered
    decreases statement, 0nat,
{
    match statement {
        StatementModel::ForeignModule(file) => match lowered_block(s, file.statements, 0, top) {
            Err(error) => Err(error),
            Ok(after) => Ok((after, Value::Void)),
        },
        _ => Err(LowerError::Unimplemented),
    }
}

/// Lowers an imported file.
pub fn lower_foreign_module(
    compiler: &mut Compiler,
    statement: &Statement,
    main_function: bool,
) -> (r: Result<Value, LowerError>)
    ensures
        agrees(
            r,
            final(compiler)@,
            lowered_foreign_module(old(compiler)@, statement@, main_function),
        ),
    decreases statement, 0nat,
{
    match statement {
        Statement::ForeignModule(file) => {
            match lower_block(compiler, &file.statements, main_function) {
                Ok(()) => Ok(Value::Void),
                Err(error) => Err(error),
            }
        },
        _ => Err(LowerError::Unimplemented),
    }
}

} // verus!
