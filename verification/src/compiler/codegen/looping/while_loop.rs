//! Lowering of `while`.
use crate::compiler::codegen::control_flow::if_statement::{condition, condition_of};
use crate::compiler::codegen::expr::{lower_expr, lowered_expr};
use crate::compiler::codegen::value::{LowerError, Value};
use crate::compiler::codegen::{lower_block, lowered_block};
use crate::compiler::module::{Label, Step};
use crate::compiler::{agrees, Compiler, CompilerModel, Lowered};
use crate::parser::ast::{Statement, StatementModel};
use crate::parser::expr::{Expr, ExprModel};
use vstd::prelude::*;

verus! {

/// What computing a condition gives: the state, and the number of the
/// condition.
pub open spec fn tested(s: CompilerModel, condition: ExprModel) -> Result<
    (CompilerModel, usize),
    LowerError,
> {
    match lowered_expr(s, condition) {
        Err(error) => Err(error),
        Ok((computed, value)) => match condition_of(value) {
            Err(error) => Err(error),
            Ok(test) => Ok((computed, test)),
        },
    }
}

/// The blocks of a loop: its body, and what follows it.
pub struct Cycle {
    pub loop_block: usize,
    pub merge_block: usize,
}

/// What entering a loop gives: the condition is computed, the two blocks
/// of the loop are appended, and the body is entered where the condition
/// holds. The builder then stands at the end of the body's block.
pub open spec fn entered_loop(s: CompilerModel, condition: ExprModel) -> Result<
    (CompilerModel, Cycle),
    LowerError,
> {
    match tested(s, condition) {
        Err(error) => Err(error),
        Ok((computed, first)) => {
            let loop_block = computed.next();
            let with_loop = computed.emit(
                Step::AppendBlock { function: computed.function, label: Label::Loop },
            );
            let merge_block = with_loop.next();
            Ok(
                (
                    with_loop.emit(
                        Step::AppendBlock { function: computed.function, label: Label::Merge },
                    ).emit(
                        Step::ConditionalBranch {
                            condition: first,
                            then_block: loop_block,
                            else_block: merge_block,
                        },
                    ).emit(Step::PositionAtEnd { block: loop_block }),
                    Cycle { loop_block, merge_block },
                ),
            )
        },
    }
}

/// What lowering a `while` gives.
///
/// The condition is computed once to decide whether the loop is entered,
/// and once more at the end of the body to decide whether it is entered
/// again: the steps of the condition are taken twice. The body opens no
/// frame, and is never at top level. The builder stands at the end of the
/// block after the loop.
pub open spec fn lowered_while_loop(s: CompilerModel, statement: StatementModel) -> Lowered
    decreases statement, 0nat,
{
    match statement {
        StatementModel::WhileLoop { condition, body } => match entered_loop(s, condition) {
            Err(error) => Err(error),
            Ok((inside, cycle)) => match lowered_block(inside, body, 0, false) {
                Err(error) => Err(error),
                Ok(done) => match tested(done, condition) {
                    Err(error) => Err(error),
                    Ok((again, second)) => Ok(
                        (
                            again.emit(
                                Step::ConditionalBranch {
                                    condition: second,
                                    then_block: cycle.loop_block,
                                    else_block: cycle.merge_block,
                                },
                            ).emit(Step::PositionAtEnd { block: cycle.merge_block }),
                            Value::Void,
                        ),
                    ),
                },
            },
        },
        _ => Err(LowerError::Unimplemented),
    }
}

/// Computes a condition, and returns its number.
pub fn test(compiler: &mut Compiler, expr: &Expr) -> (r: Result<usize, LowerError>)
    ensures
        match tested(old(compiler)@, expr@) {
            Ok((state, id)) => r == Ok::<usize, LowerError>(id) && final(compiler)@ == state,
            Err(error) => r == Err::<usize, LowerError>(error),
        },
{
    let value = match lower_expr(compiler, expr) {
        Ok(value) => value,
        Err(error) => {
            return Err(error);
        },
    };
    condition(value)
}

/// Lowers a `while`.
pub fn lower_while_loop(compiler: &mut Compiler, statement: &Statement) -> (r: Result<
    Value,
    LowerError,
>)
    ensures
        agrees(r, final(compiler)@, lowered_while_loop(old(compiler)@, statement@)),
    decreases statement, 0nat,
{
    match statement {
        Statement::WhileLoop { condition, body } => {
            let first = match test(compiler, condition) {
                Ok(first) => first,
                Err(error) => {
                    return Err(error);
                },
            };
            let function = compiler.function;
            let loop_block = compiler.emit(Step::AppendBlock { function, label: Label::Loop });
            let merge_block = compiler.emit(Step::AppendBlock { function, label: Label::Merge });
            compiler.emit(
                Step::ConditionalBranch {
                    condition: first,
                    then_block: loop_block,
                    else_block: merge_block,
                },
            );
            compiler.emit(Step::PositionAtEnd { block: loop_block });
            match lower_block(compiler, body, false) {
                Ok(()) => {},
                Err(error) => {
                    return Err(error);
                },
            }
            let second = match test(compiler, condition) {
                Ok(second) => second,
                Err(error) => {
                    return Err(error);
                },
            };
            compiler.emit(
                Step::ConditionalBranch {
                    condition: second,
                    then_block: loop_block,
                    else_block: merge_block,
                },
            );
            compiler.emit(Step::PositionAtEnd { block: merge_block });
            Ok(Value::Void)
        },
        _ => Err(LowerError::Unimplemented),
    }
}

} // verus!
