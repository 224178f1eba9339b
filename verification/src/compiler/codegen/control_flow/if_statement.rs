//! Lowering of `if`.
use crate::compiler::codegen::expr::{lower_expr, lowered_expr};
use crate::compiler::codegen::value::{LowerError, Value};
use crate::compiler::codegen::{lower_block, lowered_block};
use crate::compiler::module::{Label, Step};
use crate::compiler::{agrees, Compiler, CompilerModel, Lowered};
use crate::parser::ast::{
    branches_view, statements_view, Statement, StatementModel,
};
use crate::parser::expr::{Expr, ExprModel};
use vstd::prelude::*;

verus! {

broadcast use crate::parser::ast::group_statements;

/// The number of a value that serves as a condition: a truth value or a
/// character. Nothing, a number and an array are no condition.
pub open spec fn condition_of(value: Value) -> Result<usize, LowerError> {
    match value {
        Value::Bool { id, .. } => Ok(id),
        Value::Char { id, .. } => Ok(id),
        Value::Void => Err(LowerError::VoidValue),
        _ => Err(LowerError::TypeMismatch),
    }
}

/// The state after a body: a block that is left open branches to `merge`.
pub open spec fn joined(s: CompilerModel, merge: usize) -> CompilerModel {
    if s.terminated {
        s
    } else {
        s.emit(Step::Branch { target: merge })
    }
}

/// The blocks of one condition: the one entered where it holds, the one
/// entered where it does not, and the one that the body joins.
pub struct Fork {
    pub then_block: usize,
    pub else_block: usize,
    pub merge: usize,
}

/// What testing a condition gives.
///
/// The condition is computed, and two blocks are appended: one for the
/// body, which is entered where the condition holds, and one for what
/// follows where it does not. Where no `merge` is given, a third block is
/// appended for it. The builder then stands at the end of the first block.
pub open spec fn forked(s: CompilerModel, condition: ExprModel, merge: Option<usize>) -> Result<
    (CompilerModel, Fork),
    LowerError,
> {
    match lowered_expr(s, condition) {
        Err(error) => Err(error),
        Ok((computed, value)) => match condition_of(value) {
            Err(error) => Err(error),
            Ok(test) => {
                let then_block = computed.next();
                let with_then = computed.emit(
                    Step::AppendBlock { function: computed.function, label: Label::Then },
                );
                let else_block = with_then.next();
                let with_else = with_then.emit(
                    Step::AppendBlock { function: computed.function, label: Label::Else },
                );
                let (with_merge, target) = match merge {
                    Some(target) => (with_else, target),
                    None => (
                        with_else.emit(
                            Step::AppendBlock { function: computed.function, label: Label::Merge },
                        ),
                        with_else.next(),
                    ),
                };
                Ok(
                    (
                        with_merge.emit(
                            Step::ConditionalBranch { condition: test, then_block, else_block },
                        ).emit(Step::PositionAtEnd { block: then_block }),
                        Fork { then_block, else_block, merge: target },
                    ),
                )
            },
        },
    }
}

/// What a condition with a body gives: the condition is tested, and the
/// body is lowered in the block that is entered where it holds. The body
/// joins the merge block unless it ends on its own. The builder then stands
/// at the end of the block that is entered where the condition does not
/// hold. The result holds the merge block.
pub open spec fn guarded(
    s: CompilerModel,
    condition: ExprModel,
    body: Seq<StatementModel>,
    merge: Option<usize>,
) -> Result<(CompilerModel, usize), LowerError>
    decreases body, body.len() + 1,
{
    match forked(s, condition, merge) {
        Err(error) => Err(error),
        Ok((inside, fork)) => match lowered_block(inside, body, 0, false) {
            Err(error) => Err(error),
            Ok(done) => Ok(
                (
                    joined(done, fork.merge).emit(Step::PositionAtEnd { block: fork.else_block }),
                    fork.merge,
                ),
            ),
        },
    }
}

/// What the `elif` branches from `at` on give, one after the other: each a
/// condition with a body, tried where the ones before did not hold.
pub open spec fn lowered_branches(
    s: CompilerModel,
    branches: Seq<(ExprModel, Seq<StatementModel>)>,
    at: int,
    merge: usize,
) -> Result<CompilerModel, LowerError>
    decreases branches, branches.len() - at,
{
    if at < 0 || at >= branches.len() {
        Ok(s)
    } else {
        match guarded(s, branches[at].0, branches[at].1, Some(merge)) {
            Err(error) => Err(error),
            Ok((after, _)) => lowered_branches(after, branches, at + 1, merge),
        }
    }
}

/// What lowering an `if` gives.
///
/// The conditions are tried in source order, each only where the ones
/// before did not hold, and the body of the first that holds is entered.
/// Where none holds the `else` body is entered. Every body that does not
/// end on its own branches to one block, at whose end the builder stands
/// afterwards. The bodies open no frame, and are never at top level.
pub open spec fn lowered_if_statement(s: CompilerModel, statement: StatementModel) -> Lowered
    decreases statement, 0nat,
{
    match statement {
        StatementModel::IfStatement { condition, body, else_ifs, else_body } => match guarded(
            s,
            condition,
            body,
            None,
        ) {
            Err(error) => Err(error),
            Ok((after_body, merge)) => match lowered_branches(after_body, else_ifs, 0, merge) {
                Err(error) => Err(error),
                Ok(after_branches) => match lowered_block(after_branches, else_body, 0, false) {
                    Err(error) => Err(error),
                    Ok(done) => Ok(
                        (
                            joined(done, merge).emit(Step::PositionAtEnd { block: merge }),
                            Value::Void,
                        ),
                    ),
                },
            },
        },
        _ => Err(LowerError::Unimplemented),
    }
}

/// Computes [`condition_of`].
pub fn condition(value: Value) -> (r: Result<usize, LowerError>)
    ensures
        r == condition_of(value),
{
    match value {
        Value::Bool { id, .. } => Ok(id),
        Value::Char { id, .. } => Ok(id),
        Value::Void => Err(LowerError::VoidValue),
        _ => Err(LowerError::TypeMismatch),
    }
}

/// Branches to `merge` from a block that is left open.
pub fn join(compiler: &mut Compiler, merge: usize)
    ensures
        final(compiler)@ == joined(old(compiler)@, merge),
{
    if !compiler.terminated {
        compiler.emit(Step::Branch { target: merge });
    }
}

/// Lowers a condition with a body. With `merge` given, the body joins that
/// block; without, a block for it is appended, and returned.
fn lower_guarded(
    compiler: &mut Compiler,
    test: &Expr,
    body: &Vec<Statement>,
    merge: Option<usize>,
) -> (r: Result<usize, LowerError>)
    ensures
        match guarded(old(compiler)@, test@, statements_view(body@), merge) {
            Ok((state, target)) => r == Ok::<usize, LowerError>(target) && final(compiler)@
                == state,
            Err(error) => r == Err::<usize, LowerError>(error),
        },
    decreases body, body.len() + 1,
{
    let value = match lower_expr(compiler, test) {
        Ok(value) => value,
        Err(error) => {
            return Err(error);
        },
    };
    let test = match condition(value) {
        Ok(test) => test,
        Err(error) => {
            return Err(error);
        },
    };
    let function = compiler.function;
    let then_block = compiler.emit(Step::AppendBlock { function, label: Label::Then });
    let else_block = compiler.emit(Step::AppendBlock { function, label: Label::Else });
    let target = match merge {
        Some(target) => target,
        None => compiler.emit(Step::AppendBlock { function, label: Label::Merge }),
    };
    compiler.emit(Step::ConditionalBranch { condition: test, then_block, else_block });
    compiler.emit(Step::PositionAtEnd { block: then_block });
    match lower_block(compiler, body, false) {
        Ok(()) => {},
        Err(error) => {
            return Err(error);
        },
    }
    join(compiler, target);
    compiler.emit(Step::PositionAtEnd { block: else_block });
    Ok(target)
}

/// Lowers an `if`.
#[verifier::loop_isolation(false)]
pub fn lower_if_statement(compiler: &mut Compiler, statement: &Statement) -> (r: Result<
    Value,
    LowerError,
>)
    ensures
        agrees(r, final(compiler)@, lowered_if_statement(old(compiler)@, statement@)),
    decreases statement, 0nat,
{
    match statement {
        Statement::IfStatement { condition, body, else_ifs, else_body } => {
            let merge = match lower_guarded(compiler, condition, body, None) {
                Ok(merge) => merge,
                Err(error) => {
                    return Err(error);
                },
            };
            let ghost after_body = compiler@;
            let mut at: usize = 0;
            while at < else_ifs.len()
                invariant
                    at <= else_ifs.len(),
                    lowered_branches(compiler@, branches_view(else_ifs@), at as int, merge)
                        == lowered_branches(after_body, branches_view(else_ifs@), 0, merge),
                decreases else_ifs.len() - at,
            {
                match lower_guarded(compiler, &else_ifs[at].0, &else_ifs[at].1, Some(merge)) {
                    Ok(_) => {},
                    Err(error) => {
                        return Err(error);
                    },
                }
                at += 1;
            }
            match lower_block(compiler, else_body, false) {
                Ok(()) => {},
                Err(error) => {
                    return Err(error);
                },
            }
            join(compiler, merge);
            compiler.emit(Step::PositionAtEnd { block: merge });
            Ok(Value::Void)
        },
        _ => Err(LowerError::Unimplemented),
    }
}

} // verus!
