//! Lowering of `for`.
use crate::compiler::codegen::basic::assignment::{bind, with_binding};
use crate::compiler::codegen::expr::{lower_expr, lowered_expr};
use crate::compiler::codegen::scope::{innermost, Binding};
use crate::compiler::codegen::value::{LowerError, Operand, Value};
use crate::compiler::codegen::{lower_block, lowered_block};
use crate::compiler::module::{Kind, Label, Scalar, Step};
use crate::compiler::{agrees, Compiler, CompilerModel, Lowered};
use crate::parser::ast::{Statement, StatementModel};
use vstd::prelude::*;

verus! {

/// What a `for` loop works with: the array it walks, the cell that holds
/// the array, the cell that holds the index, and its two blocks.
#[derive(Debug, Clone, Copy, PartialEq, Eq)]
pub struct Walk {
    pub len: u32,
    pub element: Scalar,
    pub array_cell: usize,
    pub index_cell: usize,
    pub loop_block: usize,
    pub merge_block: usize,
}

/// The steps that stand before the body and again after it.
///
/// The index is loaded, and the element at the index is loaded from the
/// array's cell. Where the innermost frame binds the loop's name, the
/// element is stored into the cell it is bound to; else the name gets a
/// cell on the stack and is bound to it, in the innermost frame. The loop
/// is then entered where the index differs from the length of the array,
/// and left where it does not.
pub open spec fn loop_meta(s: CompilerModel, identifier: Seq<char>, walk: Walk) -> Result<
    CompilerModel,
    LowerError,
> {
    let index = s.next();
    let loaded = s.emit(Step::Load { kind: Kind::Index, pointer: walk.index_cell });
    let address = loaded.emit(
        Step::ElementPointer { element: walk.element, pointer: walk.array_cell, index },
    );
    let element = address.next();
    let fetched = address.emit(Step::Load { kind: walk.element.kind(), pointer: loaded.next() });
    let assigned = match innermost(s.scopes, identifier) {
        Some(binding) => Ok(
            (fetched.emit(Step::Store { pointer: binding.pointer, value: element }), Value::Void),
        ),
        None => {
            let cell = fetched.next();
            with_binding(
                fetched.intern(identifier).emit(
                    Step::Alloca { kind: walk.element.kind(), name: Some(fetched.next_name()) },
                ).emit(Step::Store { pointer: cell, value: element }),
                identifier,
                Binding {
                    value: Operand { id: element, kind: walk.element.kind() },
                    pointer: cell,
                    global: false,
                },
            )
        },
    };
    match assigned {
        Err(error) => Err(error),
        Ok((after, _)) => {
            let length = after.next();
            let counted = after.emit(Step::ConstIndex { value: walk.len });
            Ok(
                counted.emit(Step::IndexNotEqual { lhs: index, rhs: length }).emit(
                    Step::ConditionalBranch {
                        condition: counted.next(),
                        then_block: walk.loop_block,
                        else_block: walk.merge_block,
                    },
                ),
            )
        },
    }
}

/// The state in which a loop over an array starts: a cell for the index,
/// which holds zero; a cell that holds the array; and the two blocks of the
/// loop.
pub open spec fn prepared(s: CompilerModel, array: usize, len: u32, element: Scalar) -> (
    CompilerModel,
    Walk,
) {
    let index_cell = s.next();
    let counted = s.emit(Step::Alloca { kind: Kind::Index, name: None });
    let zeroed = counted.emit(Step::ConstIndex { value: 0 }).emit(
        Step::Store { pointer: index_cell, value: counted.next() },
    );
    let array_cell = zeroed.next();
    let stored = zeroed.emit(Step::Alloca { kind: Kind::Array { len, element }, name: None }).emit(
        Step::Store { pointer: array_cell, value: array },
    );
    let loop_block = stored.next();
    let with_loop = stored.emit(Step::AppendBlock { function: s.function, label: Label::Loop });
    (
        with_loop.emit(Step::AppendBlock { function: s.function, label: Label::Merge }),
        Walk {
            len,
            element,
            array_cell,
            index_cell,
            loop_block,
            merge_block: with_loop.next(),
        },
    )
}

/// The state after the index is raised by one.
pub open spec fn advanced(s: CompilerModel, walk: Walk) -> CompilerModel {
    let loaded = s.emit(Step::Load { kind: Kind::Index, pointer: walk.index_cell });
    let one = loaded.emit(Step::ConstIndex { value: 1 });
    one.emit(Step::IndexAdd { lhs: s.next(), rhs: loaded.next() }).emit(
        Step::Store { pointer: walk.index_cell, value: one.next() },
    )
}

/// What walking an array gives, once the loop is prepared: the element is
/// fetched and the index tested; the body is lowered in the block of the
/// loop; the index is raised; and the element is fetched and the index
/// tested again. The builder then stands at the end of the block after the
/// loop.
pub open spec fn walked(
    s: CompilerModel,
    identifier: Seq<char>,
    walk: Walk,
    body: Seq<StatementModel>,
) -> Result<CompilerModel, LowerError>
    decreases body, body.len() + 1,
{
    match loop_meta(s, identifier, walk) {
        Err(error) => Err(error),
        Ok(tested) => match lowered_block(
            tested.emit(Step::PositionAtEnd { block: walk.loop_block }),
            body,
            0,
            false,
        ) {
            Err(error) => Err(error),
            Ok(done) => match loop_meta(advanced(done, walk), identifier, walk) {
                Err(error) => Err(error),
                Ok(after) => Ok(after.emit(Step::PositionAtEnd { block: walk.merge_block })),
            },
        },
    }
}

/// What lowering a `for` gives.
///
/// The value to walk is an array. The index starts at zero and is raised by
/// one after each round of the body; before the first round and after each
/// round the element at the index is assigned to the loop's name and the
/// index is held against the length of the array. The body opens no frame:
/// the loop's name, and what the body binds, stay bound after the loop. The
/// body is never at top level.
pub open spec fn lowered_for_loop(s: CompilerModel, statement: StatementModel) -> Lowered
    decreases statement, 0nat,
{
    match statement {
        StatementModel::ForLoop { identifier, expression, body, .. } => match lowered_expr(
            s,
            expression,
        ) {
            Err(error) => Err(error),
            Ok((computed, value)) => match value {
                Value::Void => Err(LowerError::VoidValue),
                Value::Array { id, len, element, .. } => {
                    let (ready, walk) = prepared(computed, id, len, element);
                    match walked(ready, identifier, walk, body) {
                        Err(error) => Err(error),
                        Ok(after) => Ok((after, Value::Void)),
                    }
                },
                _ => Err(LowerError::NotAnArray),
            },
        },
        _ => Err(LowerError::Unimplemented),
    }
}

/// Takes the steps that stand before the body of a loop and after it.
pub fn loop_meta_instructions(compiler: &mut Compiler, identifier: &str, walk: Walk) -> (r: Result<
    (),
    LowerError,
>)
    ensures
        match loop_meta(old(compiler)@, identifier@, walk) {
            Ok(state) => r is Ok && final(compiler)@ == state,
            Err(error) => r == Err::<(), LowerError>(error),
        },
{
    let found = compiler.variables.innermost(identifier);
    let index = compiler.emit(Step::Load { kind: Kind::Index, pointer: walk.index_cell });
    let address = compiler.emit(
        Step::ElementPointer { element: walk.element, pointer: walk.array_cell, index },
    );
    let element = compiler.emit(Step::Load { kind: walk.element.kind(), pointer: address });
    match found {
        Some(binding) => {
            compiler.emit(Step::Store { pointer: binding.pointer, value: element });
        },
        None => {
            let name = compiler.intern(identifier);
            let cell = compiler.emit(Step::Alloca { kind: walk.element.kind(), name: Some(name) });
            compiler.emit(Step::Store { pointer: cell, value: element });
            let binding = Binding {
                value: Operand { id: element, kind: walk.element.kind() },
                pointer: cell,
                global: false,
            };
            match bind(compiler, identifier, binding) {
                Ok(_) => {},
                Err(error) => {
                    return Err(error);
                },
            }
        },
    }
    let length = compiler.emit(Step::ConstIndex { value: walk.len });
    let differs = compiler.emit(Step::IndexNotEqual { lhs: index, rhs: length });
    compiler.emit(
        Step::ConditionalBranch {
            condition: differs,
            then_block: walk.loop_block,
            else_block: walk.merge_block,
        },
    );
    Ok(())
}

/// Makes the cells and the blocks of a loop over an array.
fn prepare(compiler: &mut Compiler, array: usize, len: u32, element: Scalar) -> (r: Walk)
    ensures
        (final(compiler)@, r) == prepared(old(compiler)@, array, len, element),
{
    let function = compiler.function;
    let index_cell = compiler.emit(Step::Alloca { kind: Kind::Index, name: None });
    let zero = compiler.emit(Step::ConstIndex { value: 0 });
    compiler.emit(Step::Store { pointer: index_cell, value: zero });
    let array_cell = compiler.emit(
        Step::Alloca { kind: Kind::Array { len, element }, name: None },
    );
    compiler.emit(Step::Store { pointer: array_cell, value: array });
    let loop_block = compiler.emit(Step::AppendBlock { function, label: Label::Loop });
    let merge_block = compiler.emit(Step::AppendBlock { function, label: Label::Merge });
    Walk { len, element, array_cell, index_cell, loop_block, merge_block }
}

/// Raises the index by one.
fn advance(compiler: &mut Compiler, walk: Walk)
    ensures
        final(compiler)@ == advanced(old(compiler)@, walk),
{
    let index = compiler.emit(Step::Load { kind: Kind::Index, pointer: walk.index_cell });
    let one = compiler.emit(Step::ConstIndex { value: 1 });
    let raised = compiler.emit(Step::IndexAdd { lhs: index, rhs: one });
    compiler.emit(Step::Store { pointer: walk.index_cell, value: raised });
}

/// Lowers a `for`.
pub fn lower_for_loop(compiler: &mut Compiler, statement: &Statement) -> (r: Result<
    Value,
    LowerError,
>)
    ensures
        agrees(r, final(compiler)@, lowered_for_loop(old(compiler)@, statement@)),
    decreases statement, 0nat,
{
    match statement {
        Statement::ForLoop { identifier, expression, body, .. } => {
            let value = match lower_expr(compiler, expression) {
                Ok(value) => value,
                Err(error) => {
                    return Err(error);
                },
            };
            match value {
                Value::Void => Err(LowerError::VoidValue),
                Value::Array { id, len, element, .. } => {
                    let walk = prepare(compiler, id, len, element);
                    match loop_meta_instructions(compiler, identifier.as_str(), walk) {
                        Ok(()) => {},
                        Err(error) => {
                            return Err(error);
                        },
                    }
                    compiler.emit(Step::PositionAtEnd { block: walk.loop_block });
                    match lower_block(compiler, body, false) {
                        Ok(()) => {},
                        Err(error) => {
                            return Err(error);
                        },
                    }
                    advance(compiler, walk);
                    match loop_meta_instructions(compiler, identifier.as_str(), walk) {
                        Ok(()) => {},
                        Err(error) => {
                            return Err(error);
                        },
                    }
                    compiler.emit(Step::PositionAtEnd { block: walk.merge_block });
                    Ok(Value::Void)
                },
                _ => Err(LowerError::NotAnArray),
            }
        },
        _ => Err(LowerError::Unimplemented),
    }
}

} // verus!
