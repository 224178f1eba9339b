//! Lowering of assignments.
use crate::compiler::codegen::expr::{lower_expr, lowered_expr};
use crate::compiler::codegen::get_variable;
use crate::compiler::codegen::lowered_statement;
use crate::compiler::codegen::scope::{bound, innermost, resolve, Binding};
use crate::compiler::codegen::scoping::{lemma_bound_extends, lemma_expr_keeps_scopes};
use crate::compiler::codegen::value::{
    allocated, allocated_global, global_name, LowerError, Value,
};
use crate::compiler::module::{Arithmetic, Kind, Step};
use crate::compiler::{agrees, Compiler, CompilerModel, Lowered};
use crate::parser::ast::{AssignmentType, Statement, StatementModel};
use vstd::prelude::*;
use vstd::string::StringExecFns;

verus! {

/// The state after `name` is bound in the innermost frame. Fails where no
/// frame is open.
pub open spec fn with_binding(s: CompilerModel, name: Seq<char>, binding: Binding) -> Lowered {
    if s.scopes.len() == 0 {
        Err(LowerError::NoFrame)
    } else {
        Ok((s.with_scopes(bound(s.scopes, name, binding)), Value::Void))
    }
}

/// What assigning to an element gives.
///
/// Only plain assignment is lowered. The name is bound to an array and the
/// index is a number. The index is cut down to an unsigned integer, and the
/// value, which must not be nothing, is stored at the address of the
/// element in the array's cell. The index of a constant number is a
/// constant.
pub open spec fn assigned_element(
    s: CompilerModel,
    identifier: Seq<char>,
    kind: AssignmentType,
    assigned: Value,
    place: Value,
) -> Lowered {
    if kind != AssignmentType::Assign {
        Err(LowerError::Unimplemented)
    } else {
        match resolve(s.scopes, identifier) {
            None => Err(LowerError::UnknownVariable),
            Some(binding) => match place {
                Value::Float { id: number, constant, .. } => match binding.value.kind {
                    Kind::Array { element, .. } => match assigned.operand() {
                        None => Err(LowerError::VoidValue),
                        Some(operand) => {
                            let position = s.emit(
                                Step::ToIndex { value: number, folded: constant },
                            );
                            let address = position.emit(
                                Step::ElementPointer {
                                    element,
                                    pointer: binding.pointer,
                                    index: s.next(),
                                },
                            );
                            Ok(
                                (
                                    address.emit(
                                        Step::Store { pointer: position.next(), value: operand.id },
                                    ),
                                    Value::Void,
                                ),
                            )
                        },
                    },
                    _ => Err(LowerError::NotAnArray),
                },
                _ => Err(LowerError::IndexNotNumber),
            },
        }
    }
}

/// What a plain assignment to a name gives.
///
/// A fresh cell is made for the value and the value is put into it. At top
/// level the cell is a global of the module: a constant is its initial
/// content, and any other value is stored into it. Anywhere else the cell
/// is on the stack, and the value is stored into it. The name is then bound
/// anew, in the innermost frame, to the value and that cell.
pub open spec fn assigned_fresh(
    s: CompilerModel,
    identifier: Seq<char>,
    assigned: Value,
    top: bool,
) -> Lowered {
    match assigned.operand() {
        None => Err(LowerError::VoidValue),
        Some(operand) => if top {
            match allocated_global(s, assigned, identifier) {
                Err(error) => Err(error),
                Ok((made, pointer)) => with_binding(
                    if assigned.is_constant() {
                        made
                    } else {
                        made.emit(Step::Store { pointer, value: operand.id })
                    },
                    identifier,
                    Binding { value: operand, pointer, global: true },
                ),
            }
        } else {
            match allocated(s, assigned, identifier) {
                Err(error) => Err(error),
                Ok((made, pointer)) => with_binding(
                    made.emit(Step::Store { pointer, value: operand.id }),
                    identifier,
                    Binding { value: operand, pointer, global: false },
                ),
            }
        },
    }
}

/// The arithmetic of a compound assignment.
pub open spec fn compound(kind: AssignmentType) -> Option<Arithmetic> {
    match kind {
        AssignmentType::Add => Some(Arithmetic::Add),
        AssignmentType::Sub => Some(Arithmetic::Sub),
        AssignmentType::Mul => Some(Arithmetic::Mul),
        AssignmentType::Div => Some(Arithmetic::Div),
        _ => None,
    }
}

/// What a compound assignment to a name gives.
///
/// The name is bound, to a number, and the value is a number. What the
/// cell holds is loaded, combined with the value, and the result is stored
/// into the same cell. The scopes do not change.
pub open spec fn assigned_compound(
    s: CompilerModel,
    identifier: Seq<char>,
    operation: Arithmetic,
    assigned: Value,
) -> Lowered {
    match resolve(s.scopes, identifier) {
        None => Err(LowerError::UnknownVariable),
        Some(binding) => match (binding.value.kind, assigned) {
            (Kind::Number, Value::Float { id: operand, .. }) => {
                let loaded = s.emit(
                    Step::Load { kind: binding.value.kind, pointer: binding.pointer },
                );
                let computed = loaded.emit(
                    Step::Arithmetic { op: operation, lhs: s.next(), rhs: operand, folded: false },
                );
                Ok(
                    (
                        computed.emit(
                            Step::Store { pointer: binding.pointer, value: loaded.next() },
                        ),
                        Value::Void,
                    ),
                )
            },
            _ => Err(LowerError::TypeMismatch),
        },
    }
}

/// What assigning to a name gives, by the kind of assignment. Assignment
/// of a power has no lowering.
pub open spec fn assigned_name(
    s: CompilerModel,
    identifier: Seq<char>,
    kind: AssignmentType,
    assigned: Value,
    top: bool,
) -> Lowered {
    match kind {
        AssignmentType::Assign => assigned_fresh(s, identifier, assigned, top),
        AssignmentType::Pow => Err(LowerError::Unimplemented),
        _ => assigned_compound(s, identifier, compound(kind).unwrap(), assigned),
    }
}

/// What lowering an assignment gives: the value first, then the index
/// where there is one, then the assignment itself.
pub open spec fn lowered_assignment(s: CompilerModel, statement: StatementModel, top: bool) -> Lowered {
    match statement {
        StatementModel::Assignment { identifier, index, kind, value } => match lowered_expr(
            s,
            value,
        ) {
            Err(error) => Err(error),
            Ok((after_value, assigned)) => match index {
                Some(index) => match lowered_expr(after_value, index) {
                    Err(error) => Err(error),
                    Ok((after_index, place)) => assigned_element(
                        after_index,
                        identifier,
                        kind,
                        assigned,
                        place,
                    ),
                },
                None => assigned_name(after_value, identifier, kind, assigned, top),
            },
        },
        _ => Err(LowerError::Unimplemented),
    }
}

/// Binds a name in the innermost frame.
pub fn bind(compiler: &mut Compiler, identifier: &str, binding: Binding) -> (r: Result<
    Value,
    LowerError,
>)
    ensures
        agrees(r, final(compiler)@, with_binding(old(compiler)@, identifier@, binding)),
{
    match compiler.variables.bind(String::from_str(identifier), binding) {
        Ok(()) => Ok(Value::Void),
        Err(error) => Err(error),
    }
}

/// Assigns to an element of the array that a name is bound to.
pub fn assign_element(
    compiler: &mut Compiler,
    identifier: &str,
    kind: AssignmentType,
    assigned: Value,
    place: Value,
) -> (r: Result<Value, LowerError>)
    ensures
        agrees(
            r,
            final(compiler)@,
            assigned_element(old(compiler)@, identifier@, kind, assigned, place),
        ),
{
    if kind != AssignmentType::Assign {
        return Err(LowerError::Unimplemented);
    }
    let binding = match get_variable(&compiler.variables, identifier) {
        Ok(binding) => binding,
        Err(error) => {
            return Err(error);
        },
    };
    match place {
        Value::Float { id: number, constant, .. } => match binding.value.kind {
            Kind::Array { element, .. } => {
                let operand = match assigned.into_basic_value() {
                    Ok(operand) => operand,
                    Err(error) => {
                        return Err(error);
                    },
                };
                let position = compiler.emit(Step::ToIndex { value: number, folded: constant });
                let address = compiler.emit(
                    Step::ElementPointer { element, pointer: binding.pointer, index: position },
                );
                compiler.emit(Step::Store { pointer: address, value: operand.id });
                Ok(Value::Void)
            },
            _ => Err(LowerError::NotAnArray),
        },
        _ => Err(LowerError::IndexNotNumber),
    }
}

/// Assigns a value to a name in a fresh cell, and binds the name to it.
pub fn assign_fresh(
    compiler: &mut Compiler,
    identifier: &str,
    assigned: Value,
    main_function: bool,
) -> (r: Result<Value, LowerError>)
    ensures
        agrees(
            r,
            final(compiler)@,
            assigned_fresh(old(compiler)@, identifier@, assigned, main_function),
        ),
{
    let operand = match assigned.into_basic_value() {
        Ok(operand) => operand,
        Err(error) => {
            return Err(error);
        },
    };
    if main_function {
        let pointer = match assigned.global_alloca(compiler, identifier) {
            Ok(pointer) => pointer,
            Err(error) => {
                return Err(error);
            },
        };
        if !assigned.is_constant() {
            compiler.emit(Step::Store { pointer, value: operand.id });
        }
        bind(compiler, identifier, Binding { value: operand, pointer, global: true })
    } else {
        let pointer = match assigned.alloca(compiler, identifier) {
            Ok(pointer) => pointer,
            Err(error) => {
                return Err(error);
            },
        };
        compiler.emit(Step::Store { pointer, value: operand.id });
        bind(compiler, identifier, Binding { value: operand, pointer, global: false })
    }
}

/// Combines what a name's cell holds with a value, in that cell.
pub fn assign_compound(
    compiler: &mut Compiler,
    identifier: &str,
    operation: Arithmetic,
    assigned: Value,
) -> (r: Result<Value, LowerError>)
    ensures
        agrees(
            r,
            final(compiler)@,
            assigned_compound(old(compiler)@, identifier@, operation, assigned),
        ),
{
    let binding = match get_variable(&compiler.variables, identifier) {
        Ok(binding) => binding,
        Err(error) => {
            return Err(error);
        },
    };
    match (binding.value.kind, assigned) {
        (Kind::Number, Value::Float { id: operand, .. }) => {
            let loaded = compiler.emit(
                Step::Load { kind: binding.value.kind, pointer: binding.pointer },
            );
            let computed = compiler.emit(
                Step::Arithmetic { op: operation, lhs: loaded, rhs: operand, folded: false },
            );
            compiler.emit(Step::Store { pointer: binding.pointer, value: computed });
            Ok(Value::Void)
        },
        _ => Err(LowerError::TypeMismatch),
    }
}

/// Lowers an assignment.
///
/// A plain assignment makes a fresh cell and binds the name anew. A
/// compound assignment changes what the existing cell holds and binds
/// nothing. `main_function` says whether the statement stands at top level,
/// where cells are globals of the module.
pub fn lower_assignment(compiler: &mut Compiler, statement: &Statement, main_function: bool) -> (r:
    Result<Value, LowerError>)
    ensures
        agrees(r, final(compiler)@, lowered_assignment(old(compiler)@, statement@, main_function)),
{
    match statement {
        Statement::Assignment { identifier, index, kind, value } => {
            let assigned = match lower_expr(compiler, value) {
                Ok(assigned) => assigned,
                Err(error) => {
                    return Err(error);
                },
            };
            match index {
                Some(index) => {
                    let place = match lower_expr(compiler, index) {
                        Ok(place) => place,
                        Err(error) => {
                            return Err(error);
                        },
                    };
                    assign_element(compiler, identifier.as_str(), *kind, assigned, place)
                },
                None => match kind {
                    AssignmentType::Assign => assign_fresh(
                        compiler,
                        identifier.as_str(),
                        assigned,
                        main_function,
                    ),
                    AssignmentType::Add => assign_compound(
                        compiler,
                        identifier.as_str(),
                        Arithmetic::Add,
                        assigned,
                    ),
                    AssignmentType::Sub => assign_compound(
                        compiler,
                        identifier.as_str(),
                        Arithmetic::Sub,
                        assigned,
                    ),
                    AssignmentType::Mul => assign_compound(
                        compiler,
                        identifier.as_str(),
                        Arithmetic::Mul,
                        assigned,
                    ),
                    AssignmentType::Div => assign_compound(
                        compiler,
                        identifier.as_str(),
                        Arithmetic::Div,
                        assigned,
                    ),
                    AssignmentType::Pow => Err(LowerError::Unimplemented),
                },
            }
        },
        _ => Err(LowerError::Unimplemented),
    }
}

/// Where a plain assignment puts its value.
///
/// At top level the name is bound to a global of the module, which is
/// named `global_` and the name, so that it can be found and set from
/// outside once the module is built. A constant is the initial content of
/// the global; any other value is stored into it by the last step.
/// Anywhere else the name is bound to a cell on the stack of the function
/// being built, and the last step stores the value into it.
pub proof fn lemma_assignment_storage(
    s: CompilerModel,
    identifier: Seq<char>,
    assigned: Value,
    top: bool,
)
    requires
        s.countable(),
    ensures
        assigned_fresh(s, identifier, assigned, top) matches Ok((after, _)) ==> {
            &&& assigned.operand() is Some
            &&& innermost(after.scopes, identifier) == Some(
                Binding { value: assigned.operand()->0, pointer: s.next(), global: top },
            )
            &&& after.steps.len() > s.next()
            &&& top ==> after.steps[s.next() as int] == (Step::Global {
                kind: assigned.operand()->0.kind,
                name: s.next_name(),
                initializer: if assigned.is_constant() {
                    Some(assigned.operand()->0.id)
                } else {
                    None
                },
            }) && after.names[s.next_name() as int] == global_name(identifier)
            &&& !top ==> after.steps[s.next() as int] is Alloca
            &&& !(top && assigned.is_constant()) ==> after.steps.last() == (Step::Store {
                pointer: s.next(),
                value: assigned.operand()->0.id,
            })
        },
{
    if let Some(operand) = assigned.operand() {
        if s.scopes.len() > 0 {
            lemma_bound_extends(
                s.scopes,
                identifier,
                Binding { value: operand, pointer: s.next(), global: top },
            );
        }
    }
}

/// A plain assignment statement binds its name to a global exactly where
/// it stands at top level, and the cell that it binds the name to holds
/// the value: as the initial content of the global, or by a store that is
/// the last step.
pub proof fn lemma_assignment_is_global_at_top_level(
    s: CompilerModel,
    statement: StatementModel,
    top: bool,
)
    requires
        statement matches StatementModel::Assignment { index, kind, .. } && index is None && kind
            == AssignmentType::Assign,
        lowered_statement(s, statement, top) matches Ok((after, _)) ==> after.countable(),
    ensures
        lowered_statement(s, statement, top) matches Ok((after, _)) ==> {
            let found = innermost(after.scopes, statement->Assignment_identifier);
            &&& found is Some
            &&& found->0.global == top
            &&& found->0.pointer < after.steps.len()
            &&& after.steps[found->0.pointer as int] is Global == top
            &&& (after.steps[found->0.pointer as int] is Global
                && after.steps[found->0.pointer as int]->Global_initializer == Some(
                found->0.value.id,
            )) || after.steps.last() == (Step::Store {
                pointer: found->0.pointer,
                value: found->0.value.id,
            })
        },
{
    match statement {
        StatementModel::Assignment { identifier, value, .. } => {
            if let Ok((after_value, assigned)) = lowered_expr(s, value) {
                if let Ok((after, _)) = assigned_fresh(after_value, identifier, assigned, top) {
                    assert(after.steps.len() >= after_value.steps.len());
                    assert(after.names.len() >= after_value.names.len());
                    lemma_assignment_storage(after_value, identifier, assigned, top);
                }
            }
        },
        _ => {},
    }
}

/// A compound assignment works on the cell that its name is bound to,
/// and binds nothing: the scopes stay as they are, and the last step
/// stores into that cell.
pub proof fn lemma_compound_assignment_keeps_cell(
    s: CompilerModel,
    statement: StatementModel,
    top: bool,
)
    requires
        statement matches StatementModel::Assignment { index, kind, .. } && index is None
            && compound(kind) is Some,
    ensures
        lowered_statement(s, statement, top) matches Ok((after, _)) ==> {
            &&& after.scopes == s.scopes
            &&& resolve(s.scopes, statement->Assignment_identifier) is Some
            &&& after.steps.len() > 0
            &&& after.steps.last() is Store
            &&& after.steps.last()->Store_pointer == resolve(
                s.scopes,
                statement->Assignment_identifier,
            )->0.pointer
        },
{
    match statement {
        StatementModel::Assignment { identifier, value, .. } => {
            lemma_expr_keeps_scopes(s, value);
        },
        _ => {},
    }
}

} // verus!
