//! How lowering treats the scopes: expressions leave them alone, statements
//! change the innermost frame only, and blocks open no frame.
use crate::compiler::codegen::basic::assignment::with_binding;
use crate::compiler::codegen::basic::function_definition::{
    bound_parameters, declared_parameters, entered, lowered_function_definition, parameter_kinds,
};
use crate::compiler::codegen::control_flow::if_statement::{
    forked, guarded, lowered_branches, lowered_if_statement,
};
use crate::compiler::codegen::expr::array::{id_of, lowered_items, with_operands};
use crate::compiler::codegen::expr::function_call::lowered_arguments;
use crate::compiler::codegen::expr::lowered_expr;
use crate::compiler::codegen::looping::for_loop::{
    advanced, loop_meta, lowered_for_loop, prepared, Walk,
};
use crate::compiler::codegen::looping::while_loop::{entered_loop, lowered_while_loop};
use crate::compiler::codegen::scope::{bound, innermost, resolve, Binding};
use crate::compiler::codegen::value::{allocated, Operand, Value};
use crate::compiler::codegen::{any_type, lowered_block, lowered_statement};
use crate::compiler::module::{Kind, Origin, Scalar, Step};
use crate::compiler::{CompilerModel, FunctionModel};
use crate::parser::ast::{AssignmentType, StatementModel, TypeModel};
use crate::parser::expr::ExprModel;
use vstd::prelude::*;

verus! {

/// Whether `after` are the scopes `before` with nothing changed but the
/// innermost frame, which binds at least the names it bound.
pub open spec fn extends(
    before: Seq<Map<Seq<char>, Binding>>,
    after: Seq<Map<Seq<char>, Binding>>,
) -> bool {
    &&& before.len() > 0
    &&& after.len() == before.len()
    &&& after.drop_last() == before.drop_last()
    &&& forall|name: Seq<char>|
        before.last().contains_key(name) ==> after.last().contains_key(name)
}

/// Binding a name changes the innermost frame only, and the name is bound
/// in it afterwards.
pub proof fn lemma_bound_extends(
    scopes: Seq<Map<Seq<char>, Binding>>,
    name: Seq<char>,
    binding: Binding,
)
    requires
        scopes.len() > 0,
    ensures
        extends(scopes, bound(scopes, name, binding)),
        innermost(bound(scopes, name, binding), name) == Some(binding),
{
    assert(bound(scopes, name, binding).drop_last() =~= scopes.drop_last());
}

/// Giving operands takes steps and changes nothing else.
pub proof fn lemma_operands_keep(s: CompilerModel, values: Seq<Value>, at: int)
    ensures
        with_operands(s, values, at).scopes == s.scopes,
        with_operands(s, values, at).functions == s.functions,
        with_operands(s, values, at).function == s.function,
    decreases values.len() - at,
{
    if 0 <= at < values.len() {
        lemma_operands_keep(
            s.emit(Step::Element { value: id_of(values[at]) }),
            values,
            at + 1,
        );
    }
}

/// Lowering an expression leaves the scopes, the functions of the module
/// and the function being built as they were.
pub proof fn lemma_expr_keeps_scopes(s: CompilerModel, e: ExprModel)
    ensures
        lowered_expr(s, e) matches Ok((after, _)) ==> after.scopes == s.scopes && after.functions
            == s.functions && after.function == s.function,
    decreases e, 1nat,
{
    match e {
        ExprModel::FunctionCall { identifier, parameters, .. } => {
            lemma_arguments_keep_scopes(s, parameters, 0, Seq::empty());
            if let Ok((after, values)) = lowered_arguments(s, parameters, 0, Seq::empty()) {
                lemma_operands_keep(after, values, 0);
            }
        },
        ExprModel::UnaryMinus(inner) => {
            lemma_expr_keeps_scopes(s, *inner);
        },
        ExprModel::Array(items) => {
            lemma_items_keep_scopes(s, items, 0, Seq::empty());
            if let Ok((after, values)) = lowered_items(s, items, 0, Seq::empty()) {
                lemma_operands_keep(after, values, 0);
            }
        },
        ExprModel::ArrayIndex { array, index } => {
            lemma_expr_keeps_scopes(s, *array);
            if let Ok((after, _)) = lowered_expr(s, *array) {
                lemma_expr_keeps_scopes(after, *index);
            }
        },
        ExprModel::BinOp { lhs, rhs, .. } => {
            lemma_expr_keeps_scopes(s, *lhs);
            if let Ok((after, _)) = lowered_expr(s, *lhs) {
                lemma_expr_keeps_scopes(after, *rhs);
            }
        },
        _ => {},
    }
}

/// Lowering a list of expressions keeps what lowering one keeps.
pub proof fn lemma_items_keep_scopes(
    s: CompilerModel,
    items: Seq<ExprModel>,
    at: int,
    found: Seq<Value>,
)
    ensures
        lowered_items(s, items, at, found) matches Ok((after, _)) ==> after.scopes == s.scopes
            && after.functions == s.functions && after.function == s.function,
    decreases items, items.len() - at,
{
    if 0 <= at < items.len() {
        lemma_expr_keeps_scopes(s, items[at]);
        if let Ok((after, value)) = lowered_expr(s, items[at]) {
            lemma_items_keep_scopes(after, items, at + 1, found.push(value));
        }
    }
}

/// Lowering the arguments of a call keeps what lowering one keeps.
pub proof fn lemma_arguments_keep_scopes(
    s: CompilerModel,
    arguments: Seq<ExprModel>,
    at: int,
    found: Seq<Value>,
)
    ensures
        lowered_arguments(s, arguments, at, found) matches Ok((after, _)) ==> after.scopes
            == s.scopes && after.functions == s.functions && after.function == s.function,
    decreases arguments, arguments.len() - at,
{
    if 0 <= at < arguments.len() {
        lemma_expr_keeps_scopes(s, arguments[at]);
        if let Ok((after, value)) = lowered_expr(s, arguments[at]) {
            if value.scalar() is Some {
                lemma_arguments_keep_scopes(after, arguments, at + 1, found.push(value));
            }
        }
    }
}

/// Declaring parameters takes steps and changes nothing else.
pub proof fn lemma_declared_parameters_keep(
    s: CompilerModel,
    kinds: Seq<Scalar>,
    at: int,
    found: Seq<usize>,
)
    ensures
        declared_parameters(s, kinds, at, found).0.scopes == s.scopes,
    decreases kinds.len() - at,
{
    if 0 <= at < kinds.len() {
        lemma_declared_parameters_keep(
            s.emit(Step::Parameter { kind: kinds[at] }),
            kinds,
            at + 1,
            found.push(s.next()),
        );
    }
}

/// Binding the parameters of a function changes the innermost frame only.
pub proof fn lemma_bound_parameters_extend(
    s: CompilerModel,
    parameters: Seq<(Seq<char>, TypeModel)>,
    kinds: Seq<Scalar>,
    received: Seq<usize>,
    at: int,
)
    requires
        s.scopes.len() > 0,
    ensures
        bound_parameters(s, parameters, kinds, received, at) matches Ok(after) ==> extends(
            s.scopes,
            after.scopes,
        ),
    decreases parameters.len() - at,
{
    if 0 <= at < parameters.len() && at < kinds.len() && at < received.len() {
        let operand = Operand {
            id: received[at],
            kind: kinds[at].kind(),
        };
        if let Ok((made, pointer)) = allocated(s, Value::of(operand), parameters[at].0) {
            let stored = made.emit(Step::Store { pointer, value: operand.id });
            let binding = Binding { value: operand, pointer, global: false };
            lemma_bound_extends(stored.scopes, parameters[at].0, binding);
            if let Ok((after, _)) = with_binding(stored, parameters[at].0, binding) {
                lemma_bound_parameters_extend(after, parameters, kinds, received, at + 1);
            }
        }
    }
}

/// The steps around the body of a `for` loop change the innermost frame
/// only, and the loop's name is bound in it afterwards.
pub proof fn lemma_loop_meta_extends(s: CompilerModel, identifier: Seq<char>, walk: Walk)
    requires
        s.scopes.len() > 0,
    ensures
        loop_meta(s, identifier, walk) matches Ok(after) ==> extends(s.scopes, after.scopes)
            && innermost(after.scopes, identifier) is Some,
{
    if innermost(s.scopes, identifier) is None {
        let loaded = s.emit(Step::Load { kind: Kind::Index, pointer: walk.index_cell });
        let address = loaded.emit(
            Step::ElementPointer { element: walk.element, pointer: walk.array_cell, index: s.next() },
        );
        let element = address.next();
        let fetched = address.emit(Step::Load { kind: walk.element.kind(), pointer: loaded.next() });
        let binding = Binding {
            value: Operand { id: element, kind: walk.element.kind() },
            pointer: fetched.next(),
            global: false,
        };
        lemma_bound_extends(s.scopes, identifier, binding);
    }
}

/// Lowering a statement changes the innermost frame only: the frames
/// around it stay as they are, no frame is opened or closed for good, and
/// no name is unbound.
pub proof fn lemma_statement_extends(s: CompilerModel, statement: StatementModel, top: bool)
    requires
        s.scopes.len() > 0,
    ensures
        lowered_statement(s, statement, top) matches Ok((after, _)) ==> extends(
            s.scopes,
            after.scopes,
        ),
    decreases statement, 1nat,
{
    match statement {
        StatementModel::Assignment { identifier, index, kind, value } => {
            lemma_expr_keeps_scopes(s, value);
            if let Ok((after_value, assigned)) = lowered_expr(s, value) {
                match index {
                    Some(index) => {
                        lemma_expr_keeps_scopes(after_value, index);
                    },
                    None => {
                        if kind == AssignmentType::Assign {
                            if let Some(operand) = assigned.operand() {
                                lemma_bound_extends(
                                    s.scopes,
                                    identifier,
                                    Binding { value: operand, pointer: after_value.next(), global: top },
                                );
                            }
                        }
                    },
                }
            }
        },
        StatementModel::FunctionDefinition { .. } => {
            lemma_function_definition_keeps_scopes(s, statement);
        },
        StatementModel::Return { value } => {
            lemma_expr_keeps_scopes(s, value);
        },
        StatementModel::WhileLoop { condition, body } => {
            lemma_expr_keeps_scopes(s, condition);
            if let Ok((inside, _)) = entered_loop(s, condition) {
                lemma_block_extends(inside, body, 0, false);
                if let Ok(done) = lowered_block(inside, body, 0, false) {
                    lemma_expr_keeps_scopes(done, condition);
                }
            }
        },
        StatementModel::ForLoop { identifier, expression, body, .. } => {
            lemma_for_loop_extends(s, statement);
        },
        StatementModel::IfStatement { condition, body, else_ifs, else_body } => {
            lemma_guarded_extends(s, condition, body, None);
            if let Ok((after_body, merge)) = guarded(s, condition, body, None) {
                lemma_branches_extend(after_body, else_ifs, 0, merge);
                if let Ok(after_branches) = lowered_branches(after_body, else_ifs, 0, merge) {
                    lemma_block_extends(after_branches, else_body, 0, false);
                }
            }
        },
        StatementModel::ForeignModule(file) => {
            lemma_block_extends(s, file.statements, 0, top);
        },
        StatementModel::Expr { expr } => {
            lemma_expr_keeps_scopes(s, expr);
        },
        StatementModel::Comment(_) => {},
    }
}

/// Lowering a `for` changes the innermost frame only, and the loop's name
/// is bound in it afterwards.
pub proof fn lemma_for_loop_extends(s: CompilerModel, statement: StatementModel)
    requires
        s.scopes.len() > 0,
        statement is ForLoop,
    ensures
        lowered_for_loop(s, statement) matches Ok((after, _)) ==> extends(s.scopes, after.scopes)
            && innermost(after.scopes, statement->ForLoop_identifier) is Some,
    decreases statement, 0nat,
{
    match statement {
        StatementModel::ForLoop { identifier, expression, body, .. } => {
            lemma_expr_keeps_scopes(s, expression);
            if let Ok((computed, value)) = lowered_expr(s, expression) {
                if let Value::Array { id, len, element, .. } = value {
                    let (ready, walk) = prepared(computed, id, len, element);
                    lemma_loop_meta_extends(ready, identifier, walk);
                    if let Ok(checked) = loop_meta(ready, identifier, walk) {
                        let inside = checked.emit(Step::PositionAtEnd { block: walk.loop_block });
                        lemma_block_extends(inside, body, 0, false);
                        if let Ok(done) = lowered_block(inside, body, 0, false) {
                            lemma_loop_meta_extends(advanced(done, walk), identifier, walk);
                        }
                    }
                }
            }
        },
        _ => {},
    }
}

/// Lowering a function definition leaves the scopes as they were: the
/// frame that is opened for the body is closed again, and what the body
/// binds is bound in that frame only.
pub proof fn lemma_function_definition_keeps_scopes(s: CompilerModel, statement: StatementModel)
    requires
        statement is FunctionDefinition,
    ensures
        lowered_function_definition(s, statement) matches Ok((after, _)) ==> after.scopes
            == s.scopes,
    decreases statement, 0nat,
{
    match statement {
        StatementModel::FunctionDefinition { identifier, parameters, return_type_hint, body, .. } => {
            if let Ok(result) = any_type(return_type_hint) {
                if let Ok(kinds) = parameter_kinds(parameters, 0, Seq::empty()) {
                    let (inside, received) = entered(s, identifier, result, kinds);
                    let declared = s.intern(identifier).emit(
                        Step::DeclareFunction {
                            name: s.next_name(),
                            result,
                            arity: kinds.len() as usize,
                            origin: Origin::Defined,
                        },
                    ).declare(
                        FunctionModel {
                            name: identifier,
                            id: s.next(),
                            result,
                        },
                    );
                    lemma_declared_parameters_keep(declared, kinds, 0, Seq::empty());
                    assert(inside.scopes == s.scopes.push(Map::empty()));
                    assert(inside.scopes.drop_last() =~= s.scopes);
                    lemma_bound_parameters_extend(inside, parameters, kinds, received, 0);
                    if let Ok(ready) = bound_parameters(inside, parameters, kinds, received, 0) {
                        lemma_block_extends(ready, body, 0, false);
                    }
                }
            }
        },
        _ => {},
    }
}

/// Lowering statements one after the other changes the innermost frame
/// only.
pub proof fn lemma_block_extends(
    s: CompilerModel,
    statements: Seq<StatementModel>,
    at: int,
    top: bool,
)
    requires
        s.scopes.len() > 0,
    ensures
        lowered_block(s, statements, at, top) matches Ok(after) ==> extends(s.scopes, after.scopes),
    decreases statements, statements.len() - at,
{
    if 0 <= at < statements.len() {
        lemma_statement_extends(s, statements[at], top);
        if let Ok((after, _)) = lowered_statement(s, statements[at], top) {
            lemma_block_extends(after, statements, at + 1, top);
        }
    }
}

/// Lowering a condition with its body changes the innermost frame only.
pub proof fn lemma_guarded_extends(
    s: CompilerModel,
    condition: ExprModel,
    body: Seq<StatementModel>,
    merge: Option<usize>,
)
    requires
        s.scopes.len() > 0,
    ensures
        guarded(s, condition, body, merge) matches Ok((after, _)) ==> extends(
            s.scopes,
            after.scopes,
        ),
    decreases body, body.len() + 1,
{
    lemma_expr_keeps_scopes(s, condition);
    if let Ok((inside, _)) = forked(s, condition, merge) {
        lemma_block_extends(inside, body, 0, false);
    }
}

/// Lowering the `elif` branches of an `if` changes the innermost frame
/// only.
pub proof fn lemma_branches_extend(
    s: CompilerModel,
    branches: Seq<(ExprModel, Seq<StatementModel>)>,
    at: int,
    merge: usize,
)
    requires
        s.scopes.len() > 0,
    ensures
        lowered_branches(s, branches, at, merge) matches Ok(after) ==> extends(
            s.scopes,
            after.scopes,
        ),
    decreases branches, branches.len() - at,
{
    if 0 <= at < branches.len() {
        lemma_guarded_extends(s, branches[at].0, branches[at].1, Some(merge));
        if let Ok((after, _)) = guarded(s, branches[at].0, branches[at].1, Some(merge)) {
            lemma_branches_extend(after, branches, at + 1, merge);
        }
    }
}

/// Whether lowering the statement binds `name` in the frame in which the
/// statement stands: by a plain assignment to the name, as the name of a
/// `for` loop, or by a statement that does so inside the blocks of an `if`,
/// a `while` or a `for`, or in an imported file. What the body of a
/// function binds is not bound where the definition stands.
pub open spec fn binds(statement: StatementModel, name: Seq<char>) -> bool
    decreases statement, 1nat,
{
    match statement {
        StatementModel::Assignment { identifier, index, kind, .. } => identifier == name
            && index is None && kind == AssignmentType::Assign,
        StatementModel::WhileLoop { body, .. } => block_binds(body, 0, name),
        StatementModel::ForLoop { identifier, body, .. } => identifier == name || block_binds(
            body,
            0,
            name,
        ),
        StatementModel::IfStatement { body, else_ifs, else_body, .. } => block_binds(body, 0, name)
            || branches_bind(else_ifs, 0, name) || block_binds(else_body, 0, name),
        StatementModel::ForeignModule(file) => block_binds(file.statements, 0, name),
        _ => false,
    }
}

/// Whether one of the statements from `at` on binds `name`.
pub open spec fn block_binds(statements: Seq<StatementModel>, at: int, name: Seq<char>) -> bool
    decreases statements, statements.len() - at,
{
    if at < 0 || at >= statements.len() {
        false
    } else {
        binds(statements[at], name) || block_binds(statements, at + 1, name)
    }
}

/// Whether the body of one of the branches from `at` on binds `name`.
pub open spec fn branches_bind(
    branches: Seq<(ExprModel, Seq<StatementModel>)>,
    at: int,
    name: Seq<char>,
) -> bool
    decreases branches, branches.len() - at,
{
    if at < 0 || at >= branches.len() {
        false
    } else {
        block_binds(branches[at].1, 0, name) || branches_bind(branches, at + 1, name)
    }
}

/// A name that a statement binds can be resolved after the statement, in
/// the same frame. In particular a variable that is first assigned inside
/// the block of an `if`, a `while` or a `for` is still bound where the
/// block has closed.
pub proof fn lemma_statement_binds(
    s: CompilerModel,
    statement: StatementModel,
    top: bool,
    name: Seq<char>,
)
    requires
        s.scopes.len() > 0,
        binds(statement, name),
    ensures
        lowered_statement(s, statement, top) matches Ok((after, _)) ==> {
            &&& after.scopes.len() == s.scopes.len()
            &&& innermost(after.scopes, name) is Some
            &&& resolve(after.scopes, name) is Some
        },
    decreases statement, 1nat,
{
    lemma_statement_extends(s, statement, top);
    match statement {
        StatementModel::Assignment { identifier, value, .. } => {
            lemma_expr_keeps_scopes(s, value);
            if let Ok((after_value, assigned)) = lowered_expr(s, value) {
                if let Some(operand) = assigned.operand() {
                    lemma_bound_extends(
                        s.scopes,
                        identifier,
                        Binding { value: operand, pointer: after_value.next(), global: top },
                    );
                }
            }
        },
        StatementModel::WhileLoop { .. } => {
            lemma_while_binds(s, statement, name);
        },
        StatementModel::ForLoop { .. } => {
            lemma_for_binds(s, statement, name);
        },
        StatementModel::IfStatement { .. } => {
            lemma_if_binds(s, statement, name);
        },
        StatementModel::ForeignModule(file) => {
            lemma_block_binds(s, file.statements, 0, top, name);
        },
        _ => {},
    }
}

/// A name that the body of a `while` binds is bound after the loop.
pub proof fn lemma_while_binds(s: CompilerModel, statement: StatementModel, name: Seq<char>)
    requires
        s.scopes.len() > 0,
        statement is WhileLoop,
        binds(statement, name),
    ensures
        lowered_while_loop(s, statement) matches Ok((after, _)) ==> innermost(after.scopes, name)
            is Some,
    decreases statement, 0nat,
{
    match statement {
        StatementModel::WhileLoop { condition, body } => {
            lemma_expr_keeps_scopes(s, condition);
            if let Ok((inside, _)) = entered_loop(s, condition) {
                lemma_block_binds(inside, body, 0, false, name);
                if let Ok(done) = lowered_block(inside, body, 0, false) {
                    lemma_expr_keeps_scopes(done, condition);
                }
            }
        },
        _ => {},
    }
}

/// The name of a `for` loop, and a name that its body binds, are bound
/// after the loop.
pub proof fn lemma_for_binds(s: CompilerModel, statement: StatementModel, name: Seq<char>)
    requires
        s.scopes.len() > 0,
        statement is ForLoop,
        binds(statement, name),
    ensures
        lowered_for_loop(s, statement) matches Ok((after, _)) ==> innermost(after.scopes, name)
            is Some,
    decreases statement, 0nat,
{
    lemma_for_loop_extends(s, statement);
    match statement {
        StatementModel::ForLoop { identifier, expression, body, .. } => {
            lemma_expr_keeps_scopes(s, expression);
            if let Ok((computed, value)) = lowered_expr(s, expression) {
                if let Value::Array { id, len, element, .. } = value {
                    let (ready, walk) = prepared(computed, id, len, element);
                    lemma_loop_meta_extends(ready, identifier, walk);
                    if let Ok(checked) = loop_meta(ready, identifier, walk) {
                        let inside = checked.emit(Step::PositionAtEnd { block: walk.loop_block });
                        lemma_block_extends(inside, body, 0, false);
                        if block_binds(body, 0, name) {
                            lemma_block_binds(inside, body, 0, false, name);
                        }
                        if let Ok(done) = lowered_block(inside, body, 0, false) {
                            lemma_loop_meta_extends(advanced(done, walk), identifier, walk);
                        }
                    }
                }
            }
        },
        _ => {},
    }
}

/// A name that the body of the `if`, of an `elif` or of the `else` binds is
/// bound after the whole statement.
pub proof fn lemma_if_binds(s: CompilerModel, statement: StatementModel, name: Seq<char>)
    requires
        s.scopes.len() > 0,
        statement is IfStatement,
        binds(statement, name),
    ensures
        lowered_if_statement(s, statement) matches Ok((after, _)) ==> innermost(after.scopes, name)
            is Some,
    decreases statement, 0nat,
{
    match statement {
        StatementModel::IfStatement { condition, body, else_ifs, else_body } => {
            lemma_guarded_extends(s, condition, body, None);
            if block_binds(body, 0, name) {
                lemma_guarded_binds(s, condition, body, None, name);
            }
            if let Ok((after_body, merge)) = guarded(s, condition, body, None) {
                lemma_branches_extend(after_body, else_ifs, 0, merge);
                if branches_bind(else_ifs, 0, name) {
                    lemma_branches_bind(after_body, else_ifs, 0, merge, name);
                }
                if let Ok(after_branches) = lowered_branches(after_body, else_ifs, 0, merge) {
                    lemma_block_extends(after_branches, else_body, 0, false);
                    if block_binds(else_body, 0, name) {
                        lemma_block_binds(after_branches, else_body, 0, false, name);
                    }
                }
            }
        },
        _ => {},
    }
}

/// A name that one of the statements of a block binds is bound after the
/// block.
pub proof fn lemma_block_binds(
    s: CompilerModel,
    statements: Seq<StatementModel>,
    at: int,
    top: bool,
    name: Seq<char>,
)
    requires
        s.scopes.len() > 0,
        block_binds(statements, at, name),
    ensures
        lowered_block(s, statements, at, top) matches Ok(after) ==> innermost(after.scopes, name)
            is Some,
    decreases statements, statements.len() - at,
{
    lemma_statement_extends(s, statements[at], top);
    if let Ok((after, _)) = lowered_statement(s, statements[at], top) {
        if binds(statements[at], name) {
            lemma_statement_binds(s, statements[at], top, name);
            lemma_block_extends(after, statements, at + 1, top);
        } else {
            lemma_block_binds(after, statements, at + 1, top, name);
        }
    }
}

/// A name that the body of a condition binds is bound after it.
pub proof fn lemma_guarded_binds(
    s: CompilerModel,
    condition: ExprModel,
    body: Seq<StatementModel>,
    merge: Option<usize>,
    name: Seq<char>,
)
    requires
        s.scopes.len() > 0,
        block_binds(body, 0, name),
    ensures
        guarded(s, condition, body, merge) matches Ok((after, _)) ==> innermost(after.scopes, name)
            is Some,
    decreases body, body.len() + 1,
{
    lemma_expr_keeps_scopes(s, condition);
    if let Ok((inside, _)) = forked(s, condition, merge) {
        lemma_block_binds(inside, body, 0, false, name);
    }
}

/// A name that the body of one of the `elif` branches binds is bound after
/// the branches.
pub proof fn lemma_branches_bind(
    s: CompilerModel,
    branches: Seq<(ExprModel, Seq<StatementModel>)>,
    at: int,
    merge: usize,
    name: Seq<char>,
)
    requires
        s.scopes.len() > 0,
        branches_bind(branches, at, name),
    ensures
        lowered_branches(s, branches, at, merge) matches Ok(after) ==> innermost(after.scopes, name)
            is Some,
    decreases branches, branches.len() - at,
{
    lemma_guarded_extends(s, branches[at].0, branches[at].1, Some(merge));
    if let Ok((after, _)) = guarded(s, branches[at].0, branches[at].1, Some(merge)) {
        if block_binds(branches[at].1, 0, name) {
            lemma_guarded_binds(s, branches[at].0, branches[at].1, Some(merge), name);
            lemma_branches_extend(after, branches, at + 1, merge);
        } else {
            lemma_branches_bind(after, branches, at + 1, merge, name);
        }
    }
}

} // verus!
