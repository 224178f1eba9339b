//! Statements are lowered in order.
use crate::compiler::codegen::basic::assignment::{
    assigned_element, assigned_name, lowered_assignment, with_binding,
};
use crate::compiler::codegen::basic::function_definition::{
    bound_parameters, declared_parameters, entered, left, lowered_function_definition,
    parameter_kinds,
};
use crate::compiler::codegen::basic::return_statement::lowered_return;
use crate::compiler::codegen::control_flow::if_statement::{
    condition_of, forked, guarded, joined, lowered_branches, lowered_if_statement,
};
use crate::compiler::codegen::expr::lowered_expr;
use crate::compiler::codegen::looping::for_loop::{advanced, loop_meta, prepared, Walk};
use crate::compiler::codegen::looping::while_loop::{entered_loop, lowered_while_loop, tested};
use crate::compiler::codegen::order::{
    block_before, cell_before, function_before, grows, lemma_bind_sound, lemma_grows_on,
    lemma_pop_sound, lemma_push_sound, sound, value_before, value_sound,
};
use crate::compiler::codegen::order::expressions::{
    lemma_expr_in_order, lemma_resolved_is_bound, lowered_in_order,
};
use crate::compiler::codegen::order::loops::lemma_for_in_order;
use crate::compiler::codegen::scope::{innermost, Binding};
use crate::compiler::codegen::value::{allocated, allocated_global, LowerError, Operand, Value};
use crate::compiler::codegen::{any_type, lowered_block, lowered_statement};
use crate::compiler::module::{Kind, Label, Origin, Scalar, Step};
use crate::compiler::{find_function, CompilerModel, FunctionModel};
use crate::parser::ast::{AssignmentType, StatementModel, TypeModel};
use crate::parser::expr::ExprModel;
use vstd::prelude::*;

verus! {

broadcast use crate::compiler::codegen::order::group_order;

/// Whether lowering gave a state that keeps the steps that were there, and
/// is sound where the state before was.
pub open spec fn state_in_order(s: CompilerModel, lowered: Result<CompilerModel, LowerError>) -> bool {
    lowered matches Ok(after) ==> grows(s, after) && (sound(s) && after.countable() ==> sound(
        after,
    ))
}

/// A cell that is made for a value exists among the steps afterwards.
pub proof fn lemma_allocated_in_order(s: CompilerModel, value: Value, identifier: Seq<char>)
    ensures
        allocated(s, value, identifier) matches Ok((made, pointer)) ==> grows(s, made) && (sound(s)
            && made.countable() ==> sound(made) && cell_before(
            made.steps,
            pointer,
            made.steps.len() as int,
        )),
{
}

/// A global that is made for a value exists among the steps afterwards.
pub proof fn lemma_allocated_global_in_order(s: CompilerModel, value: Value, identifier: Seq<char>)
    ensures
        allocated_global(s, value, identifier) matches Ok((made, pointer)) ==> grows(s, made) && (
        sound(s) && made.countable() && value_sound(s, value) ==> sound(made) && cell_before(
            made.steps,
            pointer,
            made.steps.len() as int,
        )),
{
}

/// Binding a name to a cell that exists keeps a sound state sound.
pub proof fn lemma_with_binding_in_order(s: CompilerModel, name: Seq<char>, binding: Binding)
    ensures
        with_binding(s, name, binding) matches Ok((after, _)) ==> grows(s, after) && (sound(s)
            && cell_before(s.steps, binding.pointer, s.steps.len() as int) ==> sound(after)),
{
    if s.scopes.len() > 0 && sound(s) && cell_before(
        s.steps,
        binding.pointer,
        s.steps.len() as int,
    ) {
        lemma_bind_sound(s, name, binding);
    }
}

/// An assignment is lowered in order.
pub proof fn lemma_assignment_in_order(s: CompilerModel, statement: StatementModel, top: bool)
    requires
        statement is Assignment,
    ensures
        lowered_in_order(s, lowered_assignment(s, statement, top)),
{
    match statement {
        StatementModel::Assignment { identifier, index, kind, value } => {
            lemma_expr_in_order(s, value);
            if let Ok((after_value, assigned)) = lowered_expr(s, value) {
                match index {
                    Some(index) => {
                        lemma_expr_in_order(after_value, index);
                        if let Ok((after_index, place)) = lowered_expr(after_value, index) {
                            lemma_grows_on(s, after_value, after_index);
                            lemma_resolved_is_bound(after_index.scopes, identifier);
                            if let Ok((after, _)) = assigned_element(
                                after_index,
                                identifier,
                                kind,
                                assigned,
                                place,
                            ) {
                                lemma_grows_on(s, after_index, after);
                                lemma_grows_on(after_value, after_index, after);
                                if sound(s) && after.countable() {
                                    assert(sound(after_value));
                                    assert(value_sound(after_value, assigned));
                                    assert(sound(after_index));
                                    assert(value_sound(after_index, assigned));
                                }
                            }
                        }
                    },
                    None => {
                        lemma_assigned_name_in_order(after_value, identifier, kind, assigned, top);
                        if let Ok((after, _)) = assigned_name(
                            after_value,
                            identifier,
                            kind,
                            assigned,
                            top,
                        ) {
                            lemma_grows_on(s, after_value, after);
                        }
                    },
                }
            }
        },
        _ => {},
    }
}

/// An assignment to a name is lowered in order.
pub proof fn lemma_assigned_name_in_order(
    s: CompilerModel,
    identifier: Seq<char>,
    kind: AssignmentType,
    assigned: Value,
    top: bool,
)
    ensures
        assigned_name(s, identifier, kind, assigned, top) matches Ok((after, _)) ==> grows(s, after)
            && (sound(s) && after.countable() && value_sound(s, assigned) ==> sound(after)),
{
    if kind == AssignmentType::Assign {
        if let Some(operand) = assigned.operand() {
            if top {
                lemma_allocated_global_in_order(s, assigned, identifier);
                if let Ok((made, pointer)) = allocated_global(s, assigned, identifier) {
                    lemma_with_binding_in_order(
                        made,
                        identifier,
                        Binding { value: operand, pointer, global: true },
                    );
                }
            } else {
                lemma_allocated_in_order(s, assigned, identifier);
                if let Ok((made, pointer)) = allocated(s, assigned, identifier) {
                    let stored = made.emit(Step::Store { pointer, value: operand.id });
                    lemma_with_binding_in_order(
                        stored,
                        identifier,
                        Binding { value: operand, pointer, global: false },
                    );
                    lemma_grows_on(s, made, stored);
                }
            }
        }
    } else {
        lemma_resolved_is_bound(s.scopes, identifier);
    }
}

/// A `return` is lowered in order.
pub proof fn lemma_return_in_order(s: CompilerModel, statement: StatementModel)
    requires
        statement is Return,
    ensures
        lowered_in_order(s, lowered_return(s, statement)),
{
    match statement {
        StatementModel::Return { value } => {
            lemma_expr_in_order(s, value);
            if let Ok((after, returned)) = lowered_expr(s, value) {
                if let Ok((done, _)) = lowered_return(s, statement) {
                    lemma_grows_on(s, after, done);
                }
            }
        },
        _ => {},
    }
}

/// Whether all the numbers are values among the steps of the state.
pub open spec fn all_values(s: CompilerModel, ids: Seq<usize>) -> bool {
    forall|k: int|
        0 <= k < ids.len() ==> value_before(s.steps, #[trigger] ids[k], s.steps.len() as int)
}

/// Declaring parameters keeps a sound state sound, and the parameters are
/// values among the steps.
pub proof fn lemma_declared_parameters_in_order(
    s: CompilerModel,
    kinds: Seq<Scalar>,
    at: int,
    found: Seq<usize>,
)
    ensures
        grows(s, declared_parameters(s, kinds, at, found).0),
        declared_parameters(s, kinds, at, found).0.scopes == s.scopes,
        declared_parameters(s, kinds, at, found).0.function == s.function,
        sound(s) && declared_parameters(s, kinds, at, found).0.countable() && all_values(s, found)
            ==> sound(declared_parameters(s, kinds, at, found).0) && all_values(
            declared_parameters(s, kinds, at, found).0,
            declared_parameters(s, kinds, at, found).1,
        ),
    decreases kinds.len() - at,
{
    if 0 <= at < kinds.len() {
        let next = s.emit(Step::Parameter { kind: kinds[at] });
        lemma_declared_parameters_in_order(next, kinds, at + 1, found.push(s.next()));
        let after = declared_parameters(s, kinds, at, found).0;
        lemma_grows_on(s, next, after);
        if sound(s) && after.countable() && all_values(s, found) {
            assert forall|k: int| 0 <= k < found.push(s.next()).len() implies value_before(
                next.steps,
                #[trigger] found.push(s.next())[k],
                next.steps.len() as int,
            ) by {
                if k < found.len() {
                    assert(value_before(s.steps, found[k], s.steps.len() as int));
                }
            }
        }
    }
}

/// Binding the parameters of a function keeps a sound state sound.
pub proof fn lemma_bound_parameters_in_order(
    s: CompilerModel,
    parameters: Seq<(Seq<char>, TypeModel)>,
    kinds: Seq<Scalar>,
    received: Seq<usize>,
    at: int,
)
    ensures
        bound_parameters(s, parameters, kinds, received, at) matches Ok(after) ==> grows(s, after)
            && (sound(s) && after.countable() && all_values(s, received) ==> sound(after)),
    decreases parameters.len() - at,
{
    if 0 <= at < parameters.len() && at < kinds.len() && at < received.len() {
        let operand = Operand { id: received[at], kind: kinds[at].kind() };
        lemma_allocated_in_order(s, Value::of(operand), parameters[at].0);
        if let Ok((made, pointer)) = allocated(s, Value::of(operand), parameters[at].0) {
            let stored = made.emit(Step::Store { pointer, value: operand.id });
            let binding = Binding { value: operand, pointer, global: false };
            lemma_with_binding_in_order(stored, parameters[at].0, binding);
            if let Ok((next, _)) = with_binding(stored, parameters[at].0, binding) {
                lemma_bound_parameters_in_order(next, parameters, kinds, received, at + 1);
                if let Ok(after) = bound_parameters(next, parameters, kinds, received, at + 1) {
                    lemma_grows_on(s, made, stored);
                    lemma_grows_on(s, stored, next);
                    lemma_grows_on(s, next, after);
                    if sound(s) && after.countable() && all_values(s, received) {
                        assert(value_before(s.steps, received[at], s.steps.len() as int));
                        assert(sound(made));
                        assert(sound(stored));
                        assert(sound(next));
                        assert forall|k: int| 0 <= k < received.len() implies value_before(
                            next.steps,
                            #[trigger] received[k],
                            next.steps.len() as int,
                        ) by {
                            assert(value_before(s.steps, received[k], s.steps.len() as int));
                        }
                    }
                }
            }
        }
    }
}

/// Entering a function keeps a sound state sound; the parameters are values
/// among the steps, and a frame is open.
pub proof fn lemma_entered_in_order(
    s: CompilerModel,
    identifier: Seq<char>,
    result: Option<Scalar>,
    kinds: Seq<Scalar>,
)
    ensures
        grows(s, entered(s, identifier, result, kinds).0),
        entered(s, identifier, result, kinds).0.scopes.len() > 0,
        sound(s) && entered(s, identifier, result, kinds).0.countable() ==> sound(
            entered(s, identifier, result, kinds).0,
        ) && all_values(
            entered(s, identifier, result, kinds).0,
            entered(s, identifier, result, kinds).1,
        ),
{
    let named = s.intern(identifier);
    let step = Step::DeclareFunction {
        name: s.next_name(),
        result,
        arity: kinds.len() as usize,
        origin: Origin::Defined,
    };
    let emitted = named.emit(step);
    let declared = emitted.declare(
        FunctionModel { name: identifier, id: s.next(), result },
    );
    lemma_declared_parameters_in_order(declared, kinds, 0, Seq::empty());
    let (with_parameters, received) = declared_parameters(declared, kinds, 0, Seq::empty());
    let block = with_parameters.next();
    let appended = with_parameters.emit(Step::AppendBlock { function: s.next(), label: Label::Body });
    let pushed = appended.emit(Step::PushBuilder { block });
    let placed = pushed.at(s.next(), false);
    let inside = placed.with_scopes(placed.scopes.push(Map::empty()));
    assert(inside == entered(s, identifier, result, kinds).0);
    lemma_grows_on(s, emitted, with_parameters);
    lemma_grows_on(s, with_parameters, appended);
    lemma_grows_on(s, appended, pushed);
    if sound(s) && inside.countable() {
        assert(sound(named));
        assert(sound(emitted));
        assert(sound(declared));
        assert(sound(with_parameters));
        assert(sound(appended));
        assert(sound(pushed));
        assert(function_before(pushed.steps, s.next(), pushed.steps.len() as int));
        assert(sound(placed));
        lemma_push_sound(placed);
        assert forall|k: int| 0 <= k < received.len() implies value_before(
            inside.steps,
            #[trigger] received[k],
            inside.steps.len() as int,
        ) by {
            assert(value_before(with_parameters.steps, received[k], with_parameters.steps.len() as int));
        }
    }
}

/// Leaving a function keeps a sound state sound, where the function left
/// for is declared among the steps.
pub proof fn lemma_left_in_order(s: CompilerModel, before: CompilerModel)
    ensures
        grows(s, left(s, before)),
        sound(s) && left(s, before).countable() && function_before(
            s.steps,
            before.function,
            s.steps.len() as int,
        ) ==> sound(left(s, before)),
{
    let closed = if s.terminated {
        s
    } else {
        s.emit(Step::Return { value: None })
    };
    let popped = if closed.scopes.len() > 0 {
        closed.with_scopes(closed.scopes.drop_last())
    } else {
        closed
    };
    let finished = popped.emit(Step::PopBuilder);
    lemma_grows_on(s, closed, finished);
    if sound(s) && left(s, before).countable() && function_before(
        s.steps,
        before.function,
        s.steps.len() as int,
    ) {
        assert(sound(closed));
        if closed.scopes.len() > 0 {
            lemma_pop_sound(closed);
        }
        assert(sound(popped));
        assert(sound(finished));
    }
}

/// A statement is lowered in order: lowering keeps the steps that were
/// there, and a sound state sound.
pub proof fn lemma_statement_in_order(s: CompilerModel, statement: StatementModel, top: bool)
    ensures
        lowered_in_order(s, lowered_statement(s, statement, top)),
    decreases statement, 1nat,
{
    match statement {
        StatementModel::Assignment { .. } => {
            lemma_assignment_in_order(s, statement, top);
        },
        StatementModel::FunctionDefinition { .. } => {
            lemma_function_definition_in_order(s, statement);
        },
        StatementModel::Return { .. } => {
            lemma_return_in_order(s, statement);
        },
        StatementModel::WhileLoop { .. } => {
            lemma_while_in_order(s, statement);
        },
        StatementModel::ForLoop { .. } => {
            lemma_for_in_order(s, statement);
        },
        StatementModel::IfStatement { .. } => {
            lemma_if_in_order(s, statement);
        },
        StatementModel::ForeignModule(file) => {
            lemma_block_in_order(s, file.statements, 0, top);
        },
        StatementModel::Expr { expr } => {
            lemma_expr_in_order(s, expr);
        },
        StatementModel::Comment(_) => {},
    }
}

/// A block is lowered in order.
pub proof fn lemma_block_in_order(
    s: CompilerModel,
    statements: Seq<StatementModel>,
    at: int,
    top: bool,
)
    ensures
        state_in_order(s, lowered_block(s, statements, at, top)),
    decreases statements, statements.len() - at,
{
    if 0 <= at < statements.len() {
        lemma_statement_in_order(s, statements[at], top);
        if let Ok((next, _)) = lowered_statement(s, statements[at], top) {
            lemma_block_in_order(next, statements, at + 1, top);
            if let Ok(after) = lowered_block(next, statements, at + 1, top) {
                lemma_grows_on(s, next, after);
            }
        }
    }
}

/// A function definition is lowered in order.
pub proof fn lemma_function_definition_in_order(s: CompilerModel, statement: StatementModel)
    requires
        statement is FunctionDefinition,
    ensures
        lowered_in_order(s, lowered_function_definition(s, statement)),
    decreases statement, 0nat,
{
    match statement {
        StatementModel::FunctionDefinition { identifier, parameters, return_type_hint, body, .. } => {
            if let Ok(result) = any_type(return_type_hint) {
                if let Ok(kinds) = parameter_kinds(parameters, 0, Seq::empty()) {
                    let (inside, received) = entered(s, identifier, result, kinds);
                    lemma_entered_in_order(s, identifier, result, kinds);
                    lemma_bound_parameters_in_order(inside, parameters, kinds, received, 0);
                    if let Ok(ready) = bound_parameters(inside, parameters, kinds, received, 0) {
                        lemma_block_in_order(ready, body, 0, false);
                        if let Ok(done) = lowered_block(ready, body, 0, false) {
                            lemma_left_in_order(done, s);
                            let after = left(done, s);
                            lemma_grows_on(s, inside, ready);
                            lemma_grows_on(s, ready, done);
                            lemma_grows_on(s, done, after);
                            lemma_grows_on(inside, ready, done);
                            lemma_grows_on(inside, done, after);
                            lemma_grows_on(ready, done, after);
                            if sound(s) && after.countable() {
                                assert(sound(inside));
                                assert(sound(ready));
                                assert(sound(done));
                            }
                        }
                    }
                }
            }
        },
        _ => {},
    }
}

/// Whether `id` is a block among the steps of the state.
pub open spec fn block_known(s: CompilerModel, id: usize) -> bool {
    block_before(s.steps, id, s.steps.len() as int)
}

/// Testing a condition keeps a sound state sound, and its blocks are
/// blocks among the steps.
pub proof fn lemma_forked_in_order(s: CompilerModel, condition: ExprModel, merge: Option<usize>)
    ensures
        forked(s, condition, merge) matches Ok((inside, fork)) ==> grows(s, inside) && (sound(s)
            && inside.countable() && (merge matches Some(target) ==> block_known(s, target))
            ==> sound(inside) && block_known(inside, fork.else_block) && block_known(
            inside,
            fork.merge,
        )),
{
    lemma_expr_in_order(s, condition);
    if let Ok((computed, value)) = lowered_expr(s, condition) {
        if let Ok((inside, fork)) = forked(s, condition, merge) {
            let with_then = computed.emit(
                Step::AppendBlock { function: computed.function, label: Label::Then },
            );
            let with_else = with_then.emit(
                Step::AppendBlock { function: computed.function, label: Label::Else },
            );
            let with_merge = match merge {
                Some(_) => with_else,
                None => with_else.emit(
                    Step::AppendBlock { function: computed.function, label: Label::Merge },
                ),
            };
            let branched = with_merge.emit(
                Step::ConditionalBranch {
                    condition: condition_of(
                        value,
                    )->Ok_0,
                    then_block: fork.then_block,
                    else_block: fork.else_block,
                },
            );
            lemma_grows_on(s, computed, with_then);
            lemma_grows_on(s, with_then, with_else);
            lemma_grows_on(s, with_else, with_merge);
            lemma_grows_on(s, with_merge, branched);
            lemma_grows_on(s, branched, inside);
            if sound(s) && inside.countable() && (merge matches Some(target) ==> block_known(
                s,
                target,
            )) {
                assert(sound(computed));
                assert(value_sound(computed, value));
                assert(sound(with_then));
                assert(sound(with_else));
                assert(sound(with_merge));
                assert(sound(branched));
            }
        }
    }
}

/// Joining a block that exists keeps a sound state sound.
pub proof fn lemma_joined_in_order(s: CompilerModel, merge: usize)
    ensures
        grows(s, joined(s, merge)),
        sound(s) && joined(s, merge).countable() && block_known(s, merge) ==> sound(
            joined(s, merge),
        ),
{
}

/// A condition with its body is lowered in order.
pub proof fn lemma_guarded_in_order(
    s: CompilerModel,
    condition: ExprModel,
    body: Seq<StatementModel>,
    merge: Option<usize>,
)
    ensures
        guarded(s, condition, body, merge) matches Ok((after, target)) ==> grows(s, after) && (
        sound(s) && after.countable() && (merge matches Some(given) ==> block_known(s, given))
            ==> sound(after) && block_known(after, target)),
    decreases body, body.len() + 1,
{
    lemma_forked_in_order(s, condition, merge);
    if let Ok((inside, fork)) = forked(s, condition, merge) {
        lemma_block_in_order(inside, body, 0, false);
        if let Ok(done) = lowered_block(inside, body, 0, false) {
            lemma_joined_in_order(done, fork.merge);
            let met = joined(done, fork.merge);
            let after = met.emit(Step::PositionAtEnd { block: fork.else_block });
            lemma_grows_on(s, inside, done);
            lemma_grows_on(s, done, met);
            lemma_grows_on(s, met, after);
            lemma_grows_on(inside, done, met);
            if sound(s) && after.countable() && (merge matches Some(given) ==> block_known(
                s,
                given,
            )) {
                assert(sound(inside));
                assert(sound(done));
                assert(block_known(done, fork.merge));
                assert(sound(met));
                assert(block_known(met, fork.else_block));
            }
        }
    }
}

/// The `elif` branches of an `if` are lowered in order.
pub proof fn lemma_branches_in_order(
    s: CompilerModel,
    branches: Seq<(ExprModel, Seq<StatementModel>)>,
    at: int,
    merge: usize,
)
    ensures
        lowered_branches(s, branches, at, merge) matches Ok(after) ==> grows(s, after) && (sound(s)
            && after.countable() && block_known(s, merge) ==> sound(after)),
    decreases branches, branches.len() - at,
{
    if 0 <= at < branches.len() {
        lemma_guarded_in_order(s, branches[at].0, branches[at].1, Some(merge));
        if let Ok((next, _)) = guarded(s, branches[at].0, branches[at].1, Some(merge)) {
            lemma_branches_in_order(next, branches, at + 1, merge);
            if let Ok(after) = lowered_branches(next, branches, at + 1, merge) {
                lemma_grows_on(s, next, after);
            }
        }
    }
}

/// An `if` is lowered in order.
pub proof fn lemma_if_in_order(s: CompilerModel, statement: StatementModel)
    requires
        statement is IfStatement,
    ensures
        lowered_in_order(s, lowered_if_statement(s, statement)),
    decreases statement, 0nat,
{
    match statement {
        StatementModel::IfStatement { condition, body, else_ifs, else_body } => {
            lemma_guarded_in_order(s, condition, body, None);
            if let Ok((after_body, merge)) = guarded(s, condition, body, None) {
                lemma_branches_in_order(after_body, else_ifs, 0, merge);
                if let Ok(after_branches) = lowered_branches(after_body, else_ifs, 0, merge) {
                    lemma_block_in_order(after_branches, else_body, 0, false);
                    if let Ok(done) = lowered_block(after_branches, else_body, 0, false) {
                        lemma_joined_in_order(done, merge);
                        let met = joined(done, merge);
                        let after = met.emit(Step::PositionAtEnd { block: merge });
                        lemma_grows_on(s, after_body, after_branches);
                        lemma_grows_on(s, after_branches, done);
                        lemma_grows_on(s, done, met);
                        lemma_grows_on(s, met, after);
                        lemma_grows_on(after_body, after_branches, done);
                        lemma_grows_on(after_body, done, met);
                        if sound(s) && after.countable() {
                            assert(sound(after_body));
                            assert(block_known(after_body, merge));
                            assert(sound(after_branches));
                            assert(sound(done));
                            assert(block_known(done, merge));
                            assert(sound(met));
                        }
                    }
                }
            }
        },
        _ => {},
    }
}

/// A `while` is lowered in order.
pub proof fn lemma_while_in_order(s: CompilerModel, statement: StatementModel)
    requires
        statement is WhileLoop,
    ensures
        lowered_in_order(s, lowered_while_loop(s, statement)),
    decreases statement, 0nat,
{
    match statement {
        StatementModel::WhileLoop { condition, body } => {
            lemma_expr_in_order(s, condition);
            if let Ok((computed, first)) = tested(s, condition) {
                if let Ok((inside, cycle)) = entered_loop(s, condition) {
                    let with_loop = computed.emit(
                        Step::AppendBlock { function: computed.function, label: Label::Loop },
                    );
                    let with_merge = with_loop.emit(
                        Step::AppendBlock { function: computed.function, label: Label::Merge },
                    );
                    let branched = with_merge.emit(
                        Step::ConditionalBranch {
                            condition: first,
                            then_block: cycle.loop_block,
                            else_block: cycle.merge_block,
                        },
                    );
                    lemma_grows_on(s, computed, with_loop);
                    lemma_grows_on(s, with_loop, with_merge);
                    lemma_grows_on(s, with_merge, branched);
                    lemma_grows_on(s, branched, inside);
                    lemma_block_in_order(inside, body, 0, false);
                    if let Ok(done) = lowered_block(inside, body, 0, false) {
                        lemma_expr_in_order(done, condition);
                        if let Ok((again, second)) = tested(done, condition) {
                            let last = again.emit(
                                Step::ConditionalBranch {
                                    condition: second,
                                    then_block: cycle.loop_block,
                                    else_block: cycle.merge_block,
                                },
                            );
                            let after = last.emit(Step::PositionAtEnd { block: cycle.merge_block });
                            lemma_grows_on(s, inside, done);
                            lemma_grows_on(s, done, again);
                            lemma_grows_on(s, again, last);
                            lemma_grows_on(s, last, after);
                            lemma_grows_on(inside, done, again);
                            if sound(s) && after.countable() {
                                assert(sound(computed));
                                assert(sound(with_loop));
                                assert(sound(with_merge));
                                assert(sound(branched));
                                assert(sound(inside));
                                assert(block_known(inside, cycle.loop_block));
                                assert(block_known(inside, cycle.merge_block));
                                assert(sound(done));
                                assert(sound(again));
                                assert(block_known(again, cycle.loop_block));
                                assert(block_known(again, cycle.merge_block));
                                assert(sound(last));
                            }
                        }
                    }
                }
            }
        },
        _ => {},
    }
}

/// Whether what a `for` loop works with exists among the steps of the
/// state.
pub open spec fn walk_known(s: CompilerModel, walk: Walk) -> bool {
    &&& value_before(s.steps, walk.array_cell, s.steps.len() as int)
    &&& value_before(s.steps, walk.index_cell, s.steps.len() as int)
    &&& block_known(s, walk.loop_block)
    &&& block_known(s, walk.merge_block)
}

/// The steps around the body of a `for` loop are taken in order.
#[verifier::rlimit(60)]
pub proof fn lemma_loop_meta_in_order(s: CompilerModel, identifier: Seq<char>, walk: Walk)
    ensures
        state_in_order_with(s, loop_meta(s, identifier, walk), walk_known(s, walk)),
{
    if let Ok(after) = loop_meta(s, identifier, walk) {
        let index = s.next();
        let loaded = s.emit(Step::Load { kind: Kind::Index, pointer: walk.index_cell });
        let address = loaded.emit(
            Step::ElementPointer { element: walk.element, pointer: walk.array_cell, index },
        );
        let element = address.next();
        let fetched = address.emit(
            Step::Load { kind: walk.element.kind(), pointer: loaded.next() },
        );
        lemma_grows_on(s, loaded, address);
        lemma_grows_on(s, address, fetched);
        let known = sound(s) && after.countable() && walk_known(s, walk);
        if known {
            assert(sound(loaded));
            assert(sound(address));
            assert(sound(fetched));
        }
        let assigned = match innermost(s.scopes, identifier) {
            Some(binding) => {
                let stored = fetched.emit(Step::Store { pointer: binding.pointer, value: element });
                lemma_grows_on(s, fetched, stored);
                if known {
                    assert(s.scopes[s.scopes.len() - 1].contains_key(identifier));
                    assert(cell_before(s.steps, binding.pointer, s.steps.len() as int));
                    assert(sound(stored));
                }
                stored
            },
            None => {
                let cell = fetched.next();
                let named = fetched.intern(identifier);
                let made = named.emit(
                    Step::Alloca { kind: walk.element.kind(), name: Some(fetched.next_name()) },
                );
                let stored = made.emit(Step::Store { pointer: cell, value: element });
                let binding = Binding {
                    value: Operand { id: element, kind: walk.element.kind() },
                    pointer: cell,
                    global: false,
                };
                lemma_with_binding_in_order(stored, identifier, binding);
                lemma_grows_on(s, fetched, made);
                lemma_grows_on(s, made, stored);
                if known {
                    assert(sound(named));
                    assert(sound(made));
                    assert(sound(stored));
                }
                with_binding(stored, identifier, binding)->Ok_0.0
            },
        };
        let counted = assigned.emit(Step::ConstIndex { value: walk.len });
        let compared = counted.emit(Step::IndexNotEqual { lhs: index, rhs: assigned.next() });
        lemma_grows_on(s, assigned, counted);
        lemma_grows_on(s, counted, compared);
        lemma_grows_on(s, compared, after);
        if known {
            assert(sound(assigned));
            assert(sound(counted));
            assert(sound(compared));
        }
    }
}

/// Whether lowering gave a state that keeps the steps that were there, and
/// is sound where the state before was and `known` holds.
pub open spec fn state_in_order_with(
    s: CompilerModel,
    lowered: Result<CompilerModel, LowerError>,
    known: bool,
) -> bool {
    lowered matches Ok(after) ==> grows(s, after) && (sound(s) && after.countable() && known
        ==> sound(after))
}

/// Preparing a loop keeps a sound state sound, and what the loop works
/// with exists among the steps.
pub proof fn lemma_prepared_in_order(s: CompilerModel, array: usize, len: u32, element: Scalar)
    ensures
        grows(s, prepared(s, array, len, element).0),
        sound(s) && prepared(s, array, len, element).0.countable() && value_before(
            s.steps,
            array,
            s.steps.len() as int,
        ) ==> sound(prepared(s, array, len, element).0) && walk_known(
            prepared(s, array, len, element).0,
            prepared(s, array, len, element).1,
        ),
{
    let index_cell = s.next();
    let counted = s.emit(Step::Alloca { kind: Kind::Index, name: None });
    let zero = counted.emit(Step::ConstIndex { value: 0 });
    let zeroed = zero.emit(Step::Store { pointer: index_cell, value: counted.next() });
    let array_cell = zeroed.next();
    let made = zeroed.emit(Step::Alloca { kind: Kind::Array { len, element }, name: None });
    let stored = made.emit(Step::Store { pointer: array_cell, value: array });
    let with_loop = stored.emit(Step::AppendBlock { function: s.function, label: Label::Loop });
    let after = with_loop.emit(Step::AppendBlock { function: s.function, label: Label::Merge });
    lemma_grows_on(s, counted, zero);
    lemma_grows_on(s, zero, zeroed);
    lemma_grows_on(s, zeroed, made);
    lemma_grows_on(s, made, stored);
    lemma_grows_on(s, stored, with_loop);
    lemma_grows_on(s, with_loop, after);
    if sound(s) && after.countable() && value_before(s.steps, array, s.steps.len() as int) {
        assert(sound(counted));
        assert(sound(zero));
        assert(sound(zeroed));
        assert(sound(made));
        assert(sound(stored));
        assert(sound(with_loop));
        assert(sound(after));
    }
}

/// Raising the index keeps a sound state sound.
pub proof fn lemma_advanced_in_order(s: CompilerModel, walk: Walk)
    ensures
        grows(s, advanced(s, walk)),
        sound(s) && advanced(s, walk).countable() && walk_known(s, walk) ==> sound(
            advanced(s, walk),
        ),
{
    let loaded = s.emit(Step::Load { kind: Kind::Index, pointer: walk.index_cell });
    let one = loaded.emit(Step::ConstIndex { value: 1 });
    let raised = one.emit(Step::IndexAdd { lhs: s.next(), rhs: loaded.next() });
    let after = raised.emit(Step::Store { pointer: walk.index_cell, value: one.next() });
    lemma_grows_on(s, loaded, one);
    lemma_grows_on(s, one, raised);
    lemma_grows_on(s, raised, after);
    if sound(s) && after.countable() && walk_known(s, walk) {
        assert(sound(loaded));
        assert(sound(one));
        assert(sound(raised));
    }
}

/// A function that is held under a name is found under it.
pub proof fn lemma_held_is_found(functions: Seq<FunctionModel>, k: int)
    requires
        0 <= k < functions.len(),
    ensures
        find_function(functions, functions[k].name) is Some,
    decreases functions.len(),
{
    if functions.last().name != functions[k].name {
        assert(functions.drop_last()[k] == functions[k]);
        lemma_held_is_found(functions.drop_last(), k);
    }
}

/// A function can be called once it is defined: after its definition the
/// module holds a function under its name. It holds it already where the
/// body is lowered, so that the body can call it.
pub proof fn lemma_function_is_registered(s: CompilerModel, statement: StatementModel)
    requires
        statement is FunctionDefinition,
    ensures
        lowered_function_definition(s, statement) matches Ok((after, _)) ==> find_function(
            after.functions,
            statement->FunctionDefinition_identifier,
        ) is Some,
{
    match statement {
        StatementModel::FunctionDefinition { identifier, parameters, return_type_hint, body, .. } => {
            if let Ok(result) = any_type(return_type_hint) {
                if let Ok(kinds) = parameter_kinds(parameters, 0, Seq::empty()) {
                    let (inside, received) = entered(s, identifier, result, kinds);
                    let entry = FunctionModel { name: identifier, id: s.next(), result };
                    let declared = s.intern(identifier).emit(
                        Step::DeclareFunction {
                            name: s.next_name(),
                            result,
                            arity: kinds.len() as usize,
                            origin: Origin::Defined,
                        },
                    ).declare(entry);
                    lemma_declared_parameters_in_order(declared, kinds, 0, Seq::empty());
                    lemma_entered_in_order(s, identifier, result, kinds);
                    let at = s.functions.len() as int;
                    assert(declared.functions[at] == entry);
                    assert(inside.functions[at] == entry);
                    lemma_bound_parameters_in_order(inside, parameters, kinds, received, 0);
                    if let Ok(ready) = bound_parameters(inside, parameters, kinds, received, 0) {
                        lemma_block_in_order(ready, body, 0, false);
                        if let Ok(done) = lowered_block(ready, body, 0, false) {
                            lemma_left_in_order(done, s);
                            let after = left(done, s);
                            lemma_grows_on(inside, ready, done);
                            lemma_grows_on(inside, done, after);
                            assert(after.functions[at] == entry);
                            lemma_held_is_found(after.functions, at);
                        }
                    }
                }
            }
        },
        _ => {},
    }
}

} // verus!
