//! Expressions are lowered in order.
use crate::compiler::codegen::expr::array::{
    array_of, element_of, id_of, lowered_array, lowered_array_index, lowered_items, with_operands,
};
use crate::compiler::codegen::expr::function_call::{
    called, lowered_arguments, lowered_function_call, typed_name,
};
use crate::compiler::codegen::expr::lowered_expr;
use crate::compiler::codegen::expr::op::{combined, lowered_binop};
use crate::compiler::codegen::order::{
    grows, lemma_grows_on, sound, value_before, value_sound,
};
use crate::compiler::codegen::scope::{resolve, Binding};
use crate::compiler::codegen::value::{Operand, Value};
use crate::compiler::module::{Kind, Step};
use crate::compiler::{find_function, CompilerModel, FunctionModel, Lowered};
use crate::parser::expr::ExprModel;
use vstd::prelude::*;

verus! {

broadcast use crate::compiler::codegen::order::group_order;

/// What a name resolves to is bound in one of the frames.
pub proof fn lemma_resolved_is_bound(scopes: Seq<Map<Seq<char>, Binding>>, name: Seq<char>)
    ensures
        resolve(scopes, name) matches Some(binding) ==> exists|frame: int|
            0 <= frame < scopes.len() && #[trigger] scopes[frame].contains_key(name)
                && scopes[frame][name] == binding,
    decreases scopes.len(),
{
    if scopes.len() > 0 && !scopes.last().contains_key(name) {
        lemma_resolved_is_bound(scopes.drop_last(), name);
        if let Some(binding) = resolve(scopes, name) {
            let frame = choose|frame: int|
                0 <= frame < scopes.drop_last().len() && #[trigger] scopes.drop_last()[frame]
                    .contains_key(name) && scopes.drop_last()[frame][name] == binding;
            assert(scopes[frame].contains_key(name));
        }
    } else if scopes.len() > 0 {
        assert(scopes[scopes.len() - 1].contains_key(name));
    }
}

/// A function that is found is one of those that the module holds.
pub proof fn lemma_found_is_held(functions: Seq<FunctionModel>, name: Seq<char>)
    ensures
        find_function(functions, name) matches Some(function) ==> exists|k: int|
            0 <= k < functions.len() && #[trigger] functions[k] == function,
    decreases functions.len(),
{
    if functions.len() > 0 && functions.last().name != name {
        lemma_found_is_held(functions.drop_last(), name);
        if let Some(function) = find_function(functions, name) {
            let k = choose|k: int|
                0 <= k < functions.drop_last().len() && #[trigger] functions.drop_last()[k]
                    == function;
            assert(functions[k] == function);
        }
    } else if functions.len() > 0 {
        assert(functions[functions.len() - 1] == functions.last());
    }
}

/// Whether all the values exist among the steps of the state.
pub open spec fn values_sound(s: CompilerModel, values: Seq<Value>) -> bool {
    forall|k: int| 0 <= k < values.len() ==> (#[trigger] values[k]).operand() is Some
        && value_sound(s, values[k])
}

/// Giving values that exist as operands keeps the state sound, and the
/// steps it takes are the operands, one for each value.
pub proof fn lemma_operands_in_order(s: CompilerModel, values: Seq<Value>, at: int)
    requires
        0 <= at <= values.len(),
    ensures
        grows(s, with_operands(s, values, at)),
        with_operands(s, values, at).steps.len() == s.steps.len() + values.len() - at,
        with_operands(s, values, at).names == s.names,
        with_operands(s, values, at).functions == s.functions,
        forall|k: int|
            s.steps.len() <= k < with_operands(s, values, at).steps.len() ==> (
            #[trigger] with_operands(s, values, at).steps[k]) is Element,
        sound(s) && values_sound(s, values) && with_operands(s, values, at).countable() ==> sound(
            with_operands(s, values, at),
        ),
    decreases values.len() - at,
{
    if at < values.len() {
        let next = s.emit(Step::Element { value: id_of(values[at]) });
        lemma_operands_in_order(next, values, at + 1);
        let after = with_operands(s, values, at);
        assert(after == with_operands(next, values, at + 1));
        lemma_grows_on(s, next, after);
        assert forall|k: int| s.steps.len() <= k < after.steps.len() implies (
        #[trigger] after.steps[k]) is Element by {
            if k == s.steps.len() {
                assert(after.steps[k] == next.steps[k]);
            }
        }
        if sound(s) && values_sound(s, values) && after.countable() {
            assert(value_sound(s, values[at]));
            assert(sound(next));
            assert forall|k: int| 0 <= k < values.len() implies (#[trigger] values[k]).operand()
                is Some && value_sound(next, values[k]) by {
                assert(value_sound(s, values[k]));
            }
        }
    }
}

/// Whether lowering gave what keeps the steps that were there and a sound
/// state sound, with a value that exists among the steps.
pub open spec fn lowered_in_order(s: CompilerModel, lowered: Lowered) -> bool {
    lowered matches Ok((after, value)) ==> grows(s, after) && (sound(s) && after.countable()
        ==> sound(after) && value_sound(after, value))
}

/// Lowering an expression keeps the steps that were there and a sound
/// state sound, and the value it gives exists among the steps.
pub proof fn lemma_expr_in_order(s: CompilerModel, e: ExprModel)
    ensures
        lowered_in_order(s, lowered_expr(s, e)),
    decreases e, 1nat,
{
    match e {
        ExprModel::Identifier(name) => {
            lemma_resolved_is_bound(s.scopes, name);
        },
        ExprModel::FunctionCall { .. } => {
            lemma_call_in_order(s, e);
        },
        ExprModel::UnaryMinus(inner) => {
            lemma_expr_in_order(s, *inner);
        },
        ExprModel::Array(_) => {
            lemma_array_in_order(s, e);
        },
        ExprModel::ArrayIndex { .. } => {
            lemma_index_in_order(s, e);
        },
        ExprModel::BinOp { .. } => {
            lemma_binop_in_order(s, e);
        },
        _ => {},
    }
}

/// A call is lowered in order.
pub proof fn lemma_call_in_order(s: CompilerModel, e: ExprModel)
    requires
        e is FunctionCall,
    ensures
        lowered_in_order(s, lowered_function_call(s, e)),
    decreases e, 0nat,
{
    match e {
        ExprModel::FunctionCall { identifier, parameters, .. } => {
            lemma_arguments_in_order(s, parameters, 0, Seq::empty());
            if let Ok((after, values)) = lowered_arguments(s, parameters, 0, Seq::empty()) {
                lemma_operands_in_order(after, values, 0);
                let given = with_operands(after, values, 0);
                lemma_grows_on(s, after, given);
                lemma_found_is_held(after.functions, identifier);
                lemma_found_is_held(after.functions, typed_name(identifier, values));
                if let Ok((done, value)) = called(after, identifier, values) {
                    lemma_grows_on(s, given, done);
                    if sound(s) && done.countable() {
                        assert(sound(after));
                        assert(values_sound(after, values));
                        assert(sound(given));
                    }
                }
            }
        },
        _ => {},
    }
}

/// An array literal is lowered in order.
pub proof fn lemma_array_in_order(s: CompilerModel, e: ExprModel)
    requires
        e is Array,
    ensures
        lowered_in_order(s, lowered_array(s, e)),
    decreases e, 0nat,
{
    match e {
        ExprModel::Array(items) => {
            lemma_items_in_order(s, items, 0, Seq::empty());
            if let Ok((after, values)) = lowered_items(s, items, 0, Seq::empty()) {
                lemma_operands_in_order(after, values, 0);
                let given = with_operands(after, values, 0);
                lemma_grows_on(s, after, given);
                if let Ok((done, value)) = array_of(after, values) {
                    lemma_grows_on(s, given, done);
                    let element = values[0].scalar()->0;
                    assert forall|k: int| 0 <= k < values.len() implies (
                    #[trigger] values[k]).operand() is Some by {
                        assert(values[k].scalar() == Some(element));
                    }
                    if sound(s) && done.countable() {
                        assert(sound(after));
                        assert(values_sound(after, values));
                        assert(sound(given));
                    }
                }
            }
        },
        _ => {},
    }
}

/// An indexing is lowered in order.
pub proof fn lemma_index_in_order(s: CompilerModel, e: ExprModel)
    requires
        e is ArrayIndex,
    ensures
        lowered_in_order(s, lowered_array_index(s, e)),
    decreases e, 0nat,
{
    match e {
        ExprModel::ArrayIndex { array, index } => {
            lemma_expr_in_order(s, *array);
            if let Ok((after_array, value)) = lowered_expr(s, *array) {
                lemma_expr_in_order(after_array, *index);
                if let Ok((after_index, place)) = lowered_expr(after_array, *index) {
                    lemma_grows_on(s, after_array, after_index);
                    if value.operand() is Some {
                        lemma_element_in_order(after_index, value.operand()->0, place);
                        if let Ok((after, _)) = element_of(after_index, value.operand()->0, place) {
                            lemma_grows_on(s, after_index, after);
                            lemma_grows_on(after_array, after_index, after);
                            if sound(s) && after.countable() {
                                assert(sound(after_array));
                                assert(value_sound(after_array, value));
                                assert(sound(after_index));
                            }
                        }
                    }
                }
            }
        },
        _ => {},
    }
}

/// An infix operation is lowered in order.
pub proof fn lemma_binop_in_order(s: CompilerModel, e: ExprModel)
    requires
        e is BinOp,
    ensures
        lowered_in_order(s, lowered_binop(s, e)),
    decreases e, 0nat,
{
    match e {
        ExprModel::BinOp { lhs, op, rhs } => {
            lemma_expr_in_order(s, *lhs);
            if let Ok((after_lhs, left)) = lowered_expr(s, *lhs) {
                lemma_expr_in_order(after_lhs, *rhs);
                if let Ok((after_rhs, right)) = lowered_expr(after_lhs, *rhs) {
                    lemma_grows_on(s, after_lhs, after_rhs);
                    if let Ok((after, _)) = combined(after_rhs, op, left, right) {
                        lemma_grows_on(s, after_rhs, after);
                        if sound(s) && after.countable() {
                            assert(sound(after_lhs));
                            assert(value_sound(after_lhs, left));
                            assert(sound(after_rhs));
                            assert(value_sound(after_rhs, left));
                        }
                    }
                }
            }
        },
        _ => {},
    }
}

/// Reading an element keeps the steps that were there and a sound state
/// sound, and the element exists among the steps.
pub proof fn lemma_element_in_order(
    s: CompilerModel,
    array: Operand,
    index: Value,
)
    ensures
        element_of(s, array, index) matches Ok((after, value)) ==> grows(s, after) && (sound(s)
            && after.countable() && value_before(s.steps, array.id, s.steps.len() as int)
            && value_sound(s, index) ==> sound(after) && value_sound(after, value)),
{
    if let Ok((after, value)) = element_of(s, array, index) {
        if let Value::Float { id: number, .. } = index {
            if let Kind::Array { element, .. } = array.kind {
                let cell = s.next();
                let made = s.emit(Step::Alloca { kind: array.kind, name: None });
                let stored = made.emit(Step::Store { pointer: cell, value: array.id });
                let place = stored.emit(
                    Step::ToIndex { value: number, folded: index.is_constant() },
                );
                let address = place.emit(
                    Step::ElementPointer { element, pointer: cell, index: stored.next() },
                );
                lemma_grows_on(s, made, stored);
                lemma_grows_on(s, stored, place);
                lemma_grows_on(s, place, address);
                lemma_grows_on(s, address, after);
                if sound(s) && after.countable() && value_before(
                    s.steps,
                    array.id,
                    s.steps.len() as int,
                ) && value_sound(s, index) {
                    assert(sound(made));
                    assert(sound(stored));
                    assert(sound(place));
                    assert(sound(address));
                    assert(sound(after));
                }
            }
        }
    }
}

/// Lowering a list of expressions keeps the steps that were there and a
/// sound state sound, and the values exist among the steps.
pub proof fn lemma_items_in_order(
    s: CompilerModel,
    items: Seq<ExprModel>,
    at: int,
    found: Seq<Value>,
)
    ensures
        lowered_items(s, items, at, found) matches Ok((after, values)) ==> grows(s, after) && (
        sound(s) && after.countable() && (forall|k: int|
            0 <= k < found.len() ==> value_sound(s, #[trigger] found[k])) ==> sound(after)
            && forall|k: int| 0 <= k < values.len() ==> value_sound(after, #[trigger] values[k])),
    decreases items, items.len() - at,
{
    if 0 <= at < items.len() {
        lemma_expr_in_order(s, items[at]);
        if let Ok((next, value)) = lowered_expr(s, items[at]) {
            lemma_items_in_order(next, items, at + 1, found.push(value));
            if let Ok((after, values)) = lowered_items(next, items, at + 1, found.push(value)) {
                lemma_grows_on(s, next, after);
                if sound(s) && after.countable() && (forall|k: int|
                    0 <= k < found.len() ==> value_sound(s, #[trigger] found[k])) {
                    assert forall|k: int| 0 <= k < found.push(value).len() implies value_sound(
                        next,
                        #[trigger] found.push(value)[k],
                    ) by {
                        if k < found.len() {
                            assert(value_sound(s, found[k]));
                        }
                    }
                }
            }
        }
    }
}

/// Lowering the arguments of a call keeps the steps that were there and a
/// sound state sound, and the values exist among the steps.
pub proof fn lemma_arguments_in_order(
    s: CompilerModel,
    arguments: Seq<ExprModel>,
    at: int,
    found: Seq<Value>,
)
    ensures
        lowered_arguments(s, arguments, at, found) matches Ok((after, values)) ==> grows(s, after)
            && ((forall|k: int| 0 <= k < found.len() ==> (#[trigger] found[k]).operand() is Some)
            ==> forall|k: int| 0 <= k < values.len() ==> (#[trigger] values[k]).operand() is Some)
            && (sound(s) && after.countable() && (forall|k: int|
            0 <= k < found.len() ==> value_sound(s, #[trigger] found[k])) ==> sound(after)
            && forall|k: int| 0 <= k < values.len() ==> value_sound(after, #[trigger] values[k])),
    decreases arguments, arguments.len() - at,
{
    if 0 <= at < arguments.len() {
        lemma_expr_in_order(s, arguments[at]);
        if let Ok((next, value)) = lowered_expr(s, arguments[at]) {
            if value.scalar() is Some {
                lemma_arguments_in_order(next, arguments, at + 1, found.push(value));
                if let Ok((after, values)) = lowered_arguments(
                    next,
                    arguments,
                    at + 1,
                    found.push(value),
                ) {
                    lemma_grows_on(s, next, after);
                    if forall|k: int| 0 <= k < found.len() ==> (#[trigger] found[k]).operand()
                        is Some {
                        assert forall|k: int| 0 <= k < found.push(value).len() implies (
                        #[trigger] found.push(value)[k]).operand() is Some by {
                            if k < found.len() {
                                assert(found[k].operand() is Some);
                            }
                        }
                    }
                    if sound(s) && after.countable() && (forall|k: int|
                        0 <= k < found.len() ==> value_sound(s, #[trigger] found[k])) {
                        assert forall|k: int| 0 <= k < found.push(value).len() implies value_sound(
                            next,
                            #[trigger] found.push(value)[k],
                        ) by {
                            if k < found.len() {
                                assert(value_sound(s, found[k]));
                            }
                        }
                    }
                }
            }
        }
    }
}

} // verus!
