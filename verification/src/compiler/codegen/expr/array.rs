//! Lowering of array literals and of indexing.
use crate::compiler::codegen::expr::{lower_expr, lowered_expr};
use crate::compiler::codegen::value::{LowerError, Operand, Value};
use crate::compiler::module::{Kind, Scalar, Step};
use crate::compiler::{agrees, Compiler, CompilerModel, Lowered};
use crate::parser::expr::{exprs_view, Expr, ExprModel};
use vstd::prelude::*;

verus! {

broadcast use crate::parser::expr::group_exprs;

/// What lowering the expressions from `at` on gives, one after the other,
/// after `found`: the state and the values, in order.
pub open spec fn lowered_items(s: CompilerModel, items: Seq<ExprModel>, at: int, found: Seq<Value>) -> Result<
    (CompilerModel, Seq<Value>),
    LowerError,
>
    decreases items, items.len() - at,
{
    if at < 0 || at >= items.len() {
        Ok((s, found))
    } else {
        match lowered_expr(s, items[at]) {
            Err(error) => Err(error),
            Ok((after, value)) => lowered_items(after, items, at + 1, found.push(value)),
        }
    }
}

/// The number under which the builder holds a value; 0 for `Void`.
pub open spec fn id_of(value: Value) -> usize {
    match value.operand() {
        Some(operand) => operand.id,
        None => 0,
    }
}

/// The state after the values from `at` on are given as operands, one step
/// each.
pub open spec fn with_operands(s: CompilerModel, values: Seq<Value>, at: int) -> CompilerModel
    decreases values.len() - at,
{
    if at < 0 || at >= values.len() {
        s
    } else {
        with_operands(s.emit(Step::Element { value: id_of(values[at]) }), values, at + 1)
    }
}

/// Whether every value is a constant.
pub open spec fn all_constant(values: Seq<Value>) -> bool {
    forall|i: int| 0 <= i < values.len() ==> (#[trigger] values[i]).is_constant()
}

/// Whether every value has the scalar type `element`.
pub open spec fn uniform(values: Seq<Value>, element: Scalar) -> bool {
    forall|i: int| 0 <= i < values.len() ==> (#[trigger] values[i]).scalar() == Some(element)
}

/// The array that values make.
///
/// There is at least one value. The first one fixes the type of the
/// elements, which is a scalar type, and every other value has exactly that
/// type. The values are given as operands, and one step makes the array,
/// which is a constant where all the values are.
pub open spec fn array_of(s: CompilerModel, values: Seq<Value>) -> Lowered {
    if values.len() == 0 {
        Err(LowerError::EmptyArray)
    } else {
        match values[0].scalar() {
            None => Err(LowerError::UnsupportedElement),
            Some(element) => if !uniform(values, element) {
                Err(LowerError::MixedArray)
            } else if values.len() > u32::MAX {
                Err(LowerError::ArrayTooLong)
            } else {
                let given = with_operands(s, values, 0);
                Ok(
                    (
                        given.emit(
                            Step::Array {
                                element,
                                len: values.len() as u32,
                                folded: all_constant(values),
                            },
                        ),
                        Value::Array {
                            id: given.next(),
                            constant: all_constant(values),
                            len: values.len() as u32,
                            element,
                        },
                    ),
                )
            },
        }
    }
}

/// What lowering an array literal gives: all elements in order, then the
/// array of their values.
pub open spec fn lowered_array(s: CompilerModel, e: ExprModel) -> Lowered
    decreases e, 0nat,
{
    match e {
        ExprModel::Array(items) => match lowered_items(s, items, 0, Seq::empty()) {
            Err(error) => Err(error),
            Ok((after, values)) => array_of(after, values),
        },
        _ => Err(LowerError::Unimplemented),
    }
}

/// What reading an element gives.
///
/// The index is a number and the array an array. The array is stored in a
/// fresh cell, the index is cut down to an unsigned integer, and the element
/// is loaded from its address. The index is not held against the length.
/// The index of a constant number is a constant.
pub open spec fn element_of(s: CompilerModel, array: Operand, index: Value) -> Lowered {
    match index {
        Value::Float { id: number, constant, .. } => match array.kind {
            Kind::Array { element, .. } => {
                let cell = s.next();
                let stored = s.emit(Step::Alloca { kind: array.kind, name: None }).emit(
                    Step::Store { pointer: cell, value: array.id },
                );
                let place = stored.emit(Step::ToIndex { value: number, folded: constant });
                let address = place.emit(
                    Step::ElementPointer { element, pointer: cell, index: stored.next() },
                );
                Ok(
                    (
                        address.emit(Step::Load { kind: element.kind(), pointer: place.next() }),
                        Value::of(Operand { id: address.next(), kind: element.kind() }),
                    ),
                )
            },
            _ => Err(LowerError::NotAnArray),
        },
        _ => Err(LowerError::IndexNotNumber),
    }
}

/// What lowering an indexing gives: the array, which must give a value,
/// then the index, then the reading of the element.
pub open spec fn lowered_array_index(s: CompilerModel, e: ExprModel) -> Lowered
    decreases e, 0nat,
{
    match e {
        ExprModel::ArrayIndex { array, index } => match lowered_expr(s, *array) {
            Err(error) => Err(error),
            Ok((after_array, value)) => match value.operand() {
                None => Err(LowerError::VoidValue),
                Some(operand) => match lowered_expr(after_array, *index) {
                    Err(error) => Err(error),
                    Ok((after_index, place)) => element_of(after_index, operand, place),
                },
            },
        },
        _ => Err(LowerError::Unimplemented),
    }
}

/// Lowers expressions one after the other and returns their values.
#[verifier::loop_isolation(false)]
pub fn lower_items(compiler: &mut Compiler, items: &Vec<Expr>) -> (r: Result<Vec<Value>, LowerError>)
    ensures
        match lowered_items(old(compiler)@, exprs_view(items@), 0, Seq::empty()) {
            Ok((state, values)) => r is Ok && r->Ok_0@ == values && final(compiler)@ == state,
            Err(error) => r == Err::<Vec<Value>, LowerError>(error),
        },
    decreases items, 0nat,
{
    let mut found: Vec<Value> = Vec::new();
    let mut at: usize = 0;
    while at < items.len()
        invariant
            at <= items.len(),
            lowered_items(compiler@, exprs_view(items@), at as int, found@) == lowered_items(
                old(compiler)@,
                exprs_view(items@),
                0,
                Seq::empty(),
            ),
        decreases items.len() - at,
    {
        match lower_expr(compiler, &items[at]) {
            Ok(value) => {
                found.push(value);
            },
            Err(error) => {
                return Err(error);
            },
        }
        at += 1;
    }
    Ok(found)
}

/// Gives values as operands, one step each.
pub fn give_operands(compiler: &mut Compiler, values: &Vec<Value>)
    ensures
        final(compiler)@ == with_operands(old(compiler)@, values@, 0),
{
    let mut at: usize = 0;
    while at < values.len()
        invariant
            at <= values.len(),
            with_operands(compiler@, values@, at as int) == with_operands(
                old(compiler)@,
                values@,
                0,
            ),
        decreases values.len() - at,
    {
        let id = match values[at].into_basic_value() {
            Ok(operand) => operand.id,
            Err(_) => 0,
        };
        compiler.emit(Step::Element { value: id });
        at += 1;
    }
}

/// Whether every value has the scalar type `element`.
fn is_uniform(values: &Vec<Value>, element: Scalar) -> (r: bool)
    ensures
        r == uniform(values@, element),
{
    let mut at: usize = 0;
    while at < values.len()
        invariant
            at <= values.len(),
            forall|i: int| 0 <= i < at ==> (#[trigger] values@[i]).scalar() == Some(element),
        decreases values.len() - at,
    {
        match values[at].scalar_of() {
            Some(found) => {
                if found != element {
                    return false;
                }
            },
            None => {
                return false;
            },
        }
        at += 1;
    }
    true
}

/// Whether every value is a constant.
fn are_constant(values: &Vec<Value>) -> (r: bool)
    ensures
        r == all_constant(values@),
{
    let mut at: usize = 0;
    while at < values.len()
        invariant
            at <= values.len(),
            forall|i: int| 0 <= i < at ==> (#[trigger] values@[i]).is_constant(),
        decreases values.len() - at,
    {
        if !values[at].is_constant() {
            return false;
        }
        at += 1;
    }
    true
}

/// Makes the array of values.
pub fn make_array(compiler: &mut Compiler, values: &Vec<Value>) -> (r: Result<Value, LowerError>)
    ensures
        agrees(r, final(compiler)@, array_of(old(compiler)@, values@)),
{
    if values.len() == 0 {
        return Err(LowerError::EmptyArray);
    }
    let element = match values[0].scalar_of() {
        Some(element) => element,
        None => {
            return Err(LowerError::UnsupportedElement);
        },
    };
    if !is_uniform(values, element) {
        return Err(LowerError::MixedArray);
    }
    if values.len() > u32::MAX as usize {
        return Err(LowerError::ArrayTooLong);
    }
    let len = values.len() as u32;
    let constant = are_constant(values);
    give_operands(compiler, values);
    let id = compiler.emit(Step::Array { element, len, folded: constant });
    Ok(Value::Array { id, constant, len, element })
}

/// Lowers an array literal.
///
/// Succeeds exactly where every element can be lowered, there is at least
/// one, and all have the same scalar type.
pub fn lower_array(compiler: &mut Compiler, expr: &Expr) -> (r: Result<Value, LowerError>)
    ensures
        agrees(r, final(compiler)@, lowered_array(old(compiler)@, expr@)),
    decreases expr, 0nat,
{
    match expr {
        Expr::Array(items) => {
            let values = match lower_items(compiler, items) {
                Ok(values) => values,
                Err(error) => {
                    return Err(error);
                },
            };
            make_array(compiler, &values)
        },
        _ => Err(LowerError::Unimplemented),
    }
}

/// Reads the element of an array at an index.
pub fn read_element(compiler: &mut Compiler, array: Operand, index: Value) -> (r: Result<
    Value,
    LowerError,
>)
    ensures
        agrees(r, final(compiler)@, element_of(old(compiler)@, array, index)),
{
    match index {
        Value::Float { id: number, constant, .. } => match array.kind {
            Kind::Array { element, .. } => {
                let cell = compiler.emit(Step::Alloca { kind: array.kind, name: None });
                compiler.emit(Step::Store { pointer: cell, value: array.id });
                let place = compiler.emit(Step::ToIndex { value: number, folded: constant });
                let address = compiler.emit(
                    Step::ElementPointer { element, pointer: cell, index: place },
                );
                let id = compiler.emit(Step::Load { kind: element.kind(), pointer: address });
                Ok(Value::from(Operand { id, kind: element.kind() }))
            },
            _ => Err(LowerError::NotAnArray),
        },
        _ => Err(LowerError::IndexNotNumber),
    }
}

/// Lowers an indexing.
pub fn lower_array_index(compiler: &mut Compiler, expr: &Expr) -> (r: Result<Value, LowerError>)
    ensures
        agrees(r, final(compiler)@, lowered_array_index(old(compiler)@, expr@)),
    decreases expr, 0nat,
{
    match expr {
        Expr::ArrayIndex { array, index } => {
            let value = match lower_expr(compiler, array) {
                Ok(value) => value,
                Err(error) => {
                    return Err(error);
                },
            };
            let operand = match value.into_basic_value() {
                Ok(operand) => operand,
                Err(error) => {
                    return Err(error);
                },
            };
            let place = match lower_expr(compiler, index) {
                Ok(place) => place,
                Err(error) => {
                    return Err(error);
                },
            };
            read_element(compiler, operand, place)
        },
        _ => Err(LowerError::Unimplemented),
    }
}

/// Values of two different types make no array.
pub proof fn lemma_mixed_array_fails(s: CompilerModel, values: Seq<Value>, i: int, j: int)
    requires
        0 <= i < values.len(),
        0 <= j < values.len(),
        values[i].scalar() != values[j].scalar(),
    ensures
        array_of(s, values) is Err,
{
    if let Some(element) = values[0].scalar() {
        if uniform(values, element) {
            assert(values[i].scalar() == Some(element));
            assert(values[j].scalar() == Some(element));
        }
    }
}

/// Values that all have one scalar type make an array of that type, as
/// long as they are.
pub proof fn lemma_uniform_array_succeeds(s: CompilerModel, values: Seq<Value>, element: Scalar)
    requires
        0 < values.len() <= u32::MAX,
        uniform(values, element),
    ensures
        array_of(s, values) matches Ok((_, value)) && value == (Value::Array {
            id: with_operands(s, values, 0).next(),
            constant: all_constant(values),
            len: values.len() as u32,
            element,
        }),
{
    assert(values[0].scalar() == Some(element));
}

/// An array can be read at any number: reading succeeds and gives a value
/// of the type of the elements. The number is not held against the length.
pub proof fn lemma_array_is_indexable(
    s: CompilerModel,
    array: usize,
    len: u32,
    element: Scalar,
    index: usize,
    constant: bool,
    literal: Option<u32>,
)
    ensures
        element_of(
            s,
            Operand { id: array, kind: Kind::Array { len, element } },
            Value::Float { id: index, constant, literal },
        ) matches Ok((_, value)) && value.scalar() == Some(element),
{
}

} // verus!
