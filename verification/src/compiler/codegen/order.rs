//! Definition before use: every step refers only to values, blocks,
//! functions and names that exist when it is taken.
use crate::compiler::codegen::scope::{bound, Binding};
use crate::compiler::codegen::value::Value;
use crate::compiler::module::Step;
use crate::compiler::{CompilerModel, FunctionModel};
use vstd::prelude::*;

pub mod expressions;
pub mod loops;
pub mod program;
pub mod statements;

verus! {

/// Whether the step creates a value.
pub open spec fn is_value(step: Step) -> bool {
    step is Parameter || step is ConstNumber || step is ConstBool || step is ConstChar
        || step is ConstIndex || step is Array || step is ConstRange || step is Alloca
        || step is Global || step is Load || step is ElementPointer
        || step is ToIndex || step is Negate || step is Arithmetic || step is Compare
        || step is IndexAdd || step is IndexNotEqual || step is Call
}

/// Whether the step makes a constant: a value for which the back end
/// appends no instruction.
pub open spec fn is_constant_step(step: Step) -> bool {
    step is ConstNumber || step is ConstBool || step is ConstChar || step is ConstIndex
        || step is ConstRange || step.is_folded()
}

/// Whether `id` is a constant made before the step at `at`.
pub open spec fn constant_before(steps: Seq<Step>, id: usize, at: int) -> bool {
    value_before(steps, id, at) && is_constant_step(steps[id as int])
}

/// Whether `id` is a cell made before the step at `at`: a cell on the
/// stack or a global.
pub open spec fn cell_before(steps: Seq<Step>, id: usize, at: int) -> bool {
    id < at <= steps.len() && (steps[id as int] is Alloca || steps[id as int] is Global)
}

/// Whether `id` is a value created before the step at `at`.
pub open spec fn value_before(steps: Seq<Step>, id: usize, at: int) -> bool {
    id < at <= steps.len() && is_value(steps[id as int])
}

/// Whether `id` is a block appended before the step at `at`.
pub open spec fn block_before(steps: Seq<Step>, id: usize, at: int) -> bool {
    id < at <= steps.len() && steps[id as int] is AppendBlock
}

/// Whether `id` is a function declared before the step at `at`.
pub open spec fn function_before(steps: Seq<Step>, id: usize, at: int) -> bool {
    id < at <= steps.len() && steps[id as int] is DeclareFunction
}

/// Whether the `count` steps just before `at` give operands.
pub open spec fn operands_before(steps: Seq<Step>, at: int, count: int) -> bool {
    0 <= count <= at <= steps.len() && forall|k: int|
        at - count <= k < at ==> (#[trigger] steps[k]) is Element
}

/// Whether the step at `at` refers only to what exists before it, among
/// the steps and among `names` names.
pub open spec fn step_in_order(steps: Seq<Step>, names: nat, at: int) -> bool {
    match steps[at] {
        Step::DeclareFunction { name, .. } => name < names,
        Step::AppendBlock { function, .. } => function_before(steps, function, at),
        Step::PositionAtEnd { block } => block_before(steps, block, at),
        Step::PushBuilder { block } => block_before(steps, block, at),
        Step::ConstNumber { literal } => literal < names,
        Step::Element { value } => value_before(steps, value, at),
        Step::Array { len, .. } => operands_before(steps, at, len as int),
        Step::Alloca { name, .. } => name matches Some(name) ==> name < names,
        Step::Global { name, initializer, .. } => name < names && (initializer matches Some(
            value,
        ) ==> constant_before(steps, value, at)),
        Step::Store { pointer, value } => value_before(steps, pointer, at) && value_before(
            steps,
            value,
            at,
        ),
        Step::Load { pointer, .. } => value_before(steps, pointer, at),
        Step::ElementPointer { pointer, index, .. } => value_before(steps, pointer, at)
            && value_before(steps, index, at),
        Step::ToIndex { value, .. } => value_before(steps, value, at),
        Step::Negate { value, .. } => value_before(steps, value, at),
        Step::Arithmetic { lhs, rhs, .. } => value_before(steps, lhs, at) && value_before(
            steps,
            rhs,
            at,
        ),
        Step::Compare { lhs, rhs, .. } => value_before(steps, lhs, at) && value_before(
            steps,
            rhs,
            at,
        ),
        Step::IndexAdd { lhs, rhs } => value_before(steps, lhs, at) && value_before(steps, rhs, at),
        Step::IndexNotEqual { lhs, rhs } => value_before(steps, lhs, at) && value_before(
            steps,
            rhs,
            at,
        ),
        Step::Call { function, arity } => function_before(steps, function, at) && operands_before(
            steps,
            at,
            arity as int,
        ),
        Step::Return { value } => value matches Some(value) ==> value_before(steps, value, at),
        Step::Branch { target } => block_before(steps, target, at),
        Step::ConditionalBranch { condition, then_block, else_block } => value_before(
            steps,
            condition,
            at,
        ) && block_before(steps, then_block, at) && block_before(steps, else_block, at),
        _ => true,
    }
}

/// Whether every step refers only to what exists before it.
pub open spec fn in_order(steps: Seq<Step>, names: nat) -> bool {
    forall|at: int| 0 <= at < steps.len() ==> #[trigger] step_in_order(steps, names, at)
}

/// Whether what the state holds for good is in order: its steps are, and
/// the functions that the module holds are declared among them.
pub open spec fn held(s: CompilerModel) -> bool {
    &&& s.countable()
    &&& in_order(s.steps, s.names.len())
    &&& forall|k: int|
        0 <= k < s.functions.len() ==> function_before(
            s.steps,
            (#[trigger] s.functions[k]).id,
            s.steps.len() as int,
        )
}

/// Whether the state of a compilation is sound: what it holds for good is
/// in order, and what it works with exists among its steps: the cells
/// that names are bound to, which are cells indeed, and the function being
/// built.
pub open spec fn sound(s: CompilerModel) -> bool {
    &&& held(s)
    &&& forall|frame: int, name: Seq<char>|
        0 <= frame < s.scopes.len() && #[trigger] s.scopes[frame].contains_key(name)
            ==> cell_before(s.steps, s.scopes[frame][name].pointer, s.steps.len() as int)
    &&& function_before(s.steps, s.function, s.steps.len() as int)
}

/// Whether a value, where it is one, exists among the steps of the state,
/// and was made as a constant where it is one.
pub open spec fn value_sound(s: CompilerModel, value: Value) -> bool {
    value.operand() matches Some(operand) ==> value_before(
        s.steps,
        operand.id,
        s.steps.len() as int,
    ) && (value.is_constant() ==> is_constant_step(s.steps[operand.id as int]))
}

/// Whether `after` holds the steps and the functions of `before`, and
/// then more, and at least as many names.
pub open spec fn grows(before: CompilerModel, after: CompilerModel) -> bool {
    &&& before.steps.is_prefix_of(after.steps)
    &&& before.functions.is_prefix_of(after.functions)
    &&& before.names.len() <= after.names.len()
}

/// A step that is in order keeps a sound state sound.
pub broadcast proof fn lemma_emit_sound(s: CompilerModel, step: Step)
    requires
        sound(s),
        s.steps.len() < usize::MAX,
        step_in_order(s.steps.push(step), s.names.len(), s.steps.len() as int),
    ensures
        sound(#[trigger] s.emit(step)),
{
    let after = s.emit(step);
    assert forall|at: int| 0 <= at < after.steps.len() implies #[trigger] step_in_order(
        after.steps,
        after.names.len(),
        at,
    ) by {
        if at < s.steps.len() {
            assert(step_in_order(s.steps, s.names.len(), at));
            assert(after.steps[at] == s.steps[at]);
            lemma_step_stays(s.steps, s.names.len(), after.steps, after.names.len(), at);
        }
    }
}

/// A step that is in order among some steps and names stays in order
/// among more of them.
pub proof fn lemma_step_stays(
    steps: Seq<Step>,
    names: nat,
    more: Seq<Step>,
    more_names: nat,
    at: int,
)
    requires
        steps.is_prefix_of(more),
        names <= more_names,
        0 <= at < steps.len(),
        step_in_order(steps, names, at),
    ensures
        step_in_order(more, more_names, at),
{
    assert(forall|k: int| 0 <= k < steps.len() ==> steps[k] == more[k]);
}

/// Taking a step keeps the steps that were there.
pub broadcast proof fn lemma_emit_grows(s: CompilerModel, step: Step)
    ensures
        grows(s, #[trigger] s.emit(step)),
{
}

/// Adding a function keeps the functions that were there.
pub broadcast proof fn lemma_declare_grows(s: CompilerModel, function: FunctionModel)
    ensures
        grows(s, #[trigger] s.declare(function)),
{
}

/// A new name keeps a sound state sound.
pub broadcast proof fn lemma_intern_sound(s: CompilerModel, name: Seq<char>)
    requires
        sound(s),
        s.names.len() < usize::MAX,
    ensures
        sound(#[trigger] s.intern(name)),
{
    let after = s.intern(name);
    assert forall|at: int| 0 <= at < after.steps.len() implies #[trigger] step_in_order(
        after.steps,
        after.names.len(),
        at,
    ) by {
        assert(step_in_order(s.steps, s.names.len(), at));
        lemma_step_stays(s.steps, s.names.len(), after.steps, after.names.len(), at);
    }
}

/// Growth goes on: what grows from a state that has grown, has grown from
/// the first.
pub proof fn lemma_grows_on(a: CompilerModel, b: CompilerModel, c: CompilerModel)
    requires
        grows(a, b),
        grows(b, c),
    ensures
        grows(a, c),
{
}

/// A function that is declared among the steps can be added to those that
/// the module holds.
pub broadcast proof fn lemma_declare_sound(s: CompilerModel, function: FunctionModel)
    requires
        sound(s),
        function_before(s.steps, function.id, s.steps.len() as int),
    ensures
        sound(#[trigger] s.declare(function)),
{
    let after = s.declare(function);
    assert forall|k: int| 0 <= k < after.functions.len() implies function_before(
        after.steps,
        (#[trigger] after.functions[k]).id,
        after.steps.len() as int,
    ) by {
        if k < s.functions.len() {
            assert(after.functions[k] == s.functions[k]);
        }
    }
}

/// A name can be bound to a cell that exists among the steps.
pub proof fn lemma_bind_sound(s: CompilerModel, name: Seq<char>, binding: Binding)
    requires
        sound(s),
        s.scopes.len() > 0,
        cell_before(s.steps, binding.pointer, s.steps.len() as int),
    ensures
        sound(s.with_scopes(bound(s.scopes, name, binding))),
{
    let after = s.with_scopes(bound(s.scopes, name, binding));
    assert forall|frame: int, other: Seq<char>|
        0 <= frame < after.scopes.len() && #[trigger] after.scopes[frame].contains_key(
            other,
        ) implies cell_before(
        after.steps,
        after.scopes[frame][other].pointer,
        after.steps.len() as int,
    ) by {
        if frame < s.scopes.len() - 1 {
            assert(after.scopes[frame] == s.scopes[frame]);
            assert(s.scopes[frame].contains_key(other));
        } else if other != name {
            assert(s.scopes[frame].contains_key(other));
        }
    }
}

/// A frame can be opened.
pub proof fn lemma_push_sound(s: CompilerModel)
    requires
        sound(s),
    ensures
        sound(s.with_scopes(s.scopes.push(Map::empty()))),
{
    let after = s.with_scopes(s.scopes.push(Map::empty()));
    assert forall|frame: int, name: Seq<char>|
        0 <= frame < after.scopes.len() && #[trigger] after.scopes[frame].contains_key(
            name,
        ) implies cell_before(
        after.steps,
        after.scopes[frame][name].pointer,
        after.steps.len() as int,
    ) by {
        if frame < s.scopes.len() {
            assert(s.scopes[frame].contains_key(name));
        }
    }
}

/// The innermost frame can be closed.
pub proof fn lemma_pop_sound(s: CompilerModel)
    requires
        sound(s),
        s.scopes.len() > 0,
    ensures
        sound(s.with_scopes(s.scopes.drop_last())),
{
    let after = s.with_scopes(s.scopes.drop_last());
    assert forall|frame: int, name: Seq<char>|
        0 <= frame < after.scopes.len() && #[trigger] after.scopes[frame].contains_key(
            name,
        ) implies cell_before(
        after.steps,
        after.scopes[frame][name].pointer,
        after.steps.len() as int,
    ) by {
        assert(s.scopes[frame].contains_key(name));
    }
}

pub broadcast group group_order {
    lemma_declare_sound,
    lemma_declare_grows,
    lemma_emit_sound,
    lemma_emit_grows,
    lemma_intern_sound,
}

} // verus!
