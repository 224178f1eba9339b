//! What running the steps of a `for` loop does: the body is entered once
//! for each element of the array, in order.
//!
//! Running is modelled for the steps that a loop is made of: cells are
//! read and written, indices are counted and compared, and a conditional
//! branch goes where its condition says. What the body does is left open:
//! it is any change of the machine that leaves the loop's own two cells as
//! they are.
use crate::compiler::codegen::expr::lowered_expr;
use crate::compiler::codegen::looping::for_loop::{
    advanced, loop_meta, lowered_for_loop, prepared, walked, Walk,
};
use crate::compiler::codegen::order::expressions::lemma_expr_in_order;
use crate::compiler::codegen::order::loops::lemma_walked_in_order;
use crate::compiler::codegen::order::statements::lemma_prepared_in_order;
use crate::compiler::codegen::lowered_block;
use crate::compiler::codegen::order::statements::lemma_block_in_order;
use crate::compiler::codegen::order::{cell_before, sound};
use crate::compiler::codegen::scope::innermost;
use crate::compiler::codegen::scoping::lemma_bound_extends;
use crate::compiler::module::{Kind, Scalar, Step};
use crate::compiler::CompilerModel;
use crate::parser::ast::StatementModel;
use vstd::prelude::*;

verus! {

/// What a value or a cell holds while steps run.
pub enum Datum {
    /// Nothing that is known.
    Undefined,
    /// A number or a character, of which no more is said here.
    Scalar(int),
    Bool(bool),
    Index(u32),
    Array(Seq<Datum>),
    /// The address of a cell, or of one element of the array in a cell.
    Place { cell: usize, element: Option<u32> },
}

/// The machine on which steps run: what the values hold, by the numbers of
/// their steps, and what the cells hold, by the numbers of the steps that
/// made them.
pub struct Machine {
    pub values: Map<usize, Datum>,
    pub cells: Map<usize, Datum>,
}

/// The place that the value `pointer` is the address of. A step that
/// computes the address of an element gives it as its value; every other
/// step that gives an address makes a cell, and names that cell.
pub open spec fn place_of(steps: Seq<Step>, m: Machine, pointer: usize) -> (usize, Option<u32>) {
    if steps[pointer as int] is ElementPointer {
        match m.values[pointer] {
            Datum::Place { cell, element } => (cell, element),
            _ => (pointer, None),
        }
    } else {
        (pointer, None)
    }
}

/// What stands at a place: what the cell holds, or the element of the
/// array that it holds. Outside the array nothing is known.
pub open spec fn read(m: Machine, place: (usize, Option<u32>)) -> Datum {
    match place.1 {
        None => m.cells[place.0],
        Some(at) => match m.cells[place.0] {
            Datum::Array(elements) => if at < elements.len() {
                elements[at as int]
            } else {
                Datum::Undefined
            },
            _ => Datum::Undefined,
        },
    }
}

/// The machine after `datum` is put at a place. Outside an array nothing
/// is written.
pub open spec fn write(m: Machine, place: (usize, Option<u32>), datum: Datum) -> Machine {
    match place.1 {
        None => Machine { cells: m.cells.insert(place.0, datum), ..m },
        Some(at) => match m.cells[place.0] {
            Datum::Array(elements) => if at < elements.len() {
                Machine {
                    cells: m.cells.insert(place.0, Datum::Array(elements.update(at as int, datum))),
                    ..m
                }
            } else {
                m
            },
            _ => m,
        },
    }
}

/// The index that a datum is; zero for what is no index.
pub open spec fn index_of(datum: Datum) -> u32 {
    match datum {
        Datum::Index(at) => at,
        _ => 0,
    }
}

/// The machine after the step with the number `at` is run. Only the steps
/// that a loop is made of change the machine here.
pub open spec fn run_step(steps: Seq<Step>, at: int, m: Machine) -> Machine {
    let id = at as usize;
    match steps[at] {
        Step::ConstIndex { value } => Machine {
            values: m.values.insert(id, Datum::Index(value)),
            ..m
        },
        Step::Store { pointer, value } => write(m, place_of(steps, m, pointer), m.values[value]),
        Step::Load { pointer, .. } => Machine {
            values: m.values.insert(id, read(m, place_of(steps, m, pointer))),
            ..m
        },
        Step::ElementPointer { pointer, index, .. } => Machine {
            values: m.values.insert(
                id,
                Datum::Place {
                    cell: place_of(steps, m, pointer).0,
                    element: Some(index_of(m.values[index])),
                },
            ),
            ..m
        },
        Step::IndexAdd { lhs, rhs } => Machine {
            values: m.values.insert(
                id,
                Datum::Index(
                    ((index_of(m.values[lhs]) + index_of(m.values[rhs])) % 0x1_0000_0000) as u32,
                ),
            ),
            ..m
        },
        Step::IndexNotEqual { lhs, rhs } => Machine {
            values: m.values.insert(
                id,
                Datum::Bool(index_of(m.values[lhs]) != index_of(m.values[rhs])),
            ),
            ..m
        },
        _ => m,
    }
}

/// The machine after the steps from `from` up to `to` are run, one after
/// the other.
pub open spec fn run_range(steps: Seq<Step>, from: int, to: int, m: Machine) -> Machine
    decreases to - from,
{
    if from >= to {
        m
    } else {
        run_range(steps, from + 1, to, run_step(steps, from, m))
    }
}

/// Whether the conditional branch at `branch` goes to its first block: its
/// condition holds on the machine.
pub open spec fn enters(steps: Seq<Step>, branch: int, m: Machine) -> bool {
    steps[branch] matches Step::ConditionalBranch { condition, .. } && m.values[condition]
        == Datum::Bool(true)
}

/// The machines in which the body of a loop is entered, round for round.
///
/// `m` is the machine at the conditional branch at `branch`. Where the
/// branch enters the loop, the body runs, which changes the machine by
/// `body`; then the steps from `tail` up to the branch at `back` run, and
/// that branch decides on the next round. `fuel` bounds the rounds.
pub open spec fn rounds(
    steps: Seq<Step>,
    branch: int,
    tail: int,
    back: int,
    body: spec_fn(Machine) -> Machine,
    m: Machine,
    fuel: nat,
) -> Seq<Machine>
    decreases fuel,
{
    if fuel == 0 || !enters(steps, branch, m) {
        Seq::empty()
    } else {
        seq![m] + rounds(
            steps,
            back,
            tail,
            back,
            body,
            run_range(steps, tail, back, body(m)),
            (fuel - 1) as nat,
        )
    }
}

/// Whether the steps from `from` on make the cells of a loop over the
/// array `array`: a cell for the index, which is set to zero, a cell into
/// which the array is stored, and the two blocks.
pub open spec fn prepare_at(steps: Seq<Step>, from: int, array: usize, walk: Walk) -> bool {
    &&& 0 <= from
    &&& from + 7 <= steps.len() <= usize::MAX
    &&& array < from
    &&& walk.index_cell == from
    &&& walk.array_cell == from + 3
    &&& walk.loop_block == from + 5
    &&& walk.merge_block == from + 6
    &&& steps[from] is Alloca
    &&& steps[from + 1] == Step::ConstIndex { value: 0 }
    &&& steps[from + 2] == Step::Store { pointer: walk.index_cell, value: (from + 1) as usize }
    &&& steps[from + 3] is Alloca
    &&& steps[from + 4] == Step::Store { pointer: walk.array_cell, value: array }
    &&& steps[from + 5] is AppendBlock
    &&& steps[from + 6] is AppendBlock
}

/// Whether the steps from `from` on fetch the element at the index into
/// the cell `target` and test the index against the length of the array.
/// `fresh` says that the cell is made on the way.
pub open spec fn meta_at(steps: Seq<Step>, from: int, target: usize, fresh: bool, walk: Walk) -> bool {
    let skip: int = if fresh {
        1
    } else {
        0
    };
    &&& 0 <= from
    &&& from + 7 + skip <= steps.len() <= usize::MAX
    &&& walk.array_cell < from
    &&& walk.index_cell < from
    &&& target != walk.index_cell
    &&& target != walk.array_cell
    &&& target < steps.len()
    &&& !(steps[target as int] is ElementPointer)
    &&& !(steps[walk.index_cell as int] is ElementPointer)
    &&& !(steps[walk.array_cell as int] is ElementPointer)
    &&& steps[from] == Step::Load { kind: Kind::Index, pointer: walk.index_cell }
    &&& steps[from + 1] == Step::ElementPointer {
        element: walk.element,
        pointer: walk.array_cell,
        index: from as usize,
    }
    &&& steps[from + 2] == Step::Load { kind: walk.element.kind(), pointer: (from + 1) as usize }
    &&& fresh ==> steps[from + 3] is Alloca && target == from + 3
    &&& steps[from + 3 + skip] == Step::Store { pointer: target, value: (from + 2) as usize }
    &&& steps[from + 4 + skip] == Step::ConstIndex { value: walk.len }
    &&& steps[from + 5 + skip] == Step::IndexNotEqual {
        lhs: from as usize,
        rhs: (from + 4 + skip) as usize,
    }
    &&& steps[from + 6 + skip] == Step::ConditionalBranch {
        condition: (from + 5 + skip) as usize,
        then_block: walk.loop_block,
        else_block: walk.merge_block,
    }
}

/// Whether the steps from `from` on raise the index by one.
pub open spec fn advance_at(steps: Seq<Step>, from: int, walk: Walk) -> bool {
    &&& 0 <= from
    &&& from + 4 <= steps.len() <= usize::MAX
    &&& walk.index_cell < from
    &&& !(steps[walk.index_cell as int] is ElementPointer)
    &&& steps[from] == Step::Load { kind: Kind::Index, pointer: walk.index_cell }
    &&& steps[from + 1] == Step::ConstIndex { value: 1 }
    &&& steps[from + 2] == Step::IndexAdd { lhs: from as usize, rhs: (from + 1) as usize }
    &&& steps[from + 3] == Step::Store { pointer: walk.index_cell, value: (from + 2) as usize }
}

/// Whether the cells of the loop hold the index `index` and the array of
/// the elements `elements`.
pub open spec fn holds(m: Machine, walk: Walk, index: int, elements: Seq<Datum>) -> bool {
    &&& 0 <= index <= u32::MAX
    &&& m.cells[walk.index_cell] == Datum::Index(index as u32)
    &&& m.cells[walk.array_cell] == Datum::Array(elements)
}

/// The element at `index`, and nothing that is known outside the array.
pub open spec fn element_at(elements: Seq<Datum>, index: int) -> Datum {
    if 0 <= index < elements.len() {
        elements[index]
    } else {
        Datum::Undefined
    }
}

/// Whether the body leaves the two cells of the loop as they are.
pub open spec fn keeps(body: spec_fn(Machine) -> Machine, walk: Walk) -> bool {
    forall|m: Machine|
        (#[trigger] body(m)).cells[walk.index_cell] == m.cells[walk.index_cell] && body(m).cells[
            walk.array_cell
        ] == m.cells[walk.array_cell]
}

/// Running the steps of a range is running the first and then the rest.
pub proof fn lemma_run_first(steps: Seq<Step>, from: int, to: int, m: Machine)
    requires
        from < to,
    ensures
        run_range(steps, from, to, m) == run_range(steps, from + 1, to, run_step(steps, from, m)),
{
}

/// Running the steps that make the cells of a loop leaves the index at
/// zero and the array in its cell.
pub proof fn lemma_run_prepare(
    steps: Seq<Step>,
    from: int,
    array: usize,
    walk: Walk,
    m: Machine,
    elements: Seq<Datum>,
)
    requires
        prepare_at(steps, from, array, walk),
        m.values[array] == Datum::Array(elements),
    ensures
        holds(run_range(steps, from, from + 7, m), walk, 0, elements),
{
    let m1 = run_step(steps, from, m);
    let m2 = run_step(steps, from + 1, m1);
    let m3 = run_step(steps, from + 2, m2);
    let m4 = run_step(steps, from + 3, m3);
    let m5 = run_step(steps, from + 4, m4);
    let m6 = run_step(steps, from + 5, m5);
    let m7 = run_step(steps, from + 6, m6);
    lemma_run_first(steps, from, from + 7, m);
    lemma_run_first(steps, from + 1, from + 7, m1);
    lemma_run_first(steps, from + 2, from + 7, m2);
    lemma_run_first(steps, from + 3, from + 7, m3);
    lemma_run_first(steps, from + 4, from + 7, m4);
    lemma_run_first(steps, from + 5, from + 7, m5);
    lemma_run_first(steps, from + 6, from + 7, m6);
    assert(run_range(steps, from + 7, from + 7, m7) == m7);
    assert(m2.values[(from + 1) as usize] == Datum::Index(0));
    assert(m3.cells[walk.index_cell] == Datum::Index(0));
    assert(m3.values[array] == Datum::Array(elements));
    assert(m5.cells[walk.array_cell] == Datum::Array(elements));
    assert(m5.cells[walk.index_cell] == Datum::Index(0));
}

/// Running the steps that fetch and test leaves the cells of the loop as
/// they are, puts the element at the index into the target cell, and
/// makes the branch enter the loop exactly where the index is not the
/// length of the array.
pub proof fn lemma_run_meta(
    steps: Seq<Step>,
    from: int,
    target: usize,
    fresh: bool,
    walk: Walk,
    m: Machine,
    index: int,
    elements: Seq<Datum>,
)
    requires
        meta_at(steps, from, target, fresh, walk),
        holds(m, walk, index, elements),
    ensures
        ({
            let branch = from + 6 + if fresh {
                1int
            } else {
                0int
            };
            let after = run_range(steps, from, branch, m);
            &&& holds(after, walk, index, elements)
            &&& after.cells[target] == element_at(elements, index)
            &&& enters(steps, branch, after) == (index != walk.len)
        }),
{
    let skip: int = if fresh {
        1
    } else {
        0
    };
    let branch = from + 6 + skip;
    let m1 = run_step(steps, from, m);
    let m2 = run_step(steps, from + 1, m1);
    let m3 = run_step(steps, from + 2, m2);
    lemma_run_first(steps, from, branch, m);
    lemma_run_first(steps, from + 1, branch, m1);
    lemma_run_first(steps, from + 2, branch, m2);
    assert(m1.values[from as usize] == Datum::Index(index as u32));
    assert(m2.values[(from + 1) as usize] == (Datum::Place {
        cell: walk.array_cell,
        element: Some(index as u32),
    }));
    assert(m2.values[from as usize] == Datum::Index(index as u32));
    assert(m3.values[(from + 2) as usize] == element_at(elements, index));
    assert(m3.values[from as usize] == Datum::Index(index as u32));
    let m4 = if fresh {
        lemma_run_first(steps, from + 3, branch, m3);
        run_step(steps, from + 3, m3)
    } else {
        m3
    };
    assert(m4 == m3);
    let at = from + 3 + skip;
    let m5 = run_step(steps, at, m4);
    let m6 = run_step(steps, at + 1, m5);
    let m7 = run_step(steps, at + 2, m6);
    lemma_run_first(steps, at, branch, m4);
    lemma_run_first(steps, at + 1, branch, m5);
    lemma_run_first(steps, at + 2, branch, m6);
    assert(run_range(steps, branch, branch, m7) == m7);
    assert(m5.cells[target] == element_at(elements, index));
    assert(m5.cells[walk.index_cell] == Datum::Index(index as u32));
    assert(m5.cells[walk.array_cell] == Datum::Array(elements));
    assert(m5.values[from as usize] == Datum::Index(index as u32));
    assert(m6.values[(at + 1) as usize] == Datum::Index(walk.len));
    assert(m6.values[from as usize] == Datum::Index(index as u32));
    assert(m7.values[(at + 2) as usize] == Datum::Bool(index as u32 != walk.len));
}

/// Running the steps that raise the index leaves the array in its cell and
/// the index one higher.
pub proof fn lemma_run_advance(
    steps: Seq<Step>,
    from: int,
    walk: Walk,
    m: Machine,
    index: int,
    elements: Seq<Datum>,
)
    requires
        advance_at(steps, from, walk),
        holds(m, walk, index, elements),
        index < u32::MAX,
        walk.array_cell != walk.index_cell,
    ensures
        holds(run_range(steps, from, from + 4, m), walk, index + 1, elements),
{
    let m1 = run_step(steps, from, m);
    let m2 = run_step(steps, from + 1, m1);
    let m3 = run_step(steps, from + 2, m2);
    let m4 = run_step(steps, from + 3, m3);
    lemma_run_first(steps, from, from + 4, m);
    lemma_run_first(steps, from + 1, from + 4, m1);
    lemma_run_first(steps, from + 2, from + 4, m2);
    lemma_run_first(steps, from + 3, from + 4, m3);
    assert(run_range(steps, from + 4, from + 4, m4) == m4);
    assert(m1.values[from as usize] == Datum::Index(index as u32));
    assert(m2.values[(from + 1) as usize] == Datum::Index(1));
    assert(m2.values[from as usize] == Datum::Index(index as u32));
    assert(m3.values[(from + 2) as usize] == Datum::Index((index + 1) as u32));
}

/// Running a range is running its first part and then its second.
pub proof fn lemma_run_split(steps: Seq<Step>, from: int, mid: int, to: int, m: Machine)
    requires
        from <= mid <= to,
    ensures
        run_range(steps, from, to, m) == run_range(steps, mid, to, run_range(steps, from, mid, m)),
    decreases mid - from,
{
    if from < mid {
        lemma_run_split(steps, from + 1, mid, to, run_step(steps, from, m));
    }
}

/// The body of a loop is entered once for each element that is left, in
/// order.
///
/// The machine `m` stands at the branch at `branch`, which enters the
/// loop exactly where the index is not the length of the array; the cells
/// of the loop hold the index and the array, and the target cell holds the
/// element at the index. From `tail` on the steps raise the index, fetch
/// the next element and test again. Then the body is entered once for the
/// index and once for every index after it, up to the length; each time
/// the target cell holds the element at that index.
pub proof fn lemma_rounds(
    steps: Seq<Step>,
    branch: int,
    tail: int,
    target: usize,
    walk: Walk,
    body: spec_fn(Machine) -> Machine,
    m: Machine,
    fuel: nat,
    index: int,
    elements: Seq<Datum>,
)
    requires
        advance_at(steps, tail, walk),
        meta_at(steps, tail + 4, target, false, walk),
        walk.array_cell != walk.index_cell,
        holds(m, walk, index, elements),
        m.cells[target] == element_at(elements, index),
        index <= walk.len == elements.len(),
        enters(steps, branch, m) == (index != walk.len),
        keeps(body, walk),
        fuel > walk.len - index,
    ensures
        rounds(steps, branch, tail, tail + 10, body, m, fuel).len() == walk.len - index,
        forall|j: int|
            0 <= j < walk.len - index ==> {
                let entered = #[trigger] rounds(steps, branch, tail, tail + 10, body, m, fuel)[j];
                &&& entered.cells[target] == elements[index + j]
                &&& holds(entered, walk, index + j, elements)
            },
    decreases walk.len - index,
{
    if index != walk.len {
        let inside = body(m);
        assert(holds(inside, walk, index, elements));
        lemma_run_advance(steps, tail, walk, inside, index, elements);
        let raised = run_range(steps, tail, tail + 4, inside);
        lemma_run_meta(steps, tail + 4, target, false, walk, raised, index + 1, elements);
        lemma_run_split(steps, tail, tail + 4, tail + 10, inside);
        let next = run_range(steps, tail, tail + 10, inside);
        lemma_rounds(
            steps,
            tail + 10,
            tail,
            target,
            walk,
            body,
            next,
            (fuel - 1) as nat,
            index + 1,
            elements,
        );
        let rest = rounds(steps, tail + 10, tail, tail + 10, body, next, (fuel - 1) as nat);
        let all = rounds(steps, branch, tail, tail + 10, body, m, fuel);
        assert(all == seq![m] + rest);
        assert forall|j: int| 0 <= j < walk.len - index implies {
            let entered = #[trigger] all[j];
            &&& entered.cells[target] == elements[index + j]
            &&& holds(entered, walk, index + j, elements)
        } by {
            if j > 0 {
                assert(all[j] == rest[j - 1]);
            }
        }
    }
}

/// The state in which the body of a loop is lowered: the loop is prepared,
/// the first element is fetched and the index tested, and the builder
/// stands in the block of the loop.
pub open spec fn before_body(
    computed: CompilerModel,
    array: usize,
    len: u32,
    element: Scalar,
    identifier: Seq<char>,
) -> CompilerModel {
    let (ready, walk) = prepared(computed, array, len, element);
    match loop_meta(ready, identifier, walk) {
        Ok(tested) => tested.emit(Step::PositionAtEnd { block: walk.loop_block }),
        Err(_) => ready,
    }
}

/// The state after the body of a loop is lowered.
pub open spec fn after_body(
    computed: CompilerModel,
    array: usize,
    len: u32,
    element: Scalar,
    identifier: Seq<char>,
    statements: Seq<StatementModel>,
) -> CompilerModel {
    let inside = before_body(computed, array, len, element, identifier);
    match lowered_block(inside, statements, 0, false) {
        Ok(done) => done,
        Err(_) => inside,
    }
}

/// The steps that prepare a loop are those that make its cells.
pub proof fn lemma_prepared_steps(computed: CompilerModel, array: usize, len: u32, element: Scalar)
    requires
        prepared(computed, array, len, element).0.countable(),
        array < computed.steps.len(),
    ensures
        prepare_at(
            prepared(computed, array, len, element).0.steps,
            computed.steps.len() as int,
            array,
            prepared(computed, array, len, element).1,
        ),
        prepared(computed, array, len, element).0.steps.len() == computed.steps.len() + 7,
        prepared(computed, array, len, element).0.scopes == computed.scopes,
        computed.steps.is_prefix_of(prepared(computed, array, len, element).0.steps),
{
}

/// The steps before and after the body of a loop are those that fetch and
/// test, into the cell that the loop's name is bound to afterwards.
pub proof fn lemma_meta_steps(s: CompilerModel, identifier: Seq<char>, walk: Walk)
    requires
        loop_meta(s, identifier, walk) matches Ok(after) && after.countable(),
        walk.index_cell < s.steps.len(),
        walk.array_cell < s.steps.len(),
        !(s.steps[walk.index_cell as int] is ElementPointer),
        !(s.steps[walk.array_cell as int] is ElementPointer),
        innermost(s.scopes, identifier) matches Some(binding) ==> binding.pointer < s.steps.len()
            && !(s.steps[binding.pointer as int] is ElementPointer) && binding.pointer
            != walk.index_cell && binding.pointer != walk.array_cell,
    ensures
        ({
            let after = loop_meta(s, identifier, walk)->Ok_0;
            let fresh = innermost(s.scopes, identifier) is None;
            &&& innermost(after.scopes, identifier) is Some
            &&& !fresh ==> after.scopes == s.scopes
            &&& meta_at(
                after.steps,
                s.steps.len() as int,
                innermost(after.scopes, identifier)->0.pointer,
                fresh,
                walk,
            )
            &&& after.steps.len() == s.steps.len() + 7 + if fresh {
                1int
            } else {
                0int
            }
            &&& s.steps.is_prefix_of(after.steps)
        }),
{
    if innermost(s.scopes, identifier) is None {
        let after = loop_meta(s, identifier, walk)->Ok_0;
        assert(s.scopes.len() > 0);
        lemma_bound_extends(s.scopes, identifier, innermost(after.scopes, identifier)->0);
    }
}

/// The steps after the body of a loop are those that raise the index.
pub proof fn lemma_advanced_steps(s: CompilerModel, walk: Walk)
    requires
        advanced(s, walk).countable(),
        walk.index_cell < s.steps.len(),
        !(s.steps[walk.index_cell as int] is ElementPointer),
    ensures
        advance_at(advanced(s, walk).steps, s.steps.len() as int, walk),
        advanced(s, walk).steps.len() == s.steps.len() + 4,
        advanced(s, walk).scopes == s.scopes,
        s.steps.is_prefix_of(advanced(s, walk).steps),
{
}

/// The steps that make the cells of a loop stay what they are as more
/// steps are taken.
pub proof fn lemma_prepare_stays(
    steps: Seq<Step>,
    more: Seq<Step>,
    from: int,
    array: usize,
    walk: Walk,
)
    requires
        prepare_at(steps, from, array, walk),
        steps.is_prefix_of(more),
        more.len() <= usize::MAX,
    ensures
        prepare_at(more, from, array, walk),
{
}

/// The steps that fetch and test stay what they are as more steps are
/// taken.
pub proof fn lemma_meta_stays(
    steps: Seq<Step>,
    more: Seq<Step>,
    from: int,
    target: usize,
    fresh: bool,
    walk: Walk,
)
    requires
        meta_at(steps, from, target, fresh, walk),
        steps.is_prefix_of(more),
        more.len() <= usize::MAX,
    ensures
        meta_at(more, from, target, fresh, walk),
{
}

/// The steps that raise the index stay what they are as more steps are
/// taken.
pub proof fn lemma_advance_stays(steps: Seq<Step>, more: Seq<Step>, from: int, walk: Walk)
    requires
        advance_at(steps, from, walk),
        steps.is_prefix_of(more),
        more.len() <= usize::MAX,
    ensures
        advance_at(more, from, walk),
{
}

/// Where the steps of a lowered loop stand.
pub struct Layout {
    /// All the steps, up to the end of the loop.
    pub steps: Seq<Step>,
    /// What the loop works with.
    pub walk: Walk,
    /// The first step of the loop.
    pub start: int,
    /// The branch that decides whether the loop is entered at all.
    pub first: int,
    /// The first step after the body.
    pub tail: int,
    /// The branch that decides whether the loop is entered again.
    pub back: int,
    /// The cell that the loop's name is bound to.
    pub target: usize,
}

/// Where the steps of the loop stand that is lowered from the state
/// `computed`, for the array with the number `array`.
#[verifier::opaque]
pub open spec fn layout(
    computed: CompilerModel,
    array: usize,
    len: u32,
    element: Scalar,
    identifier: Seq<char>,
    statements: Seq<StatementModel>,
) -> Layout {
    let (ready, walk) = prepared(computed, array, len, element);
    let inside = before_body(computed, array, len, element, identifier);
    let done = after_body(computed, array, len, element, identifier, statements);
    Layout {
        steps: walked(ready, identifier, walk, statements)->Ok_0.steps,
        walk,
        start: computed.steps.len() as int,
        first: inside.steps.len() - 2,
        tail: done.steps.len() as int,
        back: done.steps.len() as int + 10,
        target: innermost(inside.scopes, identifier)->0.pointer,
    }
}

/// Whether a loop can be lowered from the state `computed` so that its
/// running can be followed: the state is sound, as every state is that
/// lowering comes to; lowering the loop succeeds; the array is a value made
/// before the loop; and the body leaves the binding of the loop's name as
/// it is.
pub open spec fn followed(
    computed: CompilerModel,
    array: usize,
    len: u32,
    element: Scalar,
    identifier: Seq<char>,
    statements: Seq<StatementModel>,
) -> bool {
    &&& walked(
        prepared(computed, array, len, element).0,
        identifier,
        prepared(computed, array, len, element).1,
        statements,
    ) matches Ok(after) && after.countable()
    &&& sound(computed)
    &&& array < computed.steps.len()
    &&& innermost(
        after_body(computed, array, len, element, identifier, statements).scopes,
        identifier,
    ) == innermost(before_body(computed, array, len, element, identifier).scopes, identifier)
}

/// Whether the steps of a loop stand as lowering puts them: the cells are
/// made, the first element is fetched and the index tested; the block of
/// the loop begins, in which the body stands; after the body the index is
/// raised, the next element fetched and the index tested again; and the
/// builder is put at the end of the block after the loop. Both branches
/// enter the block of the loop or go to the block after it.
pub open spec fn laid_out(l: Layout, array: usize, len: u32) -> bool {
    let fresh = l.first == l.start + 14;
    &&& l.walk.len == len
    &&& l.walk.array_cell != l.walk.index_cell
    &&& prepare_at(l.steps, l.start, array, l.walk)
    &&& fresh || l.first == l.start + 13
    &&& meta_at(l.steps, l.start + 7, l.target, fresh, l.walk)
    &&& l.steps[l.first + 1] == (Step::PositionAtEnd { block: l.walk.loop_block })
    &&& l.first + 2 <= l.tail
    &&& advance_at(l.steps, l.tail, l.walk)
    &&& meta_at(l.steps, l.tail + 4, l.target, false, l.walk)
    &&& l.back == l.tail + 10
    &&& l.steps.len() == l.back + 2
    &&& l.steps.last() == (Step::PositionAtEnd { block: l.walk.merge_block })
}

/// The steps of a lowered loop stand as [`laid_out`] says.
#[verifier::rlimit(80)]
pub proof fn lemma_layout(
    computed: CompilerModel,
    array: usize,
    len: u32,
    element: Scalar,
    identifier: Seq<char>,
    statements: Seq<StatementModel>,
)
    requires
        followed(computed, array, len, element, identifier, statements),
    ensures
        laid_out(layout(computed, array, len, element, identifier, statements), array, len),
{
    reveal(layout);
    let (ready, walk) = prepared(computed, array, len, element);
    let after = walked(ready, identifier, walk, statements)->Ok_0;
    let tested = loop_meta(ready, identifier, walk)->Ok_0;
    let inside = tested.emit(Step::PositionAtEnd { block: walk.loop_block });
    let done = lowered_block(inside, statements, 0, false)->Ok_0;
    let raised = advanced(done, walk);
    let again = loop_meta(raised, identifier, walk)->Ok_0;
    let steps = after.steps;
    let c = computed.steps.len() as int;
    let d = done.steps.len() as int;
    lemma_block_in_order(inside, statements, 0, false);
    assert(again.steps.is_prefix_of(steps));
    assert(tested.steps.is_prefix_of(inside.steps));
    if let Some(binding) = innermost(computed.scopes, identifier) {
        assert(computed.scopes[computed.scopes.len() - 1].contains_key(identifier));
        assert(cell_before(computed.steps, binding.pointer, c));
    }
    lemma_prepared_steps(computed, array, len, element);
    lemma_meta_steps(ready, identifier, walk);
    let fresh = innermost(computed.scopes, identifier) is None;
    let target = innermost(tested.scopes, identifier)->0.pointer;
    assert(done.steps[walk.index_cell as int] == ready.steps[walk.index_cell as int]) by {
        assert(inside.steps[walk.index_cell as int] == tested.steps[walk.index_cell as int]);
    }
    assert(done.steps[walk.array_cell as int] == ready.steps[walk.array_cell as int]) by {
        assert(inside.steps[walk.array_cell as int] == tested.steps[walk.array_cell as int]);
    }
    assert(done.steps[target as int] == tested.steps[target as int]) by {
        assert(inside.steps[target as int] == tested.steps[target as int]);
    }
    lemma_advanced_steps(done, walk);
    lemma_meta_steps(raised, identifier, walk);
    assert(raised.steps.is_prefix_of(again.steps));
    lemma_prepare_stays(ready.steps, steps, c, array, walk);
    lemma_meta_stays(tested.steps, steps, c + 7, target, fresh, walk);
    lemma_advance_stays(raised.steps, steps, d, walk);
    lemma_meta_stays(again.steps, steps, d + 4, target, false, walk);
    let first = inside.steps.len() - 2;
    assert(steps[first + 1] == inside.steps[first + 1]) by {
        assert(done.steps[first + 1] == inside.steps[first + 1]);
    }
}

/// Running the steps of a `for` loop enters the body once for each element
/// of the array, in order, and then goes on after the loop.
///
/// The loop is lowered from the state `computed` for the array with the
/// number `array`, which holds `elements` on the machine `m`. The machine
/// runs the steps from the first of the loop up to the first branch; the
/// branch enters the loop where the array has an element. What the body
/// does to the machine is `body`, which leaves the two cells of the loop as
/// they are; after the body the steps up to the second branch run, and
/// that branch decides on the next round. Then the body is entered as
/// often as the array has elements, and not at all where it has none: in
/// round `k` the cell of the loop's name, from which a read of the name
/// loads, holds the element `k`. Both branches enter the block of the loop
/// or go to the block after it, at whose end the builder stands when the
/// loop is lowered.
pub proof fn lemma_for_loop_runs_once_per_element(
    computed: CompilerModel,
    array: usize,
    len: u32,
    element: Scalar,
    identifier: Seq<char>,
    statements: Seq<StatementModel>,
    m: Machine,
    body: spec_fn(Machine) -> Machine,
    elements: Seq<Datum>,
)
    requires
        followed(computed, array, len, element, identifier, statements),
        m.values[array] == Datum::Array(elements),
        elements.len() == len,
        keeps(body, prepared(computed, array, len, element).1),
    ensures
        ({
            let l = layout(computed, array, len, element, identifier, statements);
            let started = run_range(l.steps, l.start, l.first, m);
            let entered = rounds(l.steps, l.first, l.tail, l.back, body, started, (len + 1) as nat);
            &&& laid_out(l, array, len)
            &&& entered.len() == len
            &&& forall|k: int|
                0 <= k < len ==> (#[trigger] entered[k]).cells[l.target] == elements[k]
        }),
{
    let l = layout(computed, array, len, element, identifier, statements);
    lemma_layout(computed, array, len, element, identifier, statements);
    assert(l.walk == prepared(computed, array, len, element).1) by {
        reveal(layout);
    }
    let fresh = l.first == l.start + 14;
    lemma_run_prepare(l.steps, l.start, array, l.walk, m, elements);
    let ready = run_range(l.steps, l.start, l.start + 7, m);
    lemma_run_meta(l.steps, l.start + 7, l.target, fresh, l.walk, ready, 0, elements);
    lemma_run_split(l.steps, l.start, l.start + 7, l.first, m);
    let started = run_range(l.steps, l.start, l.first, m);
    lemma_rounds(
        l.steps,
        l.first,
        l.tail,
        l.target,
        l.walk,
        body,
        started,
        (len + 1) as nat,
        0,
        elements,
    );
}

/// Running the steps of a `for` statement enters its body once for each
/// element of the array that its expression gives, in order.
///
/// The statement is lowered from a sound state; its expression gives an
/// array, which holds `elements` on the machine; and the body leaves the
/// binding of the loop's name as it is. Then what
/// [`lemma_for_loop_runs_once_per_element`] says holds of the loop, as it
/// is lowered from the state after the expression.
pub proof fn lemma_for_statement_runs_once_per_element(
    s: CompilerModel,
    statement: StatementModel,
    m: Machine,
    body: spec_fn(Machine) -> Machine,
    elements: Seq<Datum>,
)
    requires
        statement is ForLoop,
        sound(s),
        lowered_for_loop(s, statement) matches Ok((after, _)) && after.countable(),
        ({
            let (computed, value) = lowered_expr(s, statement->ForLoop_expression)->Ok_0;
            let array = value->Array_id;
            let len = value->Array_len;
            let element = value->Array_element;
            let identifier = statement->ForLoop_identifier;
            let statements = statement->ForLoop_body;
            &&& innermost(
                after_body(computed, array, len, element, identifier, statements).scopes,
                identifier,
            ) == innermost(
                before_body(computed, array, len, element, identifier).scopes,
                identifier,
            )
            &&& m.values[array] == Datum::Array(elements)
            &&& elements.len() == len
            &&& keeps(body, prepared(computed, array, len, element).1)
        }),
    ensures
        ({
            let (computed, value) = lowered_expr(s, statement->ForLoop_expression)->Ok_0;
            let array = value->Array_id;
            let len = value->Array_len;
            let l = layout(
                computed,
                array,
                len,
                value->Array_element,
                statement->ForLoop_identifier,
                statement->ForLoop_body,
            );
            let started = run_range(l.steps, l.start, l.first, m);
            let entered = rounds(l.steps, l.first, l.tail, l.back, body, started, (len + 1) as nat);
            &&& value is Array
            &&& laid_out(l, array, len)
            &&& entered.len() == len
            &&& forall|k: int|
                0 <= k < len ==> (#[trigger] entered[k]).cells[l.target] == elements[k]
        }),
{
    match statement {
        StatementModel::ForLoop { identifier, expression, body: statements, .. } => {
            lemma_expr_in_order(s, expression);
            let (computed, value) = lowered_expr(s, expression)->Ok_0;
            let array = value->Array_id;
            let len = value->Array_len;
            let element = value->Array_element;
            let (ready, walk) = prepared(computed, array, len, element);
            lemma_prepared_in_order(computed, array, len, element);
            lemma_walked_in_order(ready, identifier, walk, statements);
            let after = walked(ready, identifier, walk, statements)->Ok_0;
            assert(computed.steps.is_prefix_of(after.steps));
            assert(computed.countable());
            assert(sound(computed));
            lemma_for_loop_runs_once_per_element(
                computed,
                array,
                len,
                element,
                identifier,
                statements,
                m,
                body,
                elements,
            );
        },
        _ => {},
    }
}

} // verus!
