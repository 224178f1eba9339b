//! Loops over arrays are lowered in order.
use crate::compiler::CompilerModel;
use crate::compiler::codegen::expr::lowered_expr;
use crate::compiler::codegen::looping::for_loop::{
    advanced, loop_meta, lowered_for_loop, prepared, walked, Walk,
};
use crate::compiler::codegen::lowered_block;
use crate::compiler::codegen::order::{
    block_before, grows, lemma_emit_grows, lemma_emit_sound, lemma_grows_on, sound, value_sound,
};
use crate::compiler::codegen::order::expressions::{lemma_expr_in_order, lowered_in_order};
use crate::compiler::codegen::order::statements::{
    lemma_advanced_in_order, lemma_block_in_order, lemma_loop_meta_in_order,
    lemma_prepared_in_order, state_in_order_with, walk_known,
};
use crate::compiler::codegen::value::Value;
use crate::compiler::module::Step;
use crate::parser::ast::StatementModel;
use vstd::prelude::*;

verus! {

/// What a loop works with stays known as the steps grow.
pub proof fn lemma_walk_stays(before: CompilerModel, after: CompilerModel, walk: Walk)
    requires
        grows(before, after),
        walk_known(before, walk),
    ensures
        walk_known(after, walk),
{
}

/// Moving to a block of the loop keeps a sound state sound.
pub proof fn lemma_move_in_order(s: CompilerModel, block: usize)
    requires
        block_before(s.steps, block, s.steps.len() as int),
    ensures
        grows(s, s.emit(Step::PositionAtEnd { block })),
        sound(s) && s.emit(Step::PositionAtEnd { block }).countable() ==> sound(
            s.emit(Step::PositionAtEnd { block }),
        ),
{
    lemma_emit_grows(s, Step::PositionAtEnd { block });
    if sound(s) && s.emit(Step::PositionAtEnd { block }).countable() {
        lemma_emit_sound(s, Step::PositionAtEnd { block });
    }
}

/// Walking an array is lowered in order.
pub proof fn lemma_walked_in_order(
    s: CompilerModel,
    identifier: Seq<char>,
    walk: Walk,
    body: Seq<StatementModel>,
)
    ensures
        state_in_order_with(s, walked(s, identifier, walk, body), walk_known(s, walk)),
    decreases body, body.len() + 1,
{
    lemma_loop_meta_in_order(s, identifier, walk);
    if let Ok(checked) = loop_meta(s, identifier, walk) {
        let inside = checked.emit(Step::PositionAtEnd { block: walk.loop_block });
        lemma_block_in_order(inside, body, 0, false);
        if let Ok(done) = lowered_block(inside, body, 0, false) {
            let raised = advanced(done, walk);
            lemma_advanced_in_order(done, walk);
            lemma_loop_meta_in_order(raised, identifier, walk);
            if let Ok(again) = loop_meta(raised, identifier, walk) {
                let after = again.emit(Step::PositionAtEnd { block: walk.merge_block });
                lemma_emit_grows(checked, Step::PositionAtEnd { block: walk.loop_block });
                lemma_emit_grows(again, Step::PositionAtEnd { block: walk.merge_block });
                lemma_grows_on(s, checked, inside);
                lemma_grows_on(s, inside, done);
                lemma_grows_on(s, done, raised);
                lemma_grows_on(s, raised, again);
                lemma_grows_on(s, again, after);
                if sound(s) && after.countable() && walk_known(s, walk) {
                    assert(sound(checked));
                    lemma_walk_stays(s, checked, walk);
                    lemma_move_in_order(checked, walk.loop_block);
                    assert(sound(inside));
                    lemma_walk_stays(s, inside, walk);
                    assert(sound(done));
                    lemma_walk_stays(s, done, walk);
                    assert(sound(raised));
                    lemma_walk_stays(s, raised, walk);
                    assert(sound(again));
                    lemma_walk_stays(s, again, walk);
                    lemma_move_in_order(again, walk.merge_block);
                }
            }
        }
    }
}

/// A `for` is lowered in order.
pub proof fn lemma_for_in_order(s: CompilerModel, statement: StatementModel)
    requires
        statement is ForLoop,
    ensures
        lowered_in_order(s, lowered_for_loop(s, statement)),
    decreases statement, 0nat,
{
    match statement {
        StatementModel::ForLoop { identifier, expression, body, .. } => {
            lemma_expr_in_order(s, expression);
            if let Ok((computed, value)) = lowered_expr(s, expression) {
                if let Value::Array { id, len, element, .. } = value {
                    let (ready, walk) = prepared(computed, id, len, element);
                    lemma_prepared_in_order(computed, id, len, element);
                    lemma_walked_in_order(ready, identifier, walk, body);
                    if let Ok(after) = walked(ready, identifier, walk, body) {
                        lemma_grows_on(s, computed, ready);
                        lemma_grows_on(s, ready, after);
                        if sound(s) && after.countable() {
                            assert(sound(computed));
                            assert(value_sound(computed, value));
                            assert(sound(ready));
                        }
                    }
                }
            }
        },
        _ => {},
    }
}

} // verus!
