//! The shape of parse trees: which rules the children of a node can have.
use crate::parser::engine::{match_at, repeat};
use crate::parser::grammar::rule_body;
use crate::parser::peg::{skip_space, CharClass, Mark, Outcome, Peg};
use crate::parser::tree::{ParseTree, Rule};
use vstd::prelude::*;

verus! {

/// The rules of the nodes, in order.
pub open spec fn rules_of(nodes: Seq<ParseTree>) -> Seq<Rule> {
    Seq::new(nodes.len(), |i: int| nodes[i].rule)
}

/// Whether `rules` can be the rules of the nodes that a match of `e`
/// produces.
pub open spec fn fits(e: Peg, rules: Seq<Rule>) -> bool
    decreases e, 0nat, 0nat,
{
    match e {
        Peg::Chain(first, second) => exists|k: int|
            0 <= k <= rules.len() && fits(*first, #[trigger] rules.take(k)) && fits(
                *second,
                rules.skip(k),
            ),
        Peg::Either(first, second) => fits(*first, rules) || fits(*second, rules),
        Peg::Many(inner) => fits_many(*inner, rules),
        Peg::Maybe(inner) => rules.len() == 0 || fits(*inner, rules),
        Peg::Node(rule) => rules == seq![rule],
        _ => rules.len() == 0,
    }
}

/// Whether `rules` can be the rules of the nodes that matches of `inner`,
/// one after the other, produce.
pub open spec fn fits_many(inner: Peg, rules: Seq<Rule>) -> bool
    decreases inner, 1nat, rules.len(),
{
    rules.len() == 0 || exists|k: int|
        0 < k <= rules.len() && fits(inner, #[trigger] rules.take(k)) && fits_many(
            inner,
            rules.skip(k),
        )
}

/// The least number of characters that a match of `e` spans, not counting
/// what the rules inside it match.
pub open spec fn min_width(e: Peg) -> nat
    decreases e,
{
    match e {
        Peg::Text(text) => text@.len(),
        Peg::Class(_) => 1,
        Peg::Any => 1,
        Peg::Chain(first, second) => min_width(*first) + min_width(*second),
        Peg::Either(first, second) => if min_width(*first) <= min_width(*second) {
            min_width(*first)
        } else {
            min_width(*second)
        },
        _ => 0,
    }
}

/// Whether every node of the tree is as its rule makes it: its children
/// fit the body of the rule, and its text is as long as the body is wide.
pub open spec fn conforming(tree: ParseTree) -> bool
    decreases tree,
{
    &&& fits(rule_body(tree.rule), rules_of(tree.children))
    &&& tree.text.len() >= min_width(rule_body(tree.rule))
    &&& forall|i: int| 0 <= i < tree.children.len() ==> conforming(#[trigger] tree.children[i])
}

/// Whether all the trees are conforming.
pub open spec fn all_conforming(nodes: Seq<ParseTree>) -> bool {
    forall|i: int| 0 <= i < nodes.len() ==> conforming(#[trigger] nodes[i])
}

/// One more match after matches that fit, fits.
pub proof fn lemma_fits_one_more(inner: Peg, rules: Seq<Rule>, more: Seq<Rule>)
    requires
        fits_many(inner, rules),
        fits(inner, more),
    ensures
        fits_many(inner, rules + more),
    decreases rules.len(),
{
    let all = rules + more;
    if more.len() == 0 {
        assert(all =~= rules);
    } else if rules.len() == 0 {
        assert(all =~= more);
        assert(all.take(all.len() as int) =~= more);
        assert(all.skip(all.len() as int).len() == 0);
        assert(fits_many(inner, all.skip(all.len() as int)));
    } else {
        let k = choose|k: int|
            0 < k <= rules.len() && fits(inner, #[trigger] rules.take(k)) && fits_many(
                inner,
                rules.skip(k),
            );
        lemma_fits_one_more(inner, rules.skip(k), more);
        assert(all.take(k) =~= rules.take(k));
        assert(all.skip(k) =~= rules.skip(k) + more);
    }
}

/// Skipping whitespace stays within the text.
pub proof fn lemma_skip_space(input: Seq<char>, pos: int)
    requires
        0 <= pos <= input.len(),
    ensures
        pos <= skip_space(input, pos) <= input.len(),
    decreases input.len() - pos,
{
    if pos < input.len() && CharClass::Space.holds(input[pos]) {
        lemma_skip_space(input, pos + 1);
    }
}

/// What a match produces fits the expression that matched, and the trees
/// it produces are conforming. The match ends within the text, and spans
/// at least as many characters as the expression is wide.
pub proof fn lemma_match_conforms(
    e: Peg,
    input: Seq<char>,
    pos: int,
    depth: nat,
    rule: Rule,
    mark: Mark,
)
    requires
        0 <= pos <= input.len(),
    ensures
        match_at(e, input, pos, depth, rule, mark) matches Outcome::Matched {
            end,
            nodes,
            ..
        } ==> fits(e, rules_of(nodes)) && all_conforming(nodes) && pos + min_width(e) <= end
            <= input.len(),
    decreases depth, e, 0nat, 0nat,
{
    if e is Gap {
        lemma_skip_space(input, pos);
    }
    match e {
        Peg::Chain(first, second) => {
            lemma_match_conforms(*first, input, pos, depth, rule, mark);
            if let Outcome::Matched { end, nodes, mark: seen } = match_at(
                *first,
                input,
                pos,
                depth,
                rule,
                mark,
            ) {
                lemma_match_conforms(*second, input, end, depth, rule, seen);
                if let Outcome::Matched { nodes: more, .. } = match_at(
                    *second,
                    input,
                    end,
                    depth,
                    rule,
                    seen,
                ) {
                    let all = rules_of(nodes + more);
                    assert(all.take(nodes.len() as int) =~= rules_of(nodes));
                    assert(all.skip(nodes.len() as int) =~= rules_of(more));
                }
            }
        },
        Peg::Either(first, second) => {
            lemma_match_conforms(*first, input, pos, depth, rule, mark);
            if let Outcome::Failed { mark: seen } = match_at(*first, input, pos, depth, rule, mark) {
                lemma_match_conforms(*second, input, pos, depth, rule, seen);
            }
        },
        Peg::Many(inner) => {
            assert(rules_of(Seq::<ParseTree>::empty()).len() == 0);
            lemma_repeat_conforms(*inner, input, pos, depth, rule, mark, Seq::empty());
        },
        Peg::Maybe(inner) => {
            lemma_match_conforms(*inner, input, pos, depth, rule, mark);
        },
        Peg::Not(inner) => {},
        Peg::Node(inner) => {
            if depth > 0 {
                lemma_match_conforms(
                    rule_body(inner),
                    input,
                    pos,
                    (depth - 1) as nat,
                    inner,
                    mark,
                );
                if let Outcome::Matched { nodes, .. } = match_at(e, input, pos, depth, rule, mark) {
                    assert(rules_of(nodes) =~= seq![inner]);
                }
            }
        },
        _ => {},
    }
}

/// What a repetition produces fits, and the trees it produces are
/// conforming, where that holds of what the rounds before produced.
pub proof fn lemma_repeat_conforms(
    inner: Peg,
    input: Seq<char>,
    pos: int,
    depth: nat,
    rule: Rule,
    mark: Mark,
    found: Seq<ParseTree>,
)
    requires
        0 <= pos <= input.len(),
        fits_many(inner, rules_of(found)),
        all_conforming(found),
    ensures
        repeat(inner, input, pos, depth, rule, mark, found) matches Outcome::Matched {
            end,
            nodes,
            ..
        } ==> fits_many(inner, rules_of(nodes)) && all_conforming(nodes) && pos <= end
            <= input.len(),
    decreases depth, inner, 1nat, input.len() - pos,
{
    lemma_match_conforms(inner, input, pos, depth, rule, mark);
    if let Outcome::Matched { end, nodes, mark: seen } = match_at(
        inner,
        input,
        pos,
        depth,
        rule,
        mark,
    ) {
        if pos < end <= input.len() {
            lemma_fits_one_more(inner, rules_of(found), rules_of(nodes));
            assert(rules_of(found + nodes) =~= rules_of(found) + rules_of(nodes));
            lemma_repeat_conforms(inner, input, end, depth, rule, seen, found + nodes);
        }
    }
}

/// Whether the expression produces no node.
pub open spec fn silent(e: Peg) -> bool
    decreases e,
{
    match e {
        Peg::Chain(first, second) => silent(*first) && silent(*second),
        Peg::Either(first, second) => silent(*first) && silent(*second),
        Peg::Many(inner) => silent(*inner),
        Peg::Maybe(inner) => silent(*inner),
        Peg::Node(_) => false,
        _ => true,
    }
}

/// What fits a repetition is what fits matches of its inside, one after
/// the other.
pub proof fn lemma_many_is(inner: Peg, rules: Seq<Rule>)
    ensures
        fits(Peg::Many(Box::new(inner)), rules) == fits_many(inner, rules),
{
}

/// Only no rules fit an expression that produces no node.
pub proof fn lemma_silent_fits(e: Peg, rules: Seq<Rule>)
    requires
        silent(e),
        fits(e, rules),
    ensures
        rules.len() == 0,
    decreases e, 0nat,
{
    match e {
        Peg::Chain(first, second) => {
            let k = choose|k: int|
                0 <= k <= rules.len() && fits(*first, #[trigger] rules.take(k)) && fits(
                    *second,
                    rules.skip(k),
                );
            lemma_silent_fits(*first, rules.take(k));
            lemma_silent_fits(*second, rules.skip(k));
            assert(rules.take(k).len() == 0);
            assert(rules.take(k).len() == k);
        },
        Peg::Either(first, second) => {
            if fits(*first, rules) {
                lemma_silent_fits(*first, rules);
            } else {
                lemma_silent_fits(*second, rules);
            }
        },
        Peg::Many(inner) => {
            lemma_many_is(*inner, rules);
            assert(fits_many(*inner, rules));
            if rules.len() > 0 {
                let k = choose|k: int|
                    0 < k <= rules.len() && fits(*inner, #[trigger] rules.take(k)) && fits_many(
                        *inner,
                        rules.skip(k),
                    );
                lemma_silent_fits(*inner, rules.take(k));
                assert(rules.take(k).len() == k);
            }
        },
        Peg::Maybe(inner) => {
            if rules.len() > 0 {
                lemma_silent_fits(*inner, rules);
            }
        },
        _ => {},
    }
}

/// Whether the rules from `at` on fit the expression.
pub open spec fn fits_from(e: Peg, rules: Seq<Rule>, at: int) -> bool {
    0 <= at <= rules.len() && fits(e, rules.skip(at))
}

/// Whether the rules from `at` on fit matches of the expression, one after
/// the other.
pub open spec fn fits_many_from(inner: Peg, rules: Seq<Rule>, at: int) -> bool {
    0 <= at <= rules.len() && fits_many(inner, rules.skip(at))
}

/// What fits a chain splits into what fits its first part and what fits
/// its second.
pub proof fn lemma_chain_splits(first: Peg, second: Peg, rules: Seq<Rule>, at: int) -> (mid: int)
    requires
        fits_from(Peg::Chain(Box::new(first), Box::new(second)), rules, at),
    ensures
        at <= mid <= rules.len(),
        fits(first, rules.subrange(at, mid)),
        fits_from(second, rules, mid),
{
    let rest = rules.skip(at);
    let k = choose|k: int|
        0 <= k <= rest.len() && fits(first, #[trigger] rest.take(k)) && fits(second, rest.skip(k));
    assert(rest.take(k) =~= rules.subrange(at, at + k));
    assert(rest.skip(k) =~= rules.skip(at + k));
    at + k
}

/// After a part that produces no node, the rest of a chain fits the same
/// rules.
pub proof fn lemma_after_silent(first: Peg, second: Peg, rules: Seq<Rule>, at: int)
    requires
        silent(first),
        fits_from(Peg::Chain(Box::new(first), Box::new(second)), rules, at),
    ensures
        fits_from(second, rules, at),
{
    let mid = lemma_chain_splits(first, second, rules, at);
    lemma_silent_fits(first, rules.subrange(at, mid));
}

/// A chain that starts with a node fits rules that start with the node's
/// rule, and the rest of the chain fits the rules after it.
pub proof fn lemma_after_node(rule: Rule, second: Peg, rules: Seq<Rule>, at: int)
    requires
        fits_from(Peg::Chain(Box::new(Peg::Node(rule)), Box::new(second)), rules, at),
    ensures
        at < rules.len(),
        rules[at] == rule,
        fits_from(second, rules, at + 1),
{
    let mid = lemma_chain_splits(Peg::Node(rule), second, rules, at);
    assert(rules.subrange(at, mid) == seq![rule]);
    assert(rules.subrange(at, mid)[0] == rules[at]);
}

/// A node fits exactly one rule, its own.
pub proof fn lemma_node_last(rule: Rule, rules: Seq<Rule>, at: int)
    requires
        fits_from(Peg::Node(rule), rules, at),
    ensures
        rules.len() == at + 1,
        rules[at] == rule,
{
    assert(rules.skip(at) == seq![rule]);
    assert(rules.skip(at)[0] == rules[at]);
}

/// Nothing is left to fit an expression that produces no node.
pub proof fn lemma_silent_last(e: Peg, rules: Seq<Rule>, at: int)
    requires
        silent(e),
        fits_from(e, rules, at),
    ensures
        rules.len() == at,
{
    lemma_silent_fits(e, rules.skip(at));
}

/// A chain that starts with an optional part fits what the rest fits, or
/// what the part and then the rest fit.
pub proof fn lemma_after_maybe(inner: Peg, second: Peg, rules: Seq<Rule>, at: int)
    requires
        fits_from(Peg::Chain(Box::new(Peg::Maybe(Box::new(inner))), Box::new(second)), rules, at),
    ensures
        fits_from(second, rules, at) || fits_from(
            Peg::Chain(Box::new(inner), Box::new(second)),
            rules,
            at,
        ),
{
    let mid = lemma_chain_splits(Peg::Maybe(Box::new(inner)), second, rules, at);
    if rules.subrange(at, mid).len() > 0 {
        let rest = rules.skip(at);
        assert(rest.take(mid - at) =~= rules.subrange(at, mid));
        assert(rest.skip(mid - at) =~= rules.skip(mid));
    }
}

/// A chain of a chain fits what the chain of its parts in a row fits.
pub proof fn lemma_chain_regroups(a: Peg, b: Peg, c: Peg, rules: Seq<Rule>, at: int)
    requires
        fits_from(
            Peg::Chain(Box::new(Peg::Chain(Box::new(a), Box::new(b))), Box::new(c)),
            rules,
            at,
        ),
    ensures
        fits_from(
            Peg::Chain(Box::new(a), Box::new(Peg::Chain(Box::new(b), Box::new(c)))),
            rules,
            at,
        ),
{
    let mid = lemma_chain_splits(Peg::Chain(Box::new(a), Box::new(b)), c, rules, at);
    let front = rules.subrange(at, mid);
    assert(front.skip(0) =~= front);
    let inner = lemma_chain_splits(a, b, front, 0);
    let rest = rules.skip(at);
    assert(rest.take(inner) =~= front.subrange(0, inner));
    let tail = rest.skip(inner);
    assert(tail.take(mid - at - inner) =~= front.skip(inner));
    assert(tail.skip(mid - at - inner) =~= rules.skip(mid));
    assert(fits(Peg::Chain(Box::new(b), Box::new(c)), tail));
}

/// A chain that starts with a repetition fits what the rest fits, or what
/// one round, the repetition and the rest fit, where a round produces
/// nodes.
pub proof fn lemma_after_many(inner: Peg, second: Peg, rules: Seq<Rule>, at: int) -> (next: int)
    requires
        fits_from(Peg::Chain(Box::new(Peg::Many(Box::new(inner))), Box::new(second)), rules, at),
    ensures
        at <= next <= rules.len(),
        next == at ==> fits_from(second, rules, at),
        next > at ==> fits(inner, rules.subrange(at, next)) && fits_from(
            Peg::Chain(Box::new(Peg::Many(Box::new(inner))), Box::new(second)),
            rules,
            next,
        ),
{
    let many = Peg::Many(Box::new(inner));
    let mid = lemma_chain_splits(many, second, rules, at);
    let front = rules.subrange(at, mid);
    lemma_many_is(inner, front);
    assert(fits_many(inner, front));
    if front.len() == 0 {
        assert(rules.skip(mid) =~= rules.skip(at));
        at
    } else {
        let k = choose|k: int|
            0 < k <= front.len() && fits(inner, #[trigger] front.take(k)) && fits_many(
                inner,
                front.skip(k),
            );
        assert(front.take(k) =~= rules.subrange(at, at + k));
        let rest = rules.skip(at + k);
        assert(rest.take(mid - at - k) =~= front.skip(k));
        assert(rest.skip(mid - at - k) =~= rules.skip(mid));
        lemma_many_is(inner, rest.take(mid - at - k));
        assert(fits(many, rest.take(mid - at - k)));
        at + k
    }
}

/// What fits a repetition is nothing, or what one round fits and then what
/// the repetition fits, where a round produces nodes.
pub proof fn lemma_many_unrolls(inner: Peg, rules: Seq<Rule>, at: int) -> (next: int)
    requires
        fits_many_from(inner, rules, at),
    ensures
        at <= next <= rules.len(),
        next == at ==> rules.len() == at,
        next > at ==> fits(inner, rules.subrange(at, next)) && fits_many_from(inner, rules, next),
{
    let rest = rules.skip(at);
    if rest.len() == 0 {
        at
    } else {
        let k = choose|k: int|
            0 < k <= rest.len() && fits(inner, #[trigger] rest.take(k)) && fits_many(
                inner,
                rest.skip(k),
            );
        assert(rest.take(k) =~= rules.subrange(at, at + k));
        assert(rest.skip(k) =~= rules.skip(at + k));
        at + k
    }
}

} // verus!
