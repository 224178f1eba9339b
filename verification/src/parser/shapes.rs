//! The shapes that the grammar gives to the children of each rule.
use crate::parser::ast::{
    assignment_kind, assignment_shape, for_shape, function_shape, guarded_shape,
};
use crate::parser::expr::{call_shape, precedence};
use crate::parser::grammar::rule_body;
use crate::parser::grammar::{spec_assignment_operator, spec_infix, spec_operand, spec_primary};
use crate::parser::peg::Peg;
use crate::parser::shape::{
    fits, fits_from, fits_many_from, lemma_after_many, lemma_after_maybe, lemma_after_node,
    lemma_after_silent, lemma_chain_regroups, lemma_chain_splits, lemma_many_is,
    lemma_many_unrolls, lemma_node_last, lemma_silent_last, rules_of, silent,
};
use crate::parser::tree::{ParseTree, Rule};
use vstd::prelude::*;

verus! {

/// The rules themselves are the rules from the start on.
pub proof fn lemma_from_start(e: Peg, rules: Seq<Rule>)
    requires
        fits(e, rules),
    ensures
        fits_from(e, rules, 0),
{
    assert(rules.skip(0) =~= rules);
}

/// A statement is one node of one of the kinds of statement.
pub proof fn lemma_statement_shape(rules: Seq<Rule>)
    requires
        fits(rule_body(Rule::Statement), rules),
    ensures
        rules.len() == 1,
        rules[0] == Rule::Comment || rules[0] == Rule::ImportStatement || rules[0]
            == Rule::FunctionDefinition || rules[0] == Rule::IfBlock || rules[0]
            == Rule::WhileStatement || rules[0] == Rule::ForStatement || rules[0]
            == Rule::ReturnStatement || rules[0] == Rule::Assignment || rules[0] == Rule::Expr,
{
    reveal_with_fuel(fits, 10);
}

/// An import holds the path.
pub proof fn lemma_import_shape(rules: Seq<Rule>)
    requires
        fits(rule_body(Rule::ImportStatement), rules),
    ensures
        rules == seq![Rule::Path],
{
    reveal_with_fuel(silent, 4);
    lemma_from_start(rule_body(Rule::ImportStatement), rules);
    let e0 = rule_body(Rule::ImportStatement);
    lemma_after_silent(*e0->Chain_0, *e0->Chain_1, rules, 0);
    let e1 = *e0->Chain_1;
    lemma_after_silent(*e1->Chain_0, *e1->Chain_1, rules, 0);
    lemma_node_last(Rule::Path, rules, 0);
    assert(rules =~= seq![Rule::Path]);
}

/// A `return` holds the value.
pub proof fn lemma_return_shape(rules: Seq<Rule>)
    requires
        fits(rule_body(Rule::ReturnStatement), rules),
    ensures
        rules == seq![Rule::Expr],
{
    reveal_with_fuel(silent, 4);
    lemma_from_start(rule_body(Rule::ReturnStatement), rules);
    let e0 = rule_body(Rule::ReturnStatement);
    lemma_after_silent(*e0->Chain_0, *e0->Chain_1, rules, 0);
    let e1 = *e0->Chain_1;
    lemma_after_silent(*e1->Chain_0, *e1->Chain_1, rules, 0);
    lemma_node_last(Rule::Expr, rules, 0);
    assert(rules =~= seq![Rule::Expr]);
}

/// An indexing holds the index.
pub proof fn lemma_indexing_shape(rules: Seq<Rule>)
    requires
        fits(rule_body(Rule::ArrayIndexing), rules),
    ensures
        rules == seq![Rule::Expr],
{
    reveal_with_fuel(silent, 4);
    lemma_from_start(rule_body(Rule::ArrayIndexing), rules);
    let e0 = rule_body(Rule::ArrayIndexing);
    lemma_after_silent(*e0->Chain_0, *e0->Chain_1, rules, 0);
    let e1 = *e0->Chain_1;
    lemma_after_silent(*e1->Chain_0, *e1->Chain_1, rules, 0);
    let e2 = *e1->Chain_1;
    lemma_after_node(Rule::Expr, *e2->Chain_1, rules, 0);
    let e3 = *e2->Chain_1;
    lemma_silent_last(e3, rules, 1);
    assert(rules =~= seq![Rule::Expr]);
}

/// An `else` holds its block.
pub proof fn lemma_else_shape(rules: Seq<Rule>)
    requires
        fits(rule_body(Rule::ElseStatement), rules),
    ensures
        rules == seq![Rule::Block],
{
    reveal_with_fuel(silent, 4);
    lemma_from_start(rule_body(Rule::ElseStatement), rules);
    let e0 = rule_body(Rule::ElseStatement);
    lemma_after_silent(*e0->Chain_0, *e0->Chain_1, rules, 0);
    let e1 = *e0->Chain_1;
    lemma_after_silent(*e1->Chain_0, *e1->Chain_1, rules, 0);
    lemma_node_last(Rule::Block, rules, 0);
    assert(rules =~= seq![Rule::Block]);
}

/// What follows the keyword of an `if`, an `elif` or a `while`: a condition
/// and a block.
pub proof fn lemma_condition_and_block(e: Peg, rules: Seq<Rule>)
    requires
        fits_from(e, rules, 0),
        e is Chain,
        silent(*e->Chain_0),
        *e->Chain_1 is Chain,
        silent(*(*e->Chain_1)->Chain_0),
        *(*e->Chain_1)->Chain_1 is Chain,
        *(*(*e->Chain_1)->Chain_1)->Chain_0 == Peg::Node(Rule::Expr),
        *(*(*e->Chain_1)->Chain_1)->Chain_1 is Chain,
        silent(*(*(*(*e->Chain_1)->Chain_1)->Chain_1)->Chain_0),
        *(*(*(*e->Chain_1)->Chain_1)->Chain_1)->Chain_1 == Peg::Node(Rule::Block),
    ensures
        rules == seq![Rule::Expr, Rule::Block],
{
    lemma_after_silent(*e->Chain_0, *e->Chain_1, rules, 0);
    let e1 = *e->Chain_1;
    lemma_after_silent(*e1->Chain_0, *e1->Chain_1, rules, 0);
    let e2 = *e1->Chain_1;
    lemma_after_node(Rule::Expr, *e2->Chain_1, rules, 0);
    let e3 = *e2->Chain_1;
    lemma_after_silent(*e3->Chain_0, *e3->Chain_1, rules, 1);
    lemma_node_last(Rule::Block, rules, 1);
    assert(rules =~= seq![Rule::Expr, Rule::Block]);
}

/// An `if`, an `elif` and a `while` hold a condition and a block.
pub proof fn lemma_guarded_shape(rule: Rule, children: Seq<ParseTree>)
    requires
        rule == Rule::IfStatement || rule == Rule::ElifStatement || rule == Rule::WhileStatement,
        fits(rule_body(rule), rules_of(children)),
    ensures
        guarded_shape(children),
{
    reveal_with_fuel(silent, 4);
    lemma_from_start(rule_body(rule), rules_of(children));
    lemma_condition_and_block(rule_body(rule), rules_of(children));
    assert(rules_of(children)[0] == children[0].rule);
    assert(rules_of(children)[1] == children[1].rule);
}

/// Whether the expression fits one rule only, `rule`.
pub open spec fn only(inner: Peg, rule: Rule) -> bool {
    forall|rules: Seq<Rule>| #[trigger] fits(inner, rules) ==> rules == seq![rule]
}

/// Whether all the rules from `lo` up to `hi` are `rule`.
pub open spec fn all_are(rules: Seq<Rule>, lo: int, hi: int, rule: Rule) -> bool {
    forall|i: int| lo <= i < hi ==> #[trigger] rules[i] == rule
}

/// Rounds that each produce one node of a rule produce nodes of that rule.
pub proof fn lemma_many_of_one(inner: Peg, rule: Rule, rules: Seq<Rule>, at: int)
    requires
        only(inner, rule),
        fits_many_from(inner, rules, at),
    ensures
        all_are(rules, at, rules.len() as int, rule),
    decreases rules.len() - at,
{
    let next = lemma_many_unrolls(inner, rules, at);
    if next > at {
        assert(rules.subrange(at, next) == seq![rule]);
        assert(rules.subrange(at, next)[0] == rules[at]);
        lemma_many_of_one(inner, rule, rules, next);
    }
}

/// Rounds that each produce one node of a rule, and then something,
/// produce nodes of that rule up to where the something starts.
pub proof fn lemma_many_then(inner: Peg, rule: Rule, second: Peg, rules: Seq<Rule>, at: int) -> (m:
    int)
    requires
        only(inner, rule),
        fits_from(Peg::Chain(Box::new(Peg::Many(Box::new(inner))), Box::new(second)), rules, at),
    ensures
        at <= m <= rules.len(),
        all_are(rules, at, m, rule),
        fits_from(second, rules, m),
    decreases rules.len() - at,
{
    let next = lemma_after_many(inner, second, rules, at);
    if next > at {
        assert(rules.subrange(at, next) == seq![rule]);
        assert(rules.subrange(at, next)[0] == rules[at]);
        lemma_many_then(inner, rule, second, rules, next)
    } else {
        at
    }
}

/// A node between parts that produce no node is the only node.
pub proof fn lemma_only_node(inner: Peg, rule: Rule)
    requires
        inner == Peg::Node(rule) || (inner is Chain && ({
            ||| (*inner->Chain_0 == Peg::Node(rule) && silent(*inner->Chain_1))
            ||| (silent(*inner->Chain_0) && *inner->Chain_1 == Peg::Node(rule))
            ||| (silent(*inner->Chain_0) && *inner->Chain_1 is Chain && silent(
                *(*inner->Chain_1)->Chain_0,
            ) && *(*inner->Chain_1)->Chain_1 is Chain && silent(
                *(*(*inner->Chain_1)->Chain_1)->Chain_0,
            ) && *(*(*inner->Chain_1)->Chain_1)->Chain_1 == Peg::Node(rule))
            ||| (silent(*inner->Chain_0) && *inner->Chain_1 is Chain && silent(
                *(*inner->Chain_1)->Chain_0,
            ) && *(*inner->Chain_1)->Chain_1 is Chain && *(*(*inner->Chain_1)->Chain_1)->Chain_0
                == Peg::Node(rule) && silent(*(*(*inner->Chain_1)->Chain_1)->Chain_1))
        })),
    ensures
        only(inner, rule),
{
    assert forall|rules: Seq<Rule>| #[trigger] fits(inner, rules) implies rules == seq![rule] by {
        lemma_from_start(inner, rules);
        if inner == Peg::Node(rule) {
            lemma_node_last(rule, rules, 0);
        } else if *inner->Chain_0 == Peg::Node(rule) {
            lemma_after_node(rule, *inner->Chain_1, rules, 0);
            lemma_silent_last(*inner->Chain_1, rules, 1);
        } else {
            lemma_after_silent(*inner->Chain_0, *inner->Chain_1, rules, 0);
            let e1 = *inner->Chain_1;
            if e1 == Peg::Node(rule) {
                lemma_node_last(rule, rules, 0);
            } else {
                lemma_after_silent(*e1->Chain_0, *e1->Chain_1, rules, 0);
                let e2 = *e1->Chain_1;
                if *e2->Chain_0 == Peg::Node(rule) {
                    lemma_after_node(rule, *e2->Chain_1, rules, 0);
                    lemma_silent_last(*e2->Chain_1, rules, 1);
                } else {
                    lemma_after_silent(*e2->Chain_0, *e2->Chain_1, rules, 0);
                    lemma_node_last(rule, rules, 0);
                }
            }
        }
        assert(rules =~= seq![rule]);
    }
}

/// A file holds statements.
pub proof fn lemma_file_shape(rules: Seq<Rule>)
    requires
        fits(rule_body(Rule::File), rules),
    ensures
        all_are(rules, 0, rules.len() as int, Rule::Statement),
{
    reveal_with_fuel(silent, 4);
    lemma_from_start(rule_body(Rule::File), rules);
    let e0 = rule_body(Rule::File);
    lemma_after_silent(*e0->Chain_0, *e0->Chain_1, rules, 0);
    let e1 = *e0->Chain_1;
    let round = *(*e1->Chain_0)->Many_0;
    lemma_only_node(round, Rule::Statement);
    let m = lemma_many_then(round, Rule::Statement, *e1->Chain_1, rules, 0);
    lemma_silent_last(*e1->Chain_1, rules, m);
}

/// A block holds statements.
pub proof fn lemma_block_shape(rules: Seq<Rule>)
    requires
        fits(rule_body(Rule::Block), rules),
    ensures
        all_are(rules, 0, rules.len() as int, Rule::Statement),
{
    reveal_with_fuel(silent, 4);
    lemma_from_start(rule_body(Rule::Block), rules);
    let e0 = rule_body(Rule::Block);
    lemma_after_silent(*e0->Chain_0, *e0->Chain_1, rules, 0);
    let e1 = *e0->Chain_1;
    lemma_after_silent(*e1->Chain_0, *e1->Chain_1, rules, 0);
    let e2 = *e1->Chain_1;
    let round = *(*e2->Chain_0)->Many_0;
    lemma_only_node(round, Rule::Statement);
    let m = lemma_many_then(round, Rule::Statement, *e2->Chain_1, rules, 0);
    lemma_silent_last(*e2->Chain_1, rules, m);
}

/// The arguments of a call are expressions.
pub proof fn lemma_arguments_shape(rules: Seq<Rule>)
    requires
        fits(rule_body(Rule::FunctionArgsList), rules),
    ensures
        all_are(rules, 0, rules.len() as int, Rule::Expr),
{
    reveal_with_fuel(silent, 4);
    lemma_from_start(rule_body(Rule::FunctionArgsList), rules);
    let e0 = rule_body(Rule::FunctionArgsList);
    lemma_after_node(Rule::Expr, *e0->Chain_1, rules, 0);
    let round = *(*e0->Chain_1)->Many_0;
    lemma_only_node(round, Rule::Expr);
    lemma_many_is(round, rules.skip(1));
    lemma_many_of_one(round, Rule::Expr, rules, 1);
}

/// The elements of an array literal are expressions.
pub proof fn lemma_array_shape(rules: Seq<Rule>)
    requires
        fits(rule_body(Rule::Array), rules),
    ensures
        all_are(rules, 0, rules.len() as int, Rule::Expr),
{
    reveal_with_fuel(silent, 4);
    lemma_from_start(rule_body(Rule::Array), rules);
    let e0 = rule_body(Rule::Array);
    lemma_after_silent(*e0->Chain_0, *e0->Chain_1, rules, 0);
    let e1 = *e0->Chain_1;
    lemma_after_silent(*e1->Chain_0, *e1->Chain_1, rules, 0);
    let e2 = *e1->Chain_1;
    let close = *e2->Chain_1;
    let elements = *(*e2->Chain_0)->Maybe_0;
    lemma_after_maybe(elements, close, rules, 0);
    if fits_from(close, rules, 0) {
        lemma_silent_last(close, rules, 0);
    } else {
        let rest = *elements->Chain_1;
        lemma_chain_regroups(*elements->Chain_0, rest, close, rules, 0);
        lemma_after_node(Rule::Expr, Peg::Chain(Box::new(rest), Box::new(close)), rules, 0);
        lemma_chain_regroups(*rest->Chain_0, *rest->Chain_1, close, rules, 1);
        lemma_after_silent(
            *rest->Chain_0,
            Peg::Chain(Box::new(*rest->Chain_1), Box::new(close)),
            rules,
            1,
        );
        let round = *(*rest->Chain_1)->Many_0;
        lemma_only_node(round, Rule::Expr);
        let m = lemma_many_then(round, Rule::Expr, close, rules, 1);
        lemma_silent_last(close, rules, m);
    }
}

/// An assignment holds the name, the index if there is one, the operator
/// and the value.
pub proof fn lemma_assignment_shape(children: Seq<ParseTree>)
    requires
        fits(rule_body(Rule::Assignment), rules_of(children)),
    ensures
        assignment_shape(children),
{
    reveal_with_fuel(silent, 4);
    let rules = rules_of(children);
    lemma_from_start(rule_body(Rule::Assignment), rules);
    let e0 = rule_body(Rule::Assignment);
    lemma_after_node(Rule::Identifier, *e0->Chain_1, rules, 0);
    let e1 = *e0->Chain_1;
    lemma_after_silent(*e1->Chain_0, *e1->Chain_1, rules, 1);
    let e2 = *e1->Chain_1;
    let rest = *e2->Chain_1;
    let index = *(*e2->Chain_0)->Maybe_0;
    lemma_after_maybe(index, rest, rules, 1);
    let at: int = if fits_from(rest, rules, 1) {
        1
    } else {
        lemma_chain_regroups(*index->Chain_0, *index->Chain_1, rest, rules, 1);
        lemma_after_node(
            Rule::ArrayIndexing,
            Peg::Chain(Box::new(*index->Chain_1), Box::new(rest)),
            rules,
            1,
        );
        lemma_after_silent(*index->Chain_1, rest, rules, 2);
        2
    };
    assert(fits_from(rest, rules, at));
    let mid = lemma_chain_splits(*rest->Chain_0, *rest->Chain_1, rules, at);
    lemma_assignment_operator(rules.subrange(at, mid));
    assert(rules.subrange(at, mid)[0] == rules[at]);
    let e3 = *rest->Chain_1;
    lemma_after_silent(*e3->Chain_0, *e3->Chain_1, rules, at + 1);
    lemma_node_last(Rule::Expr, rules, at + 1);
    assert(rules[0] == children[0].rule);
    assert(rules[1] == children[1].rule);
    assert(rules[at] == children[at].rule);
    assert(rules[at + 1] == children[at + 1].rule);
}

/// An assignment operator is one node of one of the operators.
pub proof fn lemma_assignment_operator(rules: Seq<Rule>)
    requires
        fits(spec_assignment_operator(), rules),
    ensures
        rules.len() == 1,
        assignment_kind(rules[0]) is Some,
{
    reveal_with_fuel(fits, 8);
}

/// A `for` holds the name, its type if there is one, the value to walk
/// and the block.
pub proof fn lemma_for_shape(children: Seq<ParseTree>)
    requires
        fits(rule_body(Rule::ForStatement), rules_of(children)),
    ensures
        for_shape(children),
{
    reveal_with_fuel(silent, 4);
    let rules = rules_of(children);
    lemma_from_start(rule_body(Rule::ForStatement), rules);
    let e0 = rule_body(Rule::ForStatement);
    lemma_after_silent(*e0->Chain_0, *e0->Chain_1, rules, 0);
    let e1 = *e0->Chain_1;
    lemma_after_silent(*e1->Chain_0, *e1->Chain_1, rules, 0);
    let e2 = *e1->Chain_1;
    lemma_after_node(Rule::Identifier, *e2->Chain_1, rules, 0);
    let e3 = *e2->Chain_1;
    lemma_after_silent(*e3->Chain_0, *e3->Chain_1, rules, 1);
    let e4 = *e3->Chain_1;
    let rest = *e4->Chain_1;
    let hint = *(*e4->Chain_0)->Maybe_0;
    lemma_after_maybe(hint, rest, rules, 1);
    let at: int = if fits_from(rest, rules, 1) {
        1
    } else {
        lemma_chain_regroups(*hint->Chain_0, *hint->Chain_1, rest, rules, 1);
        lemma_after_node(
            Rule::TypeHint,
            Peg::Chain(Box::new(*hint->Chain_1), Box::new(rest)),
            rules,
            1,
        );
        lemma_after_silent(*hint->Chain_1, rest, rules, 2);
        2
    };
    assert(fits_from(rest, rules, at));
    lemma_after_silent(*rest->Chain_0, *rest->Chain_1, rules, at);
    let e5 = *rest->Chain_1;
    lemma_after_silent(*e5->Chain_0, *e5->Chain_1, rules, at);
    let e6 = *e5->Chain_1;
    lemma_after_node(Rule::Expr, *e6->Chain_1, rules, at);
    let e7 = *e6->Chain_1;
    lemma_after_silent(*e7->Chain_0, *e7->Chain_1, rules, at + 1);
    lemma_node_last(Rule::Block, rules, at + 1);
    assert(rules[0] == children[0].rule);
    assert(rules[1] == children[1].rule);
    assert(rules[at] == children[at].rule);
    assert(rules[at + 1] == children[at + 1].rule);
}

/// Whether an optional node with what follows it on the page is there:
/// what fits an optional part `maybe(chain(Node(rule), quiet))` before
/// `rest`, from `at` on, starts with the rule or not, and `rest` fits what
/// comes after.
pub proof fn lemma_optional_node(rule: Rule, option: Peg, rest: Peg, rules: Seq<Rule>, at: int) -> (
    next: int)
    requires
        option is Maybe,
        *option->Maybe_0 is Chain,
        *(*option->Maybe_0)->Chain_0 == Peg::Node(rule),
        silent(*(*option->Maybe_0)->Chain_1),
        fits_from(Peg::Chain(Box::new(option), Box::new(rest)), rules, at),
    ensures
        next == at || next == at + 1,
        next == at + 1 ==> at < rules.len() && rules[at] == rule,
        fits_from(rest, rules, next),
{
    let inner = *option->Maybe_0;
    lemma_after_maybe(inner, rest, rules, at);
    if fits_from(rest, rules, at) {
        at
    } else {
        lemma_chain_regroups(*inner->Chain_0, *inner->Chain_1, rest, rules, at);
        lemma_after_node(rule, Peg::Chain(Box::new(*inner->Chain_1), Box::new(rest)), rules, at);
        lemma_after_silent(*inner->Chain_1, rest, rules, at + 1);
        at + 1
    }
}

/// A function definition holds `lambda` if it is one, the name, the
/// parameters if there are any, the result type if it is named, and the
/// body.
pub proof fn lemma_function_shape(children: Seq<ParseTree>)
    requires
        fits(rule_body(Rule::FunctionDefinition), rules_of(children)),
    ensures
        function_shape(children),
{
    reveal_with_fuel(silent, 4);
    let rules = rules_of(children);
    lemma_from_start(rule_body(Rule::FunctionDefinition), rules);
    let e0 = rule_body(Rule::FunctionDefinition);
    let a = lemma_optional_node(Rule::Lambda, *e0->Chain_0, *e0->Chain_1, rules, 0);
    let e1 = *e0->Chain_1;
    lemma_after_silent(*e1->Chain_0, *e1->Chain_1, rules, a);
    let e2 = *e1->Chain_1;
    lemma_after_silent(*e2->Chain_0, *e2->Chain_1, rules, a);
    let e3 = *e2->Chain_1;
    lemma_after_node(Rule::IdentifierDefinition, *e3->Chain_1, rules, a);
    let e4 = *e3->Chain_1;
    lemma_after_silent(*e4->Chain_0, *e4->Chain_1, rules, a + 1);
    let e5 = *e4->Chain_1;
    lemma_after_silent(*e5->Chain_0, *e5->Chain_1, rules, a + 1);
    let e6 = *e5->Chain_1;
    lemma_after_silent(*e6->Chain_0, *e6->Chain_1, rules, a + 1);
    let e7 = *e6->Chain_1;
    let b = lemma_optional_node(
        Rule::FunctionArgsDefinitionList,
        *e7->Chain_0,
        *e7->Chain_1,
        rules,
        a + 1,
    );
    let e8 = *e7->Chain_1;
    lemma_after_silent(*e8->Chain_0, *e8->Chain_1, rules, b);
    let e9 = *e8->Chain_1;
    lemma_after_silent(*e9->Chain_0, *e9->Chain_1, rules, b);
    let e10 = *e9->Chain_1;
    let c = lemma_optional_node(Rule::TypeHint, *e10->Chain_0, *e10->Chain_1, rules, b);
    lemma_node_last(Rule::Block, rules, c);
    assert forall|i: int| 0 <= i < children.len() implies rules[i] == (
    #[trigger] children[i]).rule by {}
    assert(children[0].rule == rules[0]);
    assert(children[a].rule == rules[a]);
    assert(children[a + 1].rule == rules[a + 1]);
    assert(children[b].rule == rules[b]);
    assert(children[c].rule == rules[c]);
}

/// Whether the rules from `at` on are names and type hints in turn.
pub open spec fn paired(rules: Seq<Rule>, at: int) -> bool
    decreases rules.len() - at,
{
    at < 0 || at >= rules.len() || (at + 1 < rules.len() && rules[at]
        == Rule::IdentifierDefinition && rules[at + 1] == Rule::TypeHint && paired(rules, at + 2))
}

/// Further parameters are names and type hints in turn.
pub proof fn lemma_more_parameters(round: Peg, rules: Seq<Rule>, at: int)
    requires
        round == *(*rule_body(Rule::FunctionArgsDefinitionList)->Chain_1)->Many_0,
        fits_many_from(round, rules, at),
    ensures
        paired(rules, at),
    decreases rules.len() - at,
{
    reveal_with_fuel(silent, 4);
    let next = lemma_many_unrolls(round, rules, at);
    if next > at {
        let part = rules.subrange(at, next);
        lemma_from_start(round, part);
        lemma_after_silent(*round->Chain_0, *round->Chain_1, part, 0);
        let e1 = *round->Chain_1;
        lemma_after_silent(*e1->Chain_0, *e1->Chain_1, part, 0);
        let e2 = *e1->Chain_1;
        lemma_after_silent(*e2->Chain_0, *e2->Chain_1, part, 0);
        let parameter = *e2->Chain_1;
        lemma_after_node(Rule::IdentifierDefinition, *parameter->Chain_1, part, 0);
        let e3 = *parameter->Chain_1;
        lemma_after_silent(*e3->Chain_0, *e3->Chain_1, part, 1);
        lemma_node_last(Rule::TypeHint, part, 1);
        assert(part[0] == rules[at]);
        assert(part[1] == rules[at + 1]);
        lemma_more_parameters(round, rules, next);
    }
}

/// A parameter list holds names and type hints in turn.
pub proof fn lemma_parameters_shape(rules: Seq<Rule>)
    requires
        fits(rule_body(Rule::FunctionArgsDefinitionList), rules),
    ensures
        paired(rules, 0),
{
    reveal_with_fuel(silent, 4);
    lemma_from_start(rule_body(Rule::FunctionArgsDefinitionList), rules);
    let e0 = rule_body(Rule::FunctionArgsDefinitionList);
    let parameter = *e0->Chain_0;
    let more = *e0->Chain_1;
    lemma_chain_regroups(*parameter->Chain_0, *parameter->Chain_1, more, rules, 0);
    lemma_after_node(
        Rule::IdentifierDefinition,
        Peg::Chain(Box::new(*parameter->Chain_1), Box::new(more)),
        rules,
        0,
    );
    let e1 = *parameter->Chain_1;
    lemma_chain_regroups(*e1->Chain_0, *e1->Chain_1, more, rules, 1);
    lemma_after_silent(*e1->Chain_0, Peg::Chain(Box::new(*e1->Chain_1), Box::new(more)), rules, 1);
    lemma_after_node(Rule::TypeHint, more, rules, 1);
    let round = *more->Many_0;
    lemma_many_is(round, rules.skip(2));
    lemma_more_parameters(round, rules, 2);
}

/// Whether the rules are those of an `if` with its `elif` branches and,
/// at most, one `else` at the end.
pub open spec fn if_shape(rules: Seq<Rule>) -> bool {
    &&& rules.len() >= 1
    &&& rules[0] == Rule::IfStatement
    &&& all_are(rules, 1, rules.len() as int, Rule::ElifStatement) || (rules.len() >= 2
        && all_are(rules, 1, rules.len() - 1, Rule::ElifStatement) && rules[rules.len() - 1]
        == Rule::ElseStatement)
}

/// An `if` block holds the `if`, its `elif` branches and, at most, one
/// `else` at the end.
pub proof fn lemma_if_shape(rules: Seq<Rule>)
    requires
        fits(rule_body(Rule::IfBlock), rules),
    ensures
        if_shape(rules),
{
    reveal_with_fuel(silent, 4);
    lemma_from_start(rule_body(Rule::IfBlock), rules);
    let e0 = rule_body(Rule::IfBlock);
    lemma_after_node(Rule::IfStatement, *e0->Chain_1, rules, 0);
    let e1 = *e0->Chain_1;
    let round = *(*e1->Chain_0)->Many_0;
    lemma_only_node(round, Rule::ElifStatement);
    let m = lemma_many_then(round, Rule::ElifStatement, *e1->Chain_1, rules, 1);
    let last = *(*e1->Chain_1)->Maybe_0;
    if rules.skip(m).len() > 0 {
        lemma_only_node(last, Rule::ElseStatement);
        assert(*e1->Chain_1 == Peg::Maybe(Box::new(last)));
        assert(fits(last, rules.skip(m)));
        assert(rules.skip(m) == seq![Rule::ElseStatement]);
        assert(rules.skip(m)[0] == rules[m]);
    }
}

/// A call holds the name, the arguments if there are any, and the
/// trailing block if there is one.
pub proof fn lemma_call_shape(children: Seq<ParseTree>)
    requires
        fits(rule_body(Rule::FunctionCall), rules_of(children)),
    ensures
        call_shape(children),
{
    reveal_with_fuel(silent, 4);
    let rules = rules_of(children);
    lemma_from_start(rule_body(Rule::FunctionCall), rules);
    let e0 = rule_body(Rule::FunctionCall);
    lemma_after_node(Rule::Identifier, *e0->Chain_1, rules, 0);
    let e1 = *e0->Chain_1;
    lemma_after_silent(*e1->Chain_0, *e1->Chain_1, rules, 1);
    let e2 = *e1->Chain_1;
    lemma_after_silent(*e2->Chain_0, *e2->Chain_1, rules, 1);
    let e3 = *e2->Chain_1;
    let a = lemma_optional_node(Rule::FunctionArgsList, *e3->Chain_0, *e3->Chain_1, rules, 1);
    let e4 = *e3->Chain_1;
    lemma_after_silent(*e4->Chain_0, *e4->Chain_1, rules, a);
    let block = *(*e4->Chain_1)->Maybe_0;
    if rules.skip(a).len() > 0 {
        lemma_only_node(block, Rule::Block);
        assert(*e4->Chain_1 == Peg::Maybe(Box::new(block)));
        assert(fits(block, rules.skip(a)));
        assert(rules.skip(a) == seq![Rule::Block]);
        assert(rules.skip(a)[0] == rules[a]);
        assert(children[a].rule == rules[a]);
    }
    assert(children[0].rule == rules[0]);
    if children.len() > 1 {
        assert(children[1].rule == rules[1]);
    }
}

/// Whether an operand can be made around a node of the rule.
pub open spec fn is_primary(rule: Rule) -> bool {
    rule == Rule::Number || rule == Rule::Boolean || rule == Rule::Character || rule
        == Rule::Nothing || rule == Rule::FunctionCall || rule == Rule::Identifier || rule
        == Rule::Array || rule == Rule::Expr
}

/// Whether the rules from `lo` up to `hi` are those of one operand: minus
/// signs, a primary, and indexings.
pub open spec fn operand_at(rules: Seq<Rule>, lo: int, hi: int) -> bool {
    exists|m: int|
        0 <= lo <= m < hi <= rules.len() && all_are(rules, lo, m, Rule::UnaryMinus) && is_primary(
            #[trigger] rules[m],
        ) && all_are(rules, m + 1, hi, Rule::ArrayIndexing)
}

/// Whether the rules from `lo` up to `hi` are those of operands with one
/// infix operator between each two.
pub open spec fn operands(rules: Seq<Rule>, lo: int, hi: int) -> bool
    decreases hi - lo,
{
    exists|end: int|
        lo < end <= hi && #[trigger] operand_at(rules, lo, end) && (end == hi || (precedence(
            rules[end],
        ) is Some && operands(rules, end + 1, hi)))
}

/// A primary is one node, around which an operand can be made.
pub proof fn lemma_primary(rules: Seq<Rule>)
    requires
        fits(spec_primary(), rules),
    ensures
        rules.len() == 1,
        is_primary(rules[0]),
{
    reveal_with_fuel(silent, 4);
    let e = spec_primary();
    let e1 = *e->Either_1;
    let e2 = *e1->Either_1;
    let e3 = *e2->Either_1;
    let paren = *e3->Either_1;
    if fits(paren, rules) {
        lemma_from_start(paren, rules);
        lemma_after_silent(*paren->Chain_0, *paren->Chain_1, rules, 0);
        let p1 = *paren->Chain_1;
        lemma_after_silent(*p1->Chain_0, *p1->Chain_1, rules, 0);
        let p2 = *p1->Chain_1;
        lemma_after_node(Rule::Expr, *p2->Chain_1, rules, 0);
        lemma_silent_last(*p2->Chain_1, rules, 1);
    } else {
        reveal_with_fuel(fits, 6);
    }
}

/// An infix operator is one node of one of the operators.
pub proof fn lemma_infix(rules: Seq<Rule>)
    requires
        fits(spec_infix(), rules),
    ensures
        rules.len() == 1,
        precedence(rules[0]) is Some,
{
    reveal_with_fuel(fits, 10);
}

/// An operand, and then something: the rules of the operand, and what the
/// something fits after them.
pub proof fn lemma_operand_then(rest: Peg, rules: Seq<Rule>, at: int) -> (end: int)
    requires
        fits_from(Peg::Chain(Box::new(spec_operand()), Box::new(rest)), rules, at),
    ensures
        at < end <= rules.len(),
        operand_at(rules, at, end),
        fits_from(rest, rules, end),
{
    reveal_with_fuel(silent, 4);
    let operand = spec_operand();
    let minus = *operand->Chain_0;
    let tail = *operand->Chain_1;
    lemma_chain_regroups(minus, tail, rest, rules, at);
    lemma_only_node(*minus->Many_0, Rule::UnaryMinus);
    let m = lemma_many_then(
        *minus->Many_0,
        Rule::UnaryMinus,
        Peg::Chain(Box::new(tail), Box::new(rest)),
        rules,
        at,
    );
    let indexings = *tail->Chain_1;
    lemma_chain_regroups(*tail->Chain_0, indexings, rest, rules, m);
    let mid = lemma_chain_splits(
        *tail->Chain_0,
        Peg::Chain(Box::new(indexings), Box::new(rest)),
        rules,
        m,
    );
    lemma_primary(rules.subrange(m, mid));
    assert(rules.subrange(m, mid)[0] == rules[m]);
    lemma_only_node(*indexings->Many_0, Rule::ArrayIndexing);
    let end = lemma_many_then(*indexings->Many_0, Rule::ArrayIndexing, rest, rules, m + 1);
    assert(is_primary(rules[m]));
    end
}

/// An operand at the end: the rules of the operand.
pub proof fn lemma_operand_last(rules: Seq<Rule>, at: int)
    requires
        fits_from(spec_operand(), rules, at),
    ensures
        operand_at(rules, at, rules.len() as int),
{
    reveal_with_fuel(silent, 4);
    let operand = spec_operand();
    let minus = *operand->Chain_0;
    let tail = *operand->Chain_1;
    lemma_only_node(*minus->Many_0, Rule::UnaryMinus);
    let m = lemma_many_then(*minus->Many_0, Rule::UnaryMinus, tail, rules, at);
    let indexings = *tail->Chain_1;
    let mid = lemma_chain_splits(*tail->Chain_0, indexings, rules, m);
    lemma_primary(rules.subrange(m, mid));
    assert(rules.subrange(m, mid)[0] == rules[m]);
    lemma_only_node(*indexings->Many_0, Rule::ArrayIndexing);
    lemma_many_is(*indexings->Many_0, rules.skip(m + 1));
    lemma_many_of_one(*indexings->Many_0, Rule::ArrayIndexing, rules, m + 1);
    assert(is_primary(rules[m]));
}

/// Further operands, each after an infix operator.
pub proof fn lemma_more_operands(round: Peg, rules: Seq<Rule>, at: int)
    requires
        round == *(*rule_body(Rule::Expr)->Chain_1)->Many_0,
        fits_many_from(round, rules, at),
    ensures
        at == rules.len() || (at < rules.len() && precedence(rules[at]) is Some && operands(
            rules,
            at + 1,
            rules.len() as int,
        )),
    decreases rules.len() - at,
{
    reveal_with_fuel(silent, 4);
    let next = lemma_many_unrolls(round, rules, at);
    if next > at {
        let part = rules.subrange(at, next);
        lemma_from_start(round, part);
        lemma_after_silent(*round->Chain_0, *round->Chain_1, part, 0);
        let e1 = *round->Chain_1;
        let mid = lemma_chain_splits(*e1->Chain_0, *e1->Chain_1, part, 0);
        lemma_infix(part.subrange(0, mid));
        assert(part.subrange(0, mid)[0] == part[0]);
        assert(part[0] == rules[at]);
        let e2 = *e1->Chain_1;
        lemma_after_silent(*e2->Chain_0, *e2->Chain_1, part, 1);
        lemma_operand_last(part, 1);
        let m = choose|m: int|
            0 <= 1 <= m < part.len() <= part.len() && all_are(part, 1, m, Rule::UnaryMinus)
                && is_primary(#[trigger] part[m]) && all_are(
                part,
                m + 1,
                part.len() as int,
                Rule::ArrayIndexing,
            );
        assert(rules[at + m] == part[m]);
        assert forall|i: int| at + 1 <= i < at + m implies #[trigger] rules[i]
            == Rule::UnaryMinus by {
            assert(rules[i] == part[i - at]);
        }
        assert forall|i: int| at + m + 1 <= i < next implies #[trigger] rules[i]
            == Rule::ArrayIndexing by {
            assert(rules[i] == part[i - at]);
        }
        assert(operand_at(rules, at + 1, next));
        lemma_more_operands(round, rules, next);
    }
}

/// An expression holds operands with one infix operator between each two.
pub proof fn lemma_expr_shape(rules: Seq<Rule>)
    requires
        fits(rule_body(Rule::Expr), rules),
    ensures
        operands(rules, 0, rules.len() as int),
{
    lemma_from_start(rule_body(Rule::Expr), rules);
    let e0 = rule_body(Rule::Expr);
    let more = *e0->Chain_1;
    let end = lemma_operand_then(more, rules, 0);
    lemma_many_is(*more->Many_0, rules.skip(end));
    lemma_more_operands(*more->Many_0, rules, end);
}

} // verus!
