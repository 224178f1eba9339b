//! What the grammar yields can always be built into a syntax tree.
use crate::parser::{
    file_outcome, parse_text, source_text, JamalangFileModel, ParseErrorModel, SourceFile,
    NESTING_LIMIT,
};
use crate::parser::ast::{
    build_assignment, build_branches, build_for, build_function, build_guarded, build_if,
    build_inner, build_parameters, build_statement, build_statements, build_while, function_lambda,
    function_list, if_else, type_of_hint, StatementModel, TypeModel,
};
use crate::parser::expr::{
    build_elements, build_operand, build_primary, build_range, last_operator, precedence,
    root_operator, ExprModel,
};
use crate::parser::grammar::rule_body;
use crate::parser::peg::{Mark, Outcome, Peg};
use crate::parser::shape::{
    all_conforming, conforming, fits, lemma_match_conforms, min_width, rules_of,
};
use crate::parser::shapes::{
    all_are, if_shape, is_primary, lemma_arguments_shape, lemma_array_shape,
    lemma_assignment_shape, lemma_block_shape, lemma_call_shape, lemma_else_shape,
    lemma_expr_shape, lemma_file_shape, lemma_for_shape, lemma_function_shape,
    lemma_guarded_shape, lemma_if_shape, lemma_import_shape, lemma_indexing_shape,
    lemma_parameters_shape, lemma_return_shape, lemma_statement_shape, operand_at, operands,
    paired,
};
use crate::parser::tree::{ParseTree, Rule};
use vstd::prelude::*;

verus! {

/// Whether building failed for the shape of the parse tree.
pub open spec fn malformed<T>(built: Result<T, ParseErrorModel>) -> bool {
    built matches Err(ParseErrorModel::Malformed)
}

/// The last operator of a precedence, where there is one, is an operator
/// of that precedence in the range.
pub proof fn lemma_last_operator_found(nodes: Seq<ParseTree>, lo: int, hi: int, level: nat)
    ensures
        last_operator(nodes, lo, hi, level) matches Some(at) ==> lo <= at < hi && precedence(
            nodes[at].rule,
        ) == Some(level),
    decreases hi - lo,
{
    if !(hi <= lo || hi > nodes.len() || lo < 0) && precedence(nodes[hi - 1].rule) != Some(level) {
        lemma_last_operator_found(nodes, lo, hi - 1, level);
    }
}

/// Where a range holds an operator of a precedence, it has a last one.
pub proof fn lemma_last_operator_exists(nodes: Seq<ParseTree>, lo: int, k: int, hi: int, level: nat)
    requires
        0 <= lo <= k < hi <= nodes.len(),
        precedence(nodes[k].rule) == Some(level),
    ensures
        last_operator(nodes, lo, hi, level) is Some,
    decreases hi - k,
{
    if precedence(nodes[hi - 1].rule) != Some(level) {
        lemma_last_operator_exists(nodes, lo, k, hi - 1, level);
    }
}

/// Operands with operators between them split at any of the operators
/// into the same on both sides.
pub proof fn lemma_operands_split(rules: Seq<Rule>, lo: int, hi: int, at: int)
    requires
        operands(rules, lo, hi),
        lo <= at < hi,
        precedence(rules[at]) is Some,
    ensures
        operands(rules, lo, at),
        operands(rules, at + 1, hi),
    decreases hi - lo,
{
    let end = choose|end: int|
        lo < end <= hi && #[trigger] operand_at(rules, lo, end) && (end == hi || (precedence(
            rules[end],
        ) is Some && operands(rules, end + 1, hi)));
    let m = choose|m: int|
        0 <= lo <= m < end <= rules.len() && all_are(rules, lo, m, Rule::UnaryMinus) && is_primary(
            #[trigger] rules[m],
        ) && all_are(rules, m + 1, end, Rule::ArrayIndexing);
    if at < end {
        // An operand holds no operator.
        if at < m {
            assert(rules[at] == Rule::UnaryMinus);
        } else if at > m {
            assert(rules[at] == Rule::ArrayIndexing);
        }
        assert(precedence(rules[at]) is None);
    } else if at > end {
        lemma_operands_split(rules, end + 1, hi, at);
        assert(operand_at(rules, lo, end));
    } else {
        assert(operand_at(rules, lo, end));
    }
}

/// Operands without an operator among them are one operand.
pub proof fn lemma_one_operand(rules: Seq<Rule>, lo: int, hi: int)
    requires
        operands(rules, lo, hi),
        forall|k: int| lo <= k < hi ==> precedence(#[trigger] rules[k]) is None,
    ensures
        operand_at(rules, lo, hi),
{
    let end = choose|end: int|
        lo < end <= hi && #[trigger] operand_at(rules, lo, end) && (end == hi || (precedence(
            rules[end],
        ) is Some && operands(rules, end + 1, hi)));
    if end < hi {
        assert(precedence(rules[end]) is None);
    }
}

/// The expression of an `Expr` node, or of a node that holds one, can be
/// built.
pub proof fn lemma_inner_built(node: ParseTree, sources: Seq<SourceFile>, fuel: nat)
    requires
        conforming(node),
        node.rule == Rule::Expr || node.rule == Rule::ReturnStatement || node.rule
            == Rule::ArrayIndexing,
    ensures
        !malformed(build_inner(node, sources, fuel)),
    decreases fuel, 1nat, node, 0nat, 2nat,
{
    let rules = rules_of(node.children);
    if node.rule == Rule::Expr {
        lemma_expr_shape(rules);
    } else {
        if node.rule == Rule::ReturnStatement {
            lemma_return_shape(rules);
        } else {
            lemma_indexing_shape(rules);
        }
        assert(rules[0] == Rule::Expr);
        assert(is_primary(rules[0]));
        assert(operand_at(rules, 0, 1));
        assert(operands(rules, 0, 1));
    }
    lemma_range_built(node.children, 0, node.children.len() as int, sources, fuel);
}

/// Operands with operators between them can be built into an expression.
pub proof fn lemma_range_built(
    nodes: Seq<ParseTree>,
    lo: int,
    hi: int,
    sources: Seq<SourceFile>,
    fuel: nat,
)
    requires
        all_conforming(nodes),
        0 <= lo,
        hi <= nodes.len(),
        operands(rules_of(nodes), lo, hi),
    ensures
        !malformed(build_range(nodes, lo, hi, sources, fuel)),
    decreases fuel, 1nat, nodes, hi - lo, 1nat,
{
    let rules = rules_of(nodes);
    lemma_last_operator_found(nodes, lo, hi, 0);
    lemma_last_operator_found(nodes, lo, hi, 1);
    lemma_last_operator_found(nodes, lo, hi, 2);
    match root_operator(nodes, lo, hi) {
        Some(at) => {
            assert(precedence(rules[at]) is Some);
            lemma_operands_split(rules, lo, hi, at);
            lemma_range_built(nodes, lo, at, sources, fuel);
            lemma_range_built(nodes, at + 1, hi, sources, fuel);
        },
        None => {
            assert forall|k: int| lo <= k < hi implies precedence(#[trigger] rules[k]) is None by {
                if let Some(level) = precedence(nodes[k].rule) {
                    lemma_last_operator_exists(nodes, lo, k, hi, level);
                }
            }
            lemma_one_operand(rules, lo, hi);
            lemma_operand_built(nodes, lo, hi, sources, fuel);
        },
    }
}

/// An operand can be built into an expression.
pub proof fn lemma_operand_built(
    nodes: Seq<ParseTree>,
    lo: int,
    hi: int,
    sources: Seq<SourceFile>,
    fuel: nat,
)
    requires
        all_conforming(nodes),
        operand_at(rules_of(nodes), lo, hi),
    ensures
        !malformed(build_operand(nodes, lo, hi, sources, fuel)),
    decreases fuel, 1nat, nodes, hi - lo, 0nat,
{
    let rules = rules_of(nodes);
    let m = choose|m: int|
        0 <= lo <= m < hi <= rules.len() && all_are(rules, lo, m, Rule::UnaryMinus) && is_primary(
            #[trigger] rules[m],
        ) && all_are(rules, m + 1, hi, Rule::ArrayIndexing);
    if nodes[lo].rule == Rule::UnaryMinus {
        assert(rules[lo] == Rule::UnaryMinus);
        assert(operand_at(rules, lo + 1, hi));
        lemma_operand_built(nodes, lo + 1, hi, sources, fuel);
    } else {
        if lo < m {
            assert(rules[lo] == Rule::UnaryMinus);
        }
        assert(m == lo);
        if hi - lo == 1 {
            assert(conforming(nodes[lo]));
            assert(rules[lo] == nodes[lo].rule);
            lemma_primary_built(nodes[lo], sources, fuel);
        } else {
            assert(rules[hi - 1] == Rule::ArrayIndexing);
            assert(operand_at(rules, lo, hi - 1));
            lemma_operand_built(nodes, lo, hi - 1, sources, fuel);
            let index = nodes[hi - 1];
            assert(conforming(index));
            lemma_inner_built(index, sources, fuel);
        }
    }
}

/// A primary can be built into an expression.
pub proof fn lemma_primary_built(node: ParseTree, sources: Seq<SourceFile>, fuel: nat)
    requires
        conforming(node),
        is_primary(node.rule),
    ensures
        !malformed(build_primary(node, sources, fuel)),
    decreases fuel, 1nat, node, 0nat, 0nat,
{
    let children = node.children;
    let rules = rules_of(children);
    match node.rule {
        Rule::Character => {
            reveal_with_fuel(min_width, 4);
            reveal_strlit("'");
        },
        Rule::Expr => {
            lemma_expr_shape(rules);
            lemma_range_built(children, 0, children.len() as int, sources, fuel);
        },
        Rule::Array => {
            lemma_array_shape(rules);
            lemma_elements_built(children, 0, Seq::empty(), sources, fuel);
        },
        Rule::FunctionCall => {
            lemma_call_shape(children);
            let last = children.len() - 1;
            if children.len() > 1 && children[1].rule == Rule::FunctionArgsList {
                assert(conforming(children[1]));
                lemma_arguments_shape(rules_of(children[1].children));
                lemma_elements_built(children[1].children, 0, Seq::empty(), sources, fuel);
            }
            if last >= 1 && children[last].rule == Rule::Block {
                assert(conforming(children[last]));
                lemma_block_shape(rules_of(children[last].children));
                lemma_statements_built(children[last].children, 0, Seq::empty(), sources, fuel);
            }
        },
        _ => {},
    }
}

/// Nodes that are all expressions can be built into expressions.
pub proof fn lemma_elements_built(
    nodes: Seq<ParseTree>,
    at: int,
    found: Seq<ExprModel>,
    sources: Seq<SourceFile>,
    fuel: nat,
)
    requires
        all_conforming(nodes),
        all_are(rules_of(nodes), 0, nodes.len() as int, Rule::Expr),
    ensures
        !malformed(build_elements(nodes, at, found, sources, fuel)),
    decreases fuel, 1nat, nodes, nodes.len() - at, 0nat,
{
    if 0 <= at < nodes.len() {
        assert(rules_of(nodes)[at] == Rule::Expr);
        assert(conforming(nodes[at]));
        lemma_inner_built(nodes[at], sources, fuel);
        if let Ok(element) = build_range(
            nodes[at].children,
            0,
            nodes[at].children.len() as int,
            sources,
            fuel,
        ) {
            lemma_elements_built(nodes, at + 1, found.push(element), sources, fuel);
        }
    }
}

/// Nodes that are all statements can be built into statements.
pub proof fn lemma_statements_built(
    nodes: Seq<ParseTree>,
    at: int,
    found: Seq<StatementModel>,
    sources: Seq<SourceFile>,
    fuel: nat,
)
    requires
        all_conforming(nodes),
        all_are(rules_of(nodes), 0, nodes.len() as int, Rule::Statement),
    ensures
        !malformed(build_statements(nodes, at, found, sources, fuel)),
    decreases fuel, 1nat, nodes, nodes.len() - at, 0nat,
{
    if 0 <= at < nodes.len() {
        assert(rules_of(nodes)[at] == Rule::Statement);
        assert(conforming(nodes[at]));
        lemma_statement_built(nodes[at], sources, fuel);
        if let Ok(statement) = build_statement(nodes[at], sources, fuel) {
            lemma_statements_built(nodes, at + 1, found.push(statement), sources, fuel);
        }
    }
}

/// A statement node can be built into a statement.
pub proof fn lemma_statement_built(node: ParseTree, sources: Seq<SourceFile>, fuel: nat)
    requires
        conforming(node),
        node.rule == Rule::Statement,
    ensures
        !malformed(build_statement(node, sources, fuel)),
    decreases fuel, 1nat, node, 1nat, 0nat,
{
    let rules = rules_of(node.children);
    lemma_statement_shape(rules);
    let inner = node.children[0];
    assert(rules[0] == inner.rule);
    assert(conforming(inner));
    match inner.rule {
        Rule::Assignment => {
            lemma_assignment_built(inner, sources, fuel);
        },
        Rule::FunctionDefinition => {
            lemma_function_built(inner, sources, fuel);
        },
        Rule::IfBlock => {
            lemma_if_built(inner, sources, fuel);
        },
        Rule::WhileStatement => {
            lemma_guarded_built(inner, sources, fuel);
        },
        Rule::ForStatement => {
            lemma_for_built(inner, sources, fuel);
        },
        Rule::ImportStatement => {
            lemma_import_shape(rules_of(inner.children));
            assert(rules_of(inner.children)[0] == inner.children[0].rule);
            if let Some(text) = source_text(sources, inner.children[0].text) {
                lemma_text_parsed(inner.children[0].text, text, sources, fuel);
            }
        },
        Rule::Expr => {
            lemma_inner_built(inner, sources, fuel);
        },
        Rule::ReturnStatement => {
            lemma_inner_built(inner, sources, fuel);
        },
        _ => {},
    }
}

/// An assignment node can be built.
pub proof fn lemma_assignment_built(node: ParseTree, sources: Seq<SourceFile>, fuel: nat)
    requires
        conforming(node),
        node.rule == Rule::Assignment,
    ensures
        !malformed(build_assignment(node, sources, fuel)),
    decreases fuel, 1nat, node, 0nat, 3nat,
{
    let children = node.children;
    lemma_assignment_shape(children);
    if children.len() == 4 {
        assert(conforming(children[1]));
        lemma_inner_built(children[1], sources, fuel);
    }
    assert(conforming(children[children.len() - 1]));
    lemma_inner_built(children[children.len() - 1], sources, fuel);
}

/// Names and type hints in turn can be built into parameters.
pub proof fn lemma_parameters_built(
    nodes: Seq<ParseTree>,
    at: int,
    found: Seq<(Seq<char>, TypeModel)>,
)
    requires
        paired(rules_of(nodes), at),
    ensures
        !malformed(build_parameters(nodes, at, found)),
    decreases nodes.len() - at,
{
    if 0 <= at < nodes.len() {
        assert(rules_of(nodes)[at] == nodes[at].rule);
        assert(rules_of(nodes)[at + 1] == nodes[at + 1].rule);
        lemma_parameters_built(
            nodes,
            at + 2,
            found.push((nodes[at].text, type_of_hint(nodes[at + 1].text))),
        );
    }
}

/// A function definition node can be built.
pub proof fn lemma_function_built(node: ParseTree, sources: Seq<SourceFile>, fuel: nat)
    requires
        conforming(node),
        node.rule == Rule::FunctionDefinition,
    ensures
        !malformed(build_function(node, sources, fuel)),
    decreases fuel, 1nat, node, 0nat, 3nat,
{
    let children = node.children;
    lemma_function_shape(children);
    let lambda = function_lambda(children);
    if function_list(children) == 1 {
        let list = children[lambda + 1];
        assert(conforming(list));
        lemma_parameters_shape(rules_of(list.children));
        lemma_parameters_built(list.children, 0, Seq::empty());
    }
    let block = children[children.len() - 1];
    assert(conforming(block));
    lemma_block_shape(rules_of(block.children));
    lemma_statements_built(block.children, 0, Seq::empty(), sources, fuel);
}

/// A node with a condition and a block can be built.
pub proof fn lemma_guarded_built(node: ParseTree, sources: Seq<SourceFile>, fuel: nat)
    requires
        conforming(node),
        node.rule == Rule::IfStatement || node.rule == Rule::ElifStatement || node.rule
            == Rule::WhileStatement,
    ensures
        !malformed(build_guarded(node, sources, fuel)),
        !malformed(build_while(node, sources, fuel)),
    decreases fuel, 1nat, node, 0nat, 3nat,
{
    let children = node.children;
    lemma_guarded_shape(node.rule, children);
    assert(conforming(children[0]));
    lemma_inner_built(children[0], sources, fuel);
    assert(conforming(children[1]));
    lemma_block_shape(rules_of(children[1].children));
    lemma_statements_built(children[1].children, 0, Seq::empty(), sources, fuel);
}

/// The `elif` branches of an `if` can be built.
pub proof fn lemma_branches_built(
    nodes: Seq<ParseTree>,
    at: int,
    end: int,
    found: Seq<(ExprModel, Seq<StatementModel>)>,
    sources: Seq<SourceFile>,
    fuel: nat,
)
    requires
        all_conforming(nodes),
        0 <= at,
        all_are(rules_of(nodes), at, end, Rule::ElifStatement),
    ensures
        !malformed(build_branches(nodes, at, end, found, sources, fuel)),
    decreases fuel, 1nat, nodes, end - at, 0nat,
{
    if !(at < 0 || at >= end || end > nodes.len()) {
        assert(rules_of(nodes)[at] == nodes[at].rule);
        assert(conforming(nodes[at]));
        lemma_guarded_built(nodes[at], sources, fuel);
        if let Ok(branch) = build_guarded(nodes[at], sources, fuel) {
            lemma_branches_built(nodes, at + 1, end, found.push(branch), sources, fuel);
        }
    }
}

/// An `if` block can be built.
pub proof fn lemma_if_built(node: ParseTree, sources: Seq<SourceFile>, fuel: nat)
    requires
        conforming(node),
        node.rule == Rule::IfBlock,
    ensures
        !malformed(build_if(node, sources, fuel)),
    decreases fuel, 1nat, node, 0nat, 4nat,
{
    let children = node.children;
    let rules = rules_of(children);
    lemma_if_shape(rules);
    assert(rules[0] == children[0].rule);
    assert(conforming(children[0]));
    lemma_guarded_built(children[0], sources, fuel);
    let with_else = if_else(children);
    let last = children.len() - with_else;
    assert(rules[children.len() - 1] == children[children.len() - 1].rule);
    assert forall|i: int| 1 <= i < last implies #[trigger] rules[i] == Rule::ElifStatement by {
        if !all_are(rules, 1, rules.len() as int, Rule::ElifStatement) {
            assert(all_are(rules, 1, rules.len() - 1, Rule::ElifStatement));
        }
    }
    lemma_branches_built(children, 1, last, Seq::empty(), sources, fuel);
    if with_else == 1 {
        let otherwise = children[last];
        assert(conforming(otherwise));
        lemma_else_shape(rules_of(otherwise.children));
        assert(rules_of(otherwise.children)[0] == otherwise.children[0].rule);
        let block = otherwise.children[0];
        assert(conforming(block));
        lemma_block_shape(rules_of(block.children));
        lemma_statements_built(block.children, 0, Seq::empty(), sources, fuel);
    }
}

/// A `for` node can be built.
pub proof fn lemma_for_built(node: ParseTree, sources: Seq<SourceFile>, fuel: nat)
    requires
        conforming(node),
        node.rule == Rule::ForStatement,
    ensures
        !malformed(build_for(node, sources, fuel)),
    decreases fuel, 1nat, node, 0nat, 3nat,
{
    let children = node.children;
    lemma_for_shape(children);
    assert(conforming(children[children.len() - 2]));
    lemma_inner_built(children[children.len() - 2], sources, fuel);
    let block = children[children.len() - 1];
    assert(conforming(block));
    lemma_block_shape(rules_of(block.children));
    lemma_statements_built(block.children, 0, Seq::empty(), sources, fuel);
}

/// Parsing a text never fails for the shape of the parse tree: what the
/// grammar yields can always be built into a syntax tree. A text is
/// refused only where it does not fit the grammar, nests more deeply than
/// the machine can count, or
/// imports what cannot be had.
pub proof fn lemma_text_parsed(
    source_file: Seq<char>,
    input: Seq<char>,
    sources: Seq<SourceFile>,
    fuel: nat,
)
    ensures
        !malformed(parse_text(source_file, input, sources, fuel)),
    decreases fuel, 0nat,
{
    if fuel > 0 {
        let start = Mark { position: 0, rule: Rule::File };
        lemma_match_conforms(
            Peg::Node(Rule::File),
            input,
            0,
            NESTING_LIMIT as nat,
            Rule::File,
            start,
        );
        if let Outcome::Matched { nodes, .. } = file_outcome(input) {
            assert(rules_of(nodes) == seq![Rule::File]);
            assert(rules_of(nodes)[0] == nodes[0].rule);
            assert(conforming(nodes[0]));
            lemma_file_shape(rules_of(nodes[0].children));
            lemma_statements_built(nodes[0].children, 0, Seq::empty(), sources, (fuel - 1) as nat);
        }
    }
}

} // verus!
