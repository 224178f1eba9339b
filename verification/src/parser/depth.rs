//! How deeply rules nest: never more deeply than the text is long, rule
//! for rule, because no rule of the grammar begins with itself.
use crate::parser::ast::{
    assignment_shape, build_branches, build_guarded, build_if, build_inner, build_parameters,
    build_statement, build_statements, build_while, for_shape, function_lambda, function_list,
    function_shape, guarded_shape, if_else, type_of_hint, StatementModel, TypeModel,
};
use crate::parser::engine::{match_at, repeat};
use crate::parser::expr::{
    build_elements, build_operand, build_primary, build_range, call_shape, root_operator,
    ExprModel,
};
use crate::parser::grammar::{rule_body, spec_infix, spec_operand, spec_primary};
use crate::parser::peg::{Mark, Outcome, Peg};
use crate::parser::shape::lemma_skip_space;
use crate::parser::tree::{ParseTree, Rule};
use crate::parser::{
    file_outcome, parse_text, source_text, ParseErrorModel, SourceFile, NESTING_LIMIT,
};
use vstd::prelude::*;

verus! {

/// The least number of characters that a node of the rule spans, as far as
/// it is needed here: a name is one character at least.
pub open spec fn rule_width(rule: Rule) -> nat {
    if rule == Rule::Identifier || rule == Rule::IdentifierDefinition {
        1
    } else {
        0
    }
}

/// The least number of characters that a match of `e` spans.
pub open spec fn width(e: Peg) -> nat
    decreases e,
{
    match e {
        Peg::Text(text) => text@.len(),
        Peg::Class(_) => 1,
        Peg::Any => 1,
        Peg::Chain(first, second) => width(*first) + width(*second),
        Peg::Either(first, second) => if width(*first) <= width(*second) {
            width(*first)
        } else {
            width(*second)
        },
        Peg::Node(rule) => rule_width(rule),
        _ => 0,
    }
}

/// The order in which rules can begin with one another: a rule begins, at
/// the place where it starts, only with rules of a lower rank.
pub open spec fn rank(rule: Rule) -> nat {
    match rule {
        Rule::File => 6,
        Rule::Statement => 5,
        Rule::IfBlock => 4,
        Rule::IfStatement | Rule::ElifStatement | Rule::WhileStatement | Rule::ForStatement
        | Rule::ReturnStatement | Rule::FunctionArgsList => 3,
        Rule::Expr => 2,
        Rule::FunctionCall | Rule::Assignment | Rule::FunctionDefinition
        | Rule::FunctionArgsDefinitionList | Rule::ElseStatement | Rule::ImportStatement => 1,
        _ => 0,
    }
}

/// One more than the highest rank.
pub open spec fn ranks() -> nat {
    7
}

/// Whether every rule with which `e` can begin, at the place where it
/// starts, has a rank below `below`. What stands after a part that spans a
/// character does not begin there.
pub open spec fn begins_below(e: Peg, below: nat) -> bool
    decreases e,
{
    match e {
        Peg::Node(rule) => rank(rule) < below,
        Peg::Chain(first, second) => begins_below(*first, below) && begins_below(
            *second,
            if width(*first) >= 1 {
                ranks()
            } else {
                below
            },
        ),
        Peg::Either(first, second) => begins_below(*first, below) && begins_below(*second, below),
        Peg::Many(inner) => begins_below(*inner, below),
        Peg::Maybe(inner) => begins_below(*inner, below),
        Peg::Not(inner) => begins_below(*inner, below),
        _ => true,
    }
}

/// What begins below a rank begins below every higher one.
pub proof fn lemma_begins_below_more(e: Peg, below: nat, more: nat)
    requires
        begins_below(e, below),
        below <= more,
    ensures
        begins_below(e, more),
    decreases e,
{
    match e {
        Peg::Chain(first, second) => {
            lemma_begins_below_more(*first, below, more);
            if width(*first) < 1 {
                lemma_begins_below_more(*second, below, more);
            }
        },
        Peg::Either(first, second) => {
            lemma_begins_below_more(*first, below, more);
            lemma_begins_below_more(*second, below, more);
        },
        Peg::Many(inner) => {
            lemma_begins_below_more(*inner, below, more);
        },
        Peg::Maybe(inner) => {
            lemma_begins_below_more(*inner, below, more);
        },
        Peg::Not(inner) => {
            lemma_begins_below_more(*inner, below, more);
        },
        _ => {},
    }
}

/// A name spans one character at least.
pub proof fn lemma_rule_width(rule: Rule)
    ensures
        width(rule_body(rule)) >= rule_width(rule),
{
    reveal_with_fuel(width, 6);
}

/// The rule `File` begins only with rules of a lower rank.
proof fn lemma_file_begins()
    ensures
        begins_below(rule_body(Rule::File), rank(Rule::File)),
{
    reveal_with_fuel(width, 16);
    reveal_with_fuel(begins_below, 16);
    reveal_strlit("(");
    reveal_strlit("[");
    reveal_strlit("{");
}

/// The rule `Statement` begins only with rules of a lower rank.
proof fn lemma_statement_begins()
    ensures
        begins_below(rule_body(Rule::Statement), rank(Rule::Statement)),
{
    reveal_with_fuel(width, 16);
    reveal_with_fuel(begins_below, 16);
    reveal_strlit("(");
    reveal_strlit("[");
    reveal_strlit("{");
}

/// The rule `ImportStatement` begins only with rules of a lower rank.
proof fn lemma_import_statement_begins()
    ensures
        begins_below(rule_body(Rule::ImportStatement), rank(Rule::ImportStatement)),
{
    reveal_with_fuel(width, 16);
    reveal_with_fuel(begins_below, 16);
    reveal_strlit("(");
    reveal_strlit("[");
    reveal_strlit("{");
}

/// The rule `FunctionDefinition` begins only with rules of a lower rank.
proof fn lemma_function_definition_begins()
    ensures
        begins_below(rule_body(Rule::FunctionDefinition), rank(Rule::FunctionDefinition)),
{
    reveal_with_fuel(width, 16);
    reveal_with_fuel(begins_below, 16);
    reveal_strlit("(");
    reveal_strlit("[");
    reveal_strlit("{");
}

/// The rule `FunctionArgsDefinitionList` begins only with rules of a lower rank.
proof fn lemma_function_args_definition_list_begins()
    ensures
        begins_below(rule_body(Rule::FunctionArgsDefinitionList), rank(Rule::FunctionArgsDefinitionList)),
{
    reveal_with_fuel(width, 16);
    reveal_with_fuel(begins_below, 16);
    reveal_strlit("(");
    reveal_strlit("[");
    reveal_strlit("{");
}

/// The rule `Block` begins only with rules of a lower rank.
proof fn lemma_block_begins()
    ensures
        begins_below(rule_body(Rule::Block), rank(Rule::Block)),
{
    reveal_with_fuel(width, 16);
    reveal_with_fuel(begins_below, 16);
    reveal_strlit("(");
    reveal_strlit("[");
    reveal_strlit("{");
}

/// The rule `IfBlock` begins only with rules of a lower rank.
proof fn lemma_if_block_begins()
    ensures
        begins_below(rule_body(Rule::IfBlock), rank(Rule::IfBlock)),
{
    reveal_with_fuel(width, 16);
    reveal_with_fuel(begins_below, 16);
    reveal_strlit("(");
    reveal_strlit("[");
    reveal_strlit("{");
}

/// The rule `IfStatement` begins only with rules of a lower rank.
proof fn lemma_if_statement_begins()
    ensures
        begins_below(rule_body(Rule::IfStatement), rank(Rule::IfStatement)),
{
    reveal_with_fuel(width, 16);
    reveal_with_fuel(begins_below, 16);
    reveal_strlit("(");
    reveal_strlit("[");
    reveal_strlit("{");
}

/// The rule `ElifStatement` begins only with rules of a lower rank.
proof fn lemma_elif_statement_begins()
    ensures
        begins_below(rule_body(Rule::ElifStatement), rank(Rule::ElifStatement)),
{
    reveal_with_fuel(width, 16);
    reveal_with_fuel(begins_below, 16);
    reveal_strlit("(");
    reveal_strlit("[");
    reveal_strlit("{");
}

/// The rule `ElseStatement` begins only with rules of a lower rank.
proof fn lemma_else_statement_begins()
    ensures
        begins_below(rule_body(Rule::ElseStatement), rank(Rule::ElseStatement)),
{
    reveal_with_fuel(width, 16);
    reveal_with_fuel(begins_below, 16);
    reveal_strlit("(");
    reveal_strlit("[");
    reveal_strlit("{");
}

/// The rule `WhileStatement` begins only with rules of a lower rank.
proof fn lemma_while_statement_begins()
    ensures
        begins_below(rule_body(Rule::WhileStatement), rank(Rule::WhileStatement)),
{
    reveal_with_fuel(width, 16);
    reveal_with_fuel(begins_below, 16);
    reveal_strlit("(");
    reveal_strlit("[");
    reveal_strlit("{");
}

/// The rule `ForStatement` begins only with rules of a lower rank.
proof fn lemma_for_statement_begins()
    ensures
        begins_below(rule_body(Rule::ForStatement), rank(Rule::ForStatement)),
{
    reveal_with_fuel(width, 16);
    reveal_with_fuel(begins_below, 16);
    reveal_strlit("(");
    reveal_strlit("[");
    reveal_strlit("{");
}

/// The rule `ReturnStatement` begins only with rules of a lower rank.
proof fn lemma_return_statement_begins()
    ensures
        begins_below(rule_body(Rule::ReturnStatement), rank(Rule::ReturnStatement)),
{
    reveal_with_fuel(width, 16);
    reveal_with_fuel(begins_below, 16);
    reveal_strlit("(");
    reveal_strlit("[");
    reveal_strlit("{");
}

/// The rule `Assignment` begins only with rules of a lower rank.
proof fn lemma_assignment_begins()
    ensures
        begins_below(rule_body(Rule::Assignment), rank(Rule::Assignment)),
{
    reveal_with_fuel(width, 16);
    reveal_with_fuel(begins_below, 16);
    reveal_strlit("(");
    reveal_strlit("[");
    reveal_strlit("{");
}

/// A primary begins only with rules of a rank below that of expressions.
proof fn lemma_primary_begins()
    ensures
        begins_below(spec_primary(), 2),
        begins_below(spec_primary(), ranks()),
{
    reveal_with_fuel(width, 8);
    reveal_with_fuel(begins_below, 12);
    reveal_strlit("(");
}

/// An operand begins only with rules of a rank below that of expressions.
proof fn lemma_operand_begins()
    ensures
        begins_below(spec_operand(), 2),
        begins_below(spec_operand(), ranks()),
{
    lemma_primary_begins();
    let operand = spec_operand();
    let minus = *operand->Chain_0;
    let tail = *operand->Chain_1;
    assert(begins_below(minus, 2) && begins_below(minus, ranks())) by {
        reveal_with_fuel(begins_below, 4);
    }
    assert(width(minus) == 0);
    let indexings = *tail->Chain_1;
    assert(begins_below(indexings, 2) && begins_below(indexings, ranks())) by {
        reveal_with_fuel(begins_below, 4);
    }
    assert(*tail->Chain_0 == spec_primary());
    assert(begins_below(tail, 2) && begins_below(tail, ranks()));
}

/// An infix operator is a rule of the lowest rank.
proof fn lemma_infix_begins()
    ensures
        begins_below(spec_infix(), 2),
        begins_below(spec_infix(), ranks()),
{
    reveal_with_fuel(begins_below, 12);
}

/// The rule `Expr` begins only with rules of a lower rank.
proof fn lemma_expr_begins()
    ensures
        begins_below(rule_body(Rule::Expr), rank(Rule::Expr)),
{
    lemma_operand_begins();
    lemma_infix_begins();
    let e = rule_body(Rule::Expr);
    assert(*e->Chain_0 == spec_operand());
    let more = *e->Chain_1;
    let round = *more->Many_0;
    let e1 = *round->Chain_1;
    let e2 = *e1->Chain_1;
    assert(*e1->Chain_0 == spec_infix());
    assert(*e2->Chain_1 == spec_operand());
    assert(*e2->Chain_0 == Peg::Gap);
    assert(*round->Chain_0 == Peg::Gap);
    assert(width(Peg::Gap) == 0);
    assert(begins_below(Peg::Gap, 2) && begins_below(Peg::Gap, ranks()));
    assert(begins_below(e2, 2) && begins_below(e2, ranks()));
    assert(begins_below(e1, 2) && begins_below(e1, ranks()));
    assert(begins_below(round, 2) && begins_below(round, ranks()));
    assert(begins_below(more, 2) && begins_below(more, ranks()));
}

/// The rule `ArrayIndexing` begins only with rules of a lower rank.
proof fn lemma_array_indexing_begins()
    ensures
        begins_below(rule_body(Rule::ArrayIndexing), rank(Rule::ArrayIndexing)),
{
    reveal_with_fuel(width, 16);
    reveal_with_fuel(begins_below, 16);
    reveal_strlit("(");
    reveal_strlit("[");
    reveal_strlit("{");
}

/// The rule `FunctionCall` begins only with rules of a lower rank.
proof fn lemma_function_call_begins()
    ensures
        begins_below(rule_body(Rule::FunctionCall), rank(Rule::FunctionCall)),
{
    reveal_with_fuel(width, 16);
    reveal_with_fuel(begins_below, 16);
    reveal_strlit("(");
    reveal_strlit("[");
    reveal_strlit("{");
}

/// The rule `FunctionArgsList` begins only with rules of a lower rank.
proof fn lemma_function_args_list_begins()
    ensures
        begins_below(rule_body(Rule::FunctionArgsList), rank(Rule::FunctionArgsList)),
{
    reveal_with_fuel(width, 16);
    reveal_with_fuel(begins_below, 16);
    reveal_strlit("(");
    reveal_strlit("[");
    reveal_strlit("{");
}

/// The rule `Array` begins only with rules of a lower rank.
proof fn lemma_array_begins()
    ensures
        begins_below(rule_body(Rule::Array), rank(Rule::Array)),
{
    reveal_with_fuel(width, 16);
    reveal_with_fuel(begins_below, 16);
    reveal_strlit("(");
    reveal_strlit("[");
    reveal_strlit("{");
}

/// No rule of the grammar begins with itself: each begins only with rules
/// of a lower rank. What stands in brackets does not begin where the
/// bracket does.
pub proof fn lemma_rule_begins(rule: Rule)
    ensures
        begins_below(rule_body(rule), rank(rule)),
{
    match rule {
        Rule::File => {
            lemma_file_begins();
        },
        Rule::Statement => {
            lemma_statement_begins();
        },
        Rule::ImportStatement => {
            lemma_import_statement_begins();
        },
        Rule::FunctionDefinition => {
            lemma_function_definition_begins();
        },
        Rule::FunctionArgsDefinitionList => {
            lemma_function_args_definition_list_begins();
        },
        Rule::Block => {
            lemma_block_begins();
        },
        Rule::IfBlock => {
            lemma_if_block_begins();
        },
        Rule::IfStatement => {
            lemma_if_statement_begins();
        },
        Rule::ElifStatement => {
            lemma_elif_statement_begins();
        },
        Rule::ElseStatement => {
            lemma_else_statement_begins();
        },
        Rule::WhileStatement => {
            lemma_while_statement_begins();
        },
        Rule::ForStatement => {
            lemma_for_statement_begins();
        },
        Rule::ReturnStatement => {
            lemma_return_statement_begins();
        },
        Rule::Assignment => {
            lemma_assignment_begins();
        },
        Rule::Expr => {
            lemma_expr_begins();
        },
        Rule::ArrayIndexing => {
            lemma_array_indexing_begins();
        },
        Rule::FunctionCall => {
            lemma_function_call_begins();
        },
        Rule::FunctionArgsList => {
            lemma_function_args_list_begins();
        },
        Rule::Array => {
            lemma_array_begins();
        },
        _ => {
            reveal_with_fuel(begins_below, 16);
        },
    }
}

/// Rules never nest more deeply than the text is long, rule for rule: a
/// match that may nest rules as deeply as the rest of the text is long,
/// times the number of ranks, never gives up for the depth. It ends within
/// the text, and spans as many characters as the expression is wide.
pub proof fn lemma_never_too_deep(
    e: Peg,
    input: Seq<char>,
    pos: int,
    depth: nat,
    rule: Rule,
    mark: Mark,
    below: nat,
)
    requires
        0 <= pos <= input.len(),
        begins_below(e, below),
        below <= ranks(),
        depth >= (input.len() - pos) * ranks() + below,
    ensures
        !(match_at(e, input, pos, depth, rule, mark) is TooDeep),
        match_at(e, input, pos, depth, rule, mark) matches Outcome::Matched { end, .. } ==> pos
            + width(e) <= end <= input.len(),
    decreases depth, e, 0nat, 0nat,
{
    match e {
        Peg::Gap => {
            lemma_skip_space(input, pos);
        },
        Peg::Chain(first, second) => {
            lemma_never_too_deep(*first, input, pos, depth, rule, mark, below);
            if let Outcome::Matched { end, mark: seen, .. } = match_at(
                *first,
                input,
                pos,
                depth,
                rule,
                mark,
            ) {
                let after: nat = if width(*first) >= 1 {
                    ranks()
                } else {
                    below
                };
                lemma_never_too_deep(*second, input, end, depth, rule, seen, after);
            }
        },
        Peg::Either(first, second) => {
            lemma_never_too_deep(*first, input, pos, depth, rule, mark, below);
            if let Outcome::Failed { mark: seen } = match_at(*first, input, pos, depth, rule, mark) {
                lemma_never_too_deep(*second, input, pos, depth, rule, seen, below);
            }
        },
        Peg::Many(inner) => {
            lemma_repeat_never_too_deep(*inner, input, pos, depth, rule, mark, Seq::empty(), below);
        },
        Peg::Maybe(inner) => {
            lemma_never_too_deep(*inner, input, pos, depth, rule, mark, below);
        },
        Peg::Not(inner) => {
            lemma_never_too_deep(*inner, input, pos, depth, rule, mark, below);
        },
        Peg::Node(inner) => {
            lemma_rule_begins(inner);
            lemma_rule_width(inner);
            lemma_never_too_deep(
                rule_body(inner),
                input,
                pos,
                (depth - 1) as nat,
                inner,
                mark,
                rank(inner),
            );
        },
        _ => {},
    }
}

/// A repetition never gives up for the depth either.
pub proof fn lemma_repeat_never_too_deep(
    inner: Peg,
    input: Seq<char>,
    pos: int,
    depth: nat,
    rule: Rule,
    mark: Mark,
    found: Seq<ParseTree>,
    below: nat,
)
    requires
        0 <= pos <= input.len(),
        begins_below(inner, below),
        below <= ranks(),
        depth >= (input.len() - pos) * ranks() + below,
    ensures
        !(repeat(inner, input, pos, depth, rule, mark, found) is TooDeep),
        repeat(inner, input, pos, depth, rule, mark, found) matches Outcome::Matched {
            end,
            ..
        } ==> pos <= end <= input.len(),
    decreases depth, inner, 1nat, input.len() - pos,
{
    lemma_never_too_deep(inner, input, pos, depth, rule, mark, below);
    if let Outcome::Matched { end, nodes, mark: seen } = match_at(
        inner,
        input,
        pos,
        depth,
        rule,
        mark,
    ) {
        if pos < end <= input.len() {
            lemma_begins_below_more(inner, below, ranks());
            lemma_repeat_never_too_deep(
                inner,
                input,
                end,
                depth,
                rule,
                seen,
                found + nodes,
                ranks(),
            );
        }
    }
}

/// Whether the text is short enough for the machine to count how deeply
/// its rules nest.
pub open spec fn short(text: Seq<char>) -> bool {
    (text.len() + 1) * ranks() <= usize::MAX
}

/// Whether all the texts are short enough.
pub open spec fn all_short(sources: Seq<SourceFile>) -> bool {
    forall|i: int| 0 <= i < sources.len() ==> short((#[trigger] sources[i]).text@)
}

/// Whether building failed because rules nest too deeply.
pub open spec fn too_deep<T>(built: Result<T, ParseErrorModel>) -> bool {
    built matches Err(ParseErrorModel::TooDeep)
}

/// Matching a whole text that is short enough never gives up for the
/// depth.
pub proof fn lemma_file_never_too_deep(input: Seq<char>)
    requires
        short(input),
    ensures
        !(file_outcome(input) is TooDeep),
{
    lemma_never_too_deep(
        Peg::Node(Rule::File),
        input,
        0,
        NESTING_LIMIT as nat,
        Rule::File,
        Mark { position: 0, rule: Rule::File },
        ranks(),
    );
}

/// A text that is found among short texts is short.
pub proof fn lemma_source_is_short(sources: Seq<SourceFile>, path: Seq<char>)
    requires
        all_short(sources),
    ensures
        source_text(sources, path) matches Some(text) ==> short(text),
    decreases sources.len(),
{
    if sources.len() > 0 && sources[0].path@ != path {
        let rest = sources.subrange(1, sources.len() as int);
        assert forall|i: int| 0 <= i < rest.len() implies short((#[trigger] rest[i]).text@) by {
            assert(rest[i] == sources[i + 1]);
        }
        lemma_source_is_short(rest, path);
    }
}

/// Parsing never gives up for the depth of nesting, as long as the text
/// and the texts it can import are short enough for the machine to count.
pub proof fn lemma_text_never_too_deep(
    source_file: Seq<char>,
    input: Seq<char>,
    sources: Seq<SourceFile>,
    fuel: nat,
)
    requires
        short(input),
        all_short(sources),
    ensures
        !too_deep(parse_text(source_file, input, sources, fuel)),
    decreases fuel, 0nat,
{
    if fuel > 0 {
        lemma_file_never_too_deep(input);
        if let Outcome::Matched { nodes, .. } = file_outcome(input) {
            if nodes.len() == 1 {
                lemma_statements_never_too_deep(
                    nodes[0].children,
                    0,
                    Seq::empty(),
                    sources,
                    (fuel - 1) as nat,
                );
            }
        }
    }
}

/// Building statements never gives up for the depth.
pub proof fn lemma_statements_never_too_deep(
    nodes: Seq<ParseTree>,
    at: int,
    found: Seq<StatementModel>,
    sources: Seq<SourceFile>,
    fuel: nat,
)
    requires
        all_short(sources),
    ensures
        !too_deep(build_statements(nodes, at, found, sources, fuel)),
    decreases fuel, 1nat, nodes, nodes.len() - at, 0nat,
{
    if 0 <= at < nodes.len() {
        lemma_statement_never_too_deep(nodes[at], sources, fuel);
        if let Ok(statement) = build_statement(nodes[at], sources, fuel) {
            lemma_statements_never_too_deep(nodes, at + 1, found.push(statement), sources, fuel);
        }
    }
}

/// Building a statement never gives up for the depth.
pub proof fn lemma_statement_never_too_deep(node: ParseTree, sources: Seq<SourceFile>, fuel: nat)
    requires
        all_short(sources),
    ensures
        !too_deep(build_statement(node, sources, fuel)),
    decreases fuel, 1nat, node, 1nat, 0nat,
{
    if node.rule == Rule::Statement && node.children.len() == 1 {
        let inner = node.children[0];
        match inner.rule {
            Rule::Assignment => {
                if assignment_shape(inner.children) {
                    if inner.children.len() == 4 {
                        lemma_inner_never_too_deep(inner.children[1], sources, fuel);
                    }
                    lemma_inner_never_too_deep(
                        inner.children[inner.children.len() - 1],
                        sources,
                        fuel,
                    );
                }
            },
            Rule::FunctionDefinition => {
                if function_shape(inner.children) {
                    lemma_statements_never_too_deep(
                        inner.children[inner.children.len() - 1].children,
                        0,
                        Seq::empty(),
                        sources,
                        fuel,
                    );
                    lemma_parameters_never_too_deep(inner, sources, fuel);
                }
            },
            Rule::IfBlock => {
                lemma_if_never_too_deep(inner, sources, fuel);
            },
            Rule::WhileStatement => {
                lemma_guarded_never_too_deep(inner, sources, fuel);
            },
            Rule::ForStatement => {
                if for_shape(inner.children) {
                    lemma_inner_never_too_deep(
                        inner.children[inner.children.len() - 2],
                        sources,
                        fuel,
                    );
                    lemma_statements_never_too_deep(
                        inner.children[inner.children.len() - 1].children,
                        0,
                        Seq::empty(),
                        sources,
                        fuel,
                    );
                }
            },
            Rule::ImportStatement => {
                if inner.children.len() == 1 && inner.children[0].rule == Rule::Path {
                    lemma_source_is_short(sources, inner.children[0].text);
                    if let Some(text) = source_text(sources, inner.children[0].text) {
                        lemma_text_never_too_deep(inner.children[0].text, text, sources, fuel);
                    }
                }
            },
            Rule::Expr => {
                lemma_inner_never_too_deep(inner, sources, fuel);
            },
            Rule::ReturnStatement => {
                lemma_inner_never_too_deep(inner, sources, fuel);
            },
            _ => {},
        }
    }
}

/// The parameters of a function are built without a look at the depth.
pub proof fn lemma_parameters_never_too_deep(node: ParseTree, sources: Seq<SourceFile>, fuel: nat)
    requires
        function_shape(node.children),
    ensures
        function_list(node.children) == 1 ==> !too_deep(
            build_parameters(
                node.children[function_lambda(node.children) + 1].children,
                0,
                Seq::empty(),
            ),
        ),
{
    if function_list(node.children) == 1 {
        lemma_pairs_never_too_deep(
            node.children[function_lambda(node.children) + 1].children,
            0,
            Seq::empty(),
        );
    }
}

/// Names and type hints are built without a look at the depth.
pub proof fn lemma_pairs_never_too_deep(
    nodes: Seq<ParseTree>,
    at: int,
    found: Seq<(Seq<char>, TypeModel)>,
)
    ensures
        !too_deep(build_parameters(nodes, at, found)),
    decreases nodes.len() - at,
{
    if 0 <= at < nodes.len() && at + 1 < nodes.len() && nodes[at].rule
        == Rule::IdentifierDefinition && nodes[at + 1].rule == Rule::TypeHint {
        lemma_pairs_never_too_deep(
            nodes,
            at + 2,
            found.push((nodes[at].text, type_of_hint(nodes[at + 1].text))),
        );
    }
}

/// Building a condition with its block never gives up for the depth.
pub proof fn lemma_guarded_never_too_deep(node: ParseTree, sources: Seq<SourceFile>, fuel: nat)
    requires
        all_short(sources),
    ensures
        !too_deep(build_guarded(node, sources, fuel)),
        !too_deep(build_while(node, sources, fuel)),
    decreases fuel, 1nat, node, 0nat, 3nat,
{
    if guarded_shape(node.children) {
        lemma_inner_never_too_deep(node.children[0], sources, fuel);
        lemma_statements_never_too_deep(node.children[1].children, 0, Seq::empty(), sources, fuel);
    }
}

/// Building the `elif` branches never gives up for the depth.
pub proof fn lemma_branches_never_too_deep(
    nodes: Seq<ParseTree>,
    at: int,
    end: int,
    found: Seq<(ExprModel, Seq<StatementModel>)>,
    sources: Seq<SourceFile>,
    fuel: nat,
)
    requires
        all_short(sources),
    ensures
        !too_deep(build_branches(nodes, at, end, found, sources, fuel)),
    decreases fuel, 1nat, nodes, end - at, 0nat,
{
    if !(at < 0 || at >= end || end > nodes.len()) && nodes[at].rule == Rule::ElifStatement {
        lemma_guarded_never_too_deep(nodes[at], sources, fuel);
        if let Ok(branch) = build_guarded(nodes[at], sources, fuel) {
            lemma_branches_never_too_deep(nodes, at + 1, end, found.push(branch), sources, fuel);
        }
    }
}

/// Building an `if` never gives up for the depth.
pub proof fn lemma_if_never_too_deep(node: ParseTree, sources: Seq<SourceFile>, fuel: nat)
    requires
        all_short(sources),
    ensures
        !too_deep(build_if(node, sources, fuel)),
    decreases fuel, 1nat, node, 0nat, 4nat,
{
    let children = node.children;
    if !(children.len() == 0 || children[0].rule != Rule::IfStatement) {
        let last = children.len() - if_else(children);
        lemma_guarded_never_too_deep(children[0], sources, fuel);
        lemma_branches_never_too_deep(children, 1, last, Seq::empty(), sources, fuel);
        if if_else(children) == 1 && children[last].children.len() == 1 {
            lemma_statements_never_too_deep(
                children[last].children[0].children,
                0,
                Seq::empty(),
                sources,
                fuel,
            );
        }
    }
}

/// Building the expression of a node never gives up for the depth.
pub proof fn lemma_inner_never_too_deep(node: ParseTree, sources: Seq<SourceFile>, fuel: nat)
    requires
        all_short(sources),
    ensures
        !too_deep(build_inner(node, sources, fuel)),
    decreases fuel, 1nat, node, 0nat, 2nat,
{
    lemma_range_never_too_deep(node.children, 0, node.children.len() as int, sources, fuel);
}

/// Building an expression never gives up for the depth.
pub proof fn lemma_range_never_too_deep(
    nodes: Seq<ParseTree>,
    lo: int,
    hi: int,
    sources: Seq<SourceFile>,
    fuel: nat,
)
    requires
        all_short(sources),
    ensures
        !too_deep(build_range(nodes, lo, hi, sources, fuel)),
    decreases fuel, 1nat, nodes, hi - lo, 1nat,
{
    if 0 <= lo < hi <= nodes.len() {
        match root_operator(nodes, lo, hi) {
            Some(at) => {
                if lo <= at < hi {
                    lemma_range_never_too_deep(nodes, lo, at, sources, fuel);
                    lemma_range_never_too_deep(nodes, at + 1, hi, sources, fuel);
                }
            },
            None => {
                lemma_operand_never_too_deep(nodes, lo, hi, sources, fuel);
            },
        }
    }
}

/// Building an operand never gives up for the depth.
pub proof fn lemma_operand_never_too_deep(
    nodes: Seq<ParseTree>,
    lo: int,
    hi: int,
    sources: Seq<SourceFile>,
    fuel: nat,
)
    requires
        all_short(sources),
    ensures
        !too_deep(build_operand(nodes, lo, hi, sources, fuel)),
    decreases fuel, 1nat, nodes, hi - lo, 0nat,
{
    if 0 <= lo < hi <= nodes.len() {
        if nodes[lo].rule == Rule::UnaryMinus {
            lemma_operand_never_too_deep(nodes, lo + 1, hi, sources, fuel);
        } else if hi - lo == 1 {
            lemma_primary_never_too_deep(nodes[lo], sources, fuel);
        } else if nodes[hi - 1].rule == Rule::ArrayIndexing {
            lemma_operand_never_too_deep(nodes, lo, hi - 1, sources, fuel);
            lemma_range_never_too_deep(
                nodes[hi - 1].children,
                0,
                nodes[hi - 1].children.len() as int,
                sources,
                fuel,
            );
        }
    }
}

/// Building a primary never gives up for the depth.
pub proof fn lemma_primary_never_too_deep(node: ParseTree, sources: Seq<SourceFile>, fuel: nat)
    requires
        all_short(sources),
    ensures
        !too_deep(build_primary(node, sources, fuel)),
    decreases fuel, 1nat, node, 0nat, 0nat,
{
    let children = node.children;
    match node.rule {
        Rule::Expr => {
            lemma_range_never_too_deep(children, 0, children.len() as int, sources, fuel);
        },
        Rule::Array => {
            lemma_elements_never_too_deep(children, 0, Seq::empty(), sources, fuel);
        },
        Rule::FunctionCall => {
            if call_shape(children) {
                let last = children.len() - 1;
                if children.len() > 1 && children[1].rule == Rule::FunctionArgsList {
                    lemma_elements_never_too_deep(
                        children[1].children,
                        0,
                        Seq::empty(),
                        sources,
                        fuel,
                    );
                }
                if last >= 1 && children[last].rule == Rule::Block {
                    lemma_statements_never_too_deep(
                        children[last].children,
                        0,
                        Seq::empty(),
                        sources,
                        fuel,
                    );
                }
            }
        },
        _ => {},
    }
}

/// Building a list of expressions never gives up for the depth.
pub proof fn lemma_elements_never_too_deep(
    nodes: Seq<ParseTree>,
    at: int,
    found: Seq<ExprModel>,
    sources: Seq<SourceFile>,
    fuel: nat,
)
    requires
        all_short(sources),
    ensures
        !too_deep(build_elements(nodes, at, found, sources, fuel)),
    decreases fuel, 1nat, nodes, nodes.len() - at, 0nat,
{
    if 0 <= at < nodes.len() && nodes[at].rule == Rule::Expr {
        lemma_range_never_too_deep(
            nodes[at].children,
            0,
            nodes[at].children.len() as int,
            sources,
            fuel,
        );
        if let Ok(element) = build_range(
            nodes[at].children,
            0,
            nodes[at].children.len() as int,
            sources,
            fuel,
        ) {
            lemma_elements_never_too_deep(nodes, at + 1, found.push(element), sources, fuel);
        }
    }
}

} // verus!
