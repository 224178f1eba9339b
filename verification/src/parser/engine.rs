//! Matching the grammar against a text: what a parsing expression matches,
//! as a specification, and the function that computes it.
use crate::parser::grammar::{body, rule_body};
use crate::parser::peg::{later, mark_at, skip_space, text_at, CharClass, Mark, Outcome, Peg};
use crate::parser::tree::{
    forest_view, lemma_forest_concat, ParseNode, ParseTree, Rule,
};
use vstd::prelude::*;
use vstd::string::{StrSliceExecFns, StringExecFns};

verus! {

/// What `e` matches in `input` at `pos`, with at most `depth` rules nested
/// inside one another. `rule` is the rule whose body `e` belongs to, and
/// `mark` the farthest failure met before.
pub open spec fn match_at(
    e: Peg,
    input: Seq<char>,
    pos: int,
    depth: nat,
    rule: Rule,
    mark: Mark,
) -> Outcome
    decreases depth, e, 0nat, 0nat,
{
    match e {
        Peg::Text(text) => if text_at(input, pos, text@) {
            Outcome::Matched { end: pos + text@.len(), nodes: Seq::empty(), mark }
        } else {
            Outcome::Failed { mark: later(mark, mark_at(pos, rule)) }
        },
        Peg::Class(class) => if 0 <= pos < input.len() && class.holds(input[pos]) {
            Outcome::Matched { end: pos + 1, nodes: Seq::empty(), mark }
        } else {
            Outcome::Failed { mark: later(mark, mark_at(pos, rule)) }
        },
        Peg::Any => if 0 <= pos < input.len() {
            Outcome::Matched { end: pos + 1, nodes: Seq::empty(), mark }
        } else {
            Outcome::Failed { mark: later(mark, mark_at(pos, rule)) }
        },
        Peg::End => if pos == input.len() {
            Outcome::Matched { end: pos, nodes: Seq::empty(), mark }
        } else {
            Outcome::Failed { mark: later(mark, mark_at(pos, rule)) }
        },
        Peg::Gap => Outcome::Matched { end: skip_space(input, pos), nodes: Seq::empty(), mark },
        Peg::Chain(first, second) => match match_at(*first, input, pos, depth, rule, mark) {
            Outcome::Matched { end, nodes, mark } => match match_at(
                *second,
                input,
                end,
                depth,
                rule,
                mark,
            ) {
                Outcome::Matched { end: last, nodes: more, mark } => Outcome::Matched {
                    end: last,
                    nodes: nodes + more,
                    mark,
                },
                other => other,
            },
            other => other,
        },
        Peg::Either(first, second) => match match_at(*first, input, pos, depth, rule, mark) {
            Outcome::Failed { mark } => match_at(*second, input, pos, depth, rule, mark),
            other => other,
        },
        Peg::Many(inner) => repeat(*inner, input, pos, depth, rule, mark, Seq::empty()),
        Peg::Maybe(inner) => match match_at(*inner, input, pos, depth, rule, mark) {
            Outcome::Failed { mark } => Outcome::Matched { end: pos, nodes: Seq::empty(), mark },
            other => other,
        },
        Peg::Not(inner) => match match_at(*inner, input, pos, depth, rule, mark) {
            Outcome::Matched { .. } => Outcome::Failed { mark: later(mark, mark_at(pos, rule)) },
            Outcome::Failed { .. } => Outcome::Matched { end: pos, nodes: Seq::empty(), mark },
            Outcome::TooDeep => Outcome::TooDeep,
        },
        Peg::Node(inner) => if depth == 0 {
            Outcome::TooDeep
        } else {
            match match_at(rule_body(inner), input, pos, (depth - 1) as nat, inner, mark) {
                Outcome::Matched { end, nodes, mark } => Outcome::Matched {
                    end,
                    nodes: seq![
                        ParseTree { rule: inner, text: input.subrange(pos, end), children: nodes },
                    ],
                    mark,
                },
                other => other,
            }
        },
    }
}

/// What `inner` matches from `pos` on when it is applied again and again,
/// after `found` was produced by the rounds before. A round that fails, or
/// that matches without advancing, ends the repetition.
pub open spec fn repeat(
    inner: Peg,
    input: Seq<char>,
    pos: int,
    depth: nat,
    rule: Rule,
    mark: Mark,
    found: Seq<ParseTree>,
) -> Outcome
    decreases depth, inner, 1nat, input.len() - pos,
{
    match match_at(inner, input, pos, depth, rule, mark) {
        Outcome::Matched { end, nodes, mark } => if pos < end <= input.len() {
            repeat(inner, input, end, depth, rule, mark, found + nodes)
        } else {
            Outcome::Matched { end: pos, nodes: found, mark }
        },
        Outcome::Failed { mark } => Outcome::Matched { end: pos, nodes: found, mark },
        Outcome::TooDeep => Outcome::TooDeep,
    }
}

/// The executable counterpart of [`Outcome`].
pub enum Matching {
    Matched { end: usize, nodes: Vec<ParseNode>, mark: Mark },
    Failed { mark: Mark },
    TooDeep,
}

impl Matching {
    pub open spec fn view(&self) -> Outcome {
        match self {
            Matching::Matched { end, nodes, mark } => Outcome::Matched {
                end: *end as int,
                nodes: forest_view(nodes@),
                mark: *mark,
            },
            Matching::Failed { mark } => Outcome::Failed { mark: *mark },
            Matching::TooDeep => Outcome::TooDeep,
        }
    }
}

/// No nodes.
fn nothing() -> (r: Vec<ParseNode>)
    ensures
        forest_view(r@) == Seq::<ParseTree>::empty(),
{
    let r: Vec<ParseNode> = Vec::new();
    proof {
        assert(forest_view(r@) =~= Seq::<ParseTree>::empty());
    }
    r
}

/// The later of two marks, as [`later`] defines it.
pub fn later_of(a: Mark, b: Mark) -> (r: Mark)
    ensures
        r == later(a, b),
{
    if b.position > a.position {
        b
    } else {
        a
    }
}

/// Whether `text` stands in `input` at `pos`.
pub fn has_text(input: &Vec<char>, pos: usize, text: &str) -> (r: bool)
    requires
        pos <= input.len(),
    ensures
        r == text_at(input@, pos as int, text@),
{
    let n = text.unicode_len();
    if n > input.len() - pos {
        return false;
    }
    let mut i: usize = 0;
    while i < n
        invariant
            i <= n,
            n == text@.len(),
            pos + n <= input.len(),
            forall|j: int| 0 <= j < i ==> input@[pos + j] == text@[j],
        decreases n - i,
    {
        if input[pos + i] != text.get_char(i) {
            proof {
                assert(input@.subrange(pos as int, pos + n)[i as int] == input@[pos + i]);
            }
            return false;
        }
        i += 1;
    }
    proof {
        assert(input@.subrange(pos as int, pos + n) =~= text@);
    }
    true
}

/// The first position at or after `pos` that holds no whitespace.
pub fn skip(input: &Vec<char>, pos: usize) -> (r: usize)
    requires
        pos <= input.len(),
    ensures
        r == skip_space(input@, pos as int),
        pos <= r <= input.len(),
{
    let mut at = pos;
    while at < input.len() && CharClass::Space.contains(input[at])
        invariant
            pos <= at <= input.len(),
            skip_space(input@, at as int) == skip_space(input@, pos as int),
        decreases input.len() - at,
    {
        at += 1;
    }
    at
}

/// The characters of `source` from `from` up to `to`. From plain text, in
/// which every character is one byte, they are cut without a walk through
/// the text.
pub fn cut(source: &str, plain: bool, from: usize, to: usize) -> (r: &str)
    requires
        plain ==> source.is_ascii(),
        from <= to <= source@.len(),
    ensures
        r@ == source@.subrange(from as int, to as int),
{
    if plain {
        source.substring_ascii(from, to)
    } else {
        source.substring_char(from, to)
    }
}

/// Matches `e` against `input` at `pos`. `source` is the same text as a
/// string; the text of each node is cut from it. `plain` says that every
/// character of the text is one byte.
#[verifier::loop_isolation(false)]
pub fn run(
    e: &Peg,
    input: &Vec<char>,
    source: &str,
    plain: bool,
    pos: usize,
    depth: usize,
    rule: Rule,
    mark: Mark,
) -> (r: Matching)
    requires
        source@ == input@,
        plain ==> source.is_ascii(),
        pos <= input.len(),
    ensures
        r@ == match_at(*e, input@, pos as int, depth as nat, rule, mark),
        r matches Matching::Matched { end, .. } ==> pos <= end <= input.len(),
    decreases depth, e,
{
    let here = Mark { position: pos, rule };
    match e {
        Peg::Text(text) => {
            if has_text(input, pos, text) {
                Matching::Matched { end: pos + text.unicode_len(), nodes: nothing(), mark }
            } else {
                Matching::Failed { mark: later_of(mark, here) }
            }
        },
        Peg::Class(class) => {
            if pos < input.len() && class.contains(input[pos]) {
                Matching::Matched { end: pos + 1, nodes: nothing(), mark }
            } else {
                Matching::Failed { mark: later_of(mark, here) }
            }
        },
        Peg::Any => {
            if pos < input.len() {
                Matching::Matched { end: pos + 1, nodes: nothing(), mark }
            } else {
                Matching::Failed { mark: later_of(mark, here) }
            }
        },
        Peg::End => {
            if pos == input.len() {
                Matching::Matched { end: pos, nodes: nothing(), mark }
            } else {
                Matching::Failed { mark: later_of(mark, here) }
            }
        },
        Peg::Gap => Matching::Matched { end: skip(input, pos), nodes: nothing(), mark },
        Peg::Chain(first, second) => {
            match run(first, input, source, plain, pos, depth, rule, mark) {
                Matching::Matched { end, nodes, mark } => {
                    match run(second, input, source, plain, end, depth, rule, mark) {
                        Matching::Matched { end: last, nodes: more, mark } => {
                            let mut all = nodes;
                            let mut rest = more;
                            proof {
                                lemma_forest_concat(all@, rest@);
                            }
                            all.append(&mut rest);
                            Matching::Matched { end: last, nodes: all, mark }
                        },
                        other => other,
                    }
                },
                other => other,
            }
        },
        Peg::Either(first, second) => {
            match run(first, input, source, plain, pos, depth, rule, mark) {
                Matching::Failed { mark } => run(second, input, source, plain, pos, depth, rule, mark),
                other => other,
            }
        },
        Peg::Many(inner) => {
            let mut found: Vec<ParseNode> = nothing();
            let mut at = pos;
            let mut seen = mark;
            loop
                invariant
                    pos <= at <= input.len(),
                    repeat(**inner, input@, at as int, depth as nat, rule, seen, forest_view(found@))
                        == repeat(
                        **inner,
                        input@,
                        pos as int,
                        depth as nat,
                        rule,
                        mark,
                        Seq::empty(),
                    ),
                decreases input.len() - at,
            {
                match run(inner, input, source, plain, at, depth, rule, seen) {
                    Matching::Matched { end, nodes, mark } => {
                        if end > at {
                            let mut rest = nodes;
                            proof {
                                lemma_forest_concat(found@, rest@);
                            }
                            found.append(&mut rest);
                            at = end;
                            seen = mark;
                        } else {
                            return Matching::Matched { end: at, nodes: found, mark };
                        }
                    },
                    Matching::Failed { mark } => {
                        return Matching::Matched { end: at, nodes: found, mark };
                    },
                    Matching::TooDeep => {
                        return Matching::TooDeep;
                    },
                }
            }
        },
        Peg::Maybe(inner) => {
            match run(inner, input, source, plain, pos, depth, rule, mark) {
                Matching::Failed { mark } => Matching::Matched { end: pos, nodes: nothing(), mark },
                other => other,
            }
        },
        Peg::Not(inner) => {
            match run(inner, input, source, plain, pos, depth, rule, mark) {
                Matching::Matched { .. } => Matching::Failed { mark: later_of(mark, here) },
                Matching::Failed { .. } => Matching::Matched { end: pos, nodes: nothing(), mark },
                Matching::TooDeep => Matching::TooDeep,
            }
        },
        Peg::Node(inner) => {
            if depth == 0 {
                Matching::TooDeep
            } else {
                let expression = body(*inner);
                match run(&expression, input, source, plain, pos, depth - 1, *inner, mark) {
                    Matching::Matched { end, nodes, mark } => {
                        let text = String::from_str(cut(source, plain, pos, end));
                        let node = ParseNode { rule: *inner, text, children: nodes };
                        let mut list: Vec<ParseNode> = Vec::new();
                        list.push(node);
                        proof {
                            assert(forest_view(list@) =~= seq![node.view()]);
                        }
                        Matching::Matched { end, nodes: list, mark }
                    },
                    other => other,
                }
            }
        },
    }
}

} // verus!
