//! Parsing expressions and the engine that matches them against text.
use crate::parser::tree::{ParseTree, Rule};
use vstd::prelude::*;
use vstd::string::StringExecFns;

verus! {

/// A set of characters that a single position of the input is tested against.
#[derive(Debug, Clone, Copy, PartialEq, Eq, Structural)]
pub enum CharClass {
    /// `0` to `9`.
    Digit,
    /// An ASCII letter or `_`.
    WordStart,
    /// An ASCII letter, a digit or `_`.
    WordPart,
    /// Space, tab, carriage return or line feed.
    Space,
}

impl CharClass {
    pub open spec fn holds(self, c: char) -> bool {
        match self {
            CharClass::Digit => '0' <= c <= '9',
            CharClass::WordStart => ('a' <= c <= 'z') || ('A' <= c <= 'Z') || c == '_',
            CharClass::WordPart => ('a' <= c <= 'z') || ('A' <= c <= 'Z') || ('0' <= c <= '9')
                || c == '_',
            CharClass::Space => c == ' ' || c == '\t' || c == '\r' || c == '\n',
        }
    }

    /// Whether `c` belongs to the class.
    pub fn contains(self, c: char) -> (r: bool)
        ensures
            r == self.holds(c),
    {
        match self {
            CharClass::Digit => '0' <= c && c <= '9',
            CharClass::WordStart => ('a' <= c && c <= 'z') || ('A' <= c && c <= 'Z') || c == '_',
            CharClass::WordPart => ('a' <= c && c <= 'z') || ('A' <= c && c <= 'Z') || ('0' <= c
                && c <= '9') || c == '_',
            CharClass::Space => c == ' ' || c == '\t' || c == '\r' || c == '\n',
        }
    }
}

/// A parsing expression.
pub enum Peg {
    /// The given text, character for character.
    Text(&'static str),
    /// One character of the class.
    Class(CharClass),
    /// Any one character.
    Any,
    /// The end of the input.
    End,
    /// Any run of whitespace, possibly empty.
    Gap,
    /// The first expression, then the second.
    Chain(Box<Peg>, Box<Peg>),
    /// The first expression, or where it fails the second.
    Either(Box<Peg>, Box<Peg>),
    /// The expression as often as it matches and advances.
    Many(Box<Peg>),
    /// The expression, or nothing where it fails.
    Maybe(Box<Peg>),
    /// Succeeds, consuming nothing, exactly where the expression fails.
    Not(Box<Peg>),
    /// The body of a rule; what it matches becomes one node of the tree.
    Node(Rule),
}

/// The farthest place at which the input did not fit, and the rule that was
/// being matched there.
#[derive(Debug, Clone, Copy, PartialEq, Eq)]
pub struct Mark {
    pub position: usize,
    pub rule: Rule,
}

/// The later of two marks; the first where they are at the same place.
pub open spec fn later(a: Mark, b: Mark) -> Mark {
    if b.position > a.position {
        b
    } else {
        a
    }
}

/// What matching an expression at a position gives.
pub enum Outcome {
    /// The expression matched up to `end` and produced `nodes`.
    Matched { end: int, nodes: Seq<ParseTree>, mark: Mark },
    /// The expression did not match.
    Failed { mark: Mark },
    /// Rules were nested more deeply than the limit allows.
    TooDeep,
}

/// Whether `text` stands in `input` at `pos`.
pub open spec fn text_at(input: Seq<char>, pos: int, text: Seq<char>) -> bool {
    &&& 0 <= pos
    &&& pos + text.len() <= input.len()
    &&& input.subrange(pos, pos + text.len()) == text
}

/// The first position at or after `pos` that holds no whitespace.
pub open spec fn skip_space(input: Seq<char>, pos: int) -> int
    decreases input.len() - pos,
{
    if 0 <= pos < input.len() && CharClass::Space.holds(input[pos]) {
        skip_space(input, pos + 1)
    } else {
        pos
    }
}

/// The place `pos` as a mark, for positions that fit the machine.
pub open spec fn mark_at(pos: int, rule: Rule) -> Mark {
    Mark { position: pos as usize, rule }
}

pub open spec fn spec_chain(a: Peg, b: Peg) -> Peg {
    Peg::Chain(Box::new(a), Box::new(b))
}

/// `a`, then `b`.
#[verifier::when_used_as_spec(spec_chain)]
pub fn chain(a: Peg, b: Peg) -> (r: Peg)
    ensures
        r == spec_chain(a, b),
{
    Peg::Chain(Box::new(a), Box::new(b))
}

pub open spec fn spec_either(a: Peg, b: Peg) -> Peg {
    Peg::Either(Box::new(a), Box::new(b))
}

/// `a`, or where it fails `b`.
#[verifier::when_used_as_spec(spec_either)]
pub fn either(a: Peg, b: Peg) -> (r: Peg)
    ensures
        r == spec_either(a, b),
{
    Peg::Either(Box::new(a), Box::new(b))
}

pub open spec fn spec_many(a: Peg) -> Peg {
    Peg::Many(Box::new(a))
}

/// `a` as often as it matches.
#[verifier::when_used_as_spec(spec_many)]
pub fn many(a: Peg) -> (r: Peg)
    ensures
        r == spec_many(a),
{
    Peg::Many(Box::new(a))
}

pub open spec fn spec_maybe(a: Peg) -> Peg {
    Peg::Maybe(Box::new(a))
}

/// `a`, or nothing.
#[verifier::when_used_as_spec(spec_maybe)]
pub fn maybe(a: Peg) -> (r: Peg)
    ensures
        r == spec_maybe(a),
{
    Peg::Maybe(Box::new(a))
}

pub open spec fn spec_not(a: Peg) -> Peg {
    Peg::Not(Box::new(a))
}

/// Succeeds where `a` fails, and consumes nothing.
#[verifier::when_used_as_spec(spec_not)]
pub fn not(a: Peg) -> (r: Peg)
    ensures
        r == spec_not(a),
{
    Peg::Not(Box::new(a))
}

pub open spec fn spec_word(text: &'static str) -> Peg {
    spec_chain(Peg::Text(text), spec_not(Peg::Class(CharClass::WordPart)))
}

/// The keyword `text`: the text itself, not followed by a character that
/// would make it a longer word.
#[verifier::when_used_as_spec(spec_word)]
pub fn word(text: &'static str) -> (r: Peg)
    ensures
        r == spec_word(text),
{
    chain(Peg::Text(text), not(Peg::Class(CharClass::WordPart)))
}

} // verus!
