//! Expressions, and how they are built from the flat sequence of operands
//! and operators that the grammar yields.
use crate::parser::ast::{
    build_statements, parse_statements, statements_view, Statement, StatementModel,
};
use crate::parser::text::text_is;
use crate::parser::tree::{forest_view, ParseNode, ParseTree, Rule};
use crate::parser::{ParseError, ParseErrorModel, SourceFile};
use vstd::prelude::*;
use vstd::string::{StrSliceExecFns, StringExecFns};

verus! {

broadcast use crate::parser::tree::group_forest;

/// An expression.
#[derive(Debug, PartialEq)]
pub enum Expr {
    /// A number, held as the text of its literal.
    Float(String),
    Bool(bool),
    Char(char),
    TypeNone,
    Identifier(String),
    FunctionCall { identifier: String, parameters: Vec<Expr>, lambda_body: Option<Vec<Statement>> },
    UnaryMinus(Box<Expr>),
    Array(Vec<Expr>),
    ArrayIndex { array: Box<Expr>, index: Box<Expr> },
    BinOp { lhs: Box<Expr>, op: Op, rhs: Box<Expr> },
}

/// An infix operator.
#[derive(Debug, Clone, Copy, PartialEq, Eq, Structural)]
pub enum Op {
    Add,
    Subtract,
    Multiply,
    Divide,
    Modulo,
    Power,
    Range,
    Lt,
    Gt,
    Lte,
    Gte,
    Eq,
    NotEq,
}

/// The mathematical model of an [`Expr`].
pub enum ExprModel {
    Float(Seq<char>),
    Bool(bool),
    Char(char),
    TypeNone,
    Identifier(Seq<char>),
    FunctionCall {
        identifier: Seq<char>,
        parameters: Seq<ExprModel>,
        lambda_body: Option<Seq<StatementModel>>,
    },
    UnaryMinus(Box<ExprModel>),
    Array(Seq<ExprModel>),
    ArrayIndex { array: Box<ExprModel>, index: Box<ExprModel> },
    BinOp { lhs: Box<ExprModel>, op: Op, rhs: Box<ExprModel> },
}

/// The models of a sequence of expressions, one for one.
pub open spec fn exprs_view(exprs: Seq<Expr>) -> Seq<ExprModel>
    decreases exprs, 0nat,
{
    Seq::new(
        exprs.len(),
        |i: int|
            if 0 <= i < exprs.len() {
                exprs[i].view()
            } else {
                arbitrary()
            },
    )
}

impl Expr {
    pub open spec fn view(&self) -> ExprModel
        decreases self, 1nat,
    {
        match self {
            Expr::Float(text) => ExprModel::Float(text@),
            Expr::Bool(value) => ExprModel::Bool(*value),
            Expr::Char(value) => ExprModel::Char(*value),
            Expr::TypeNone => ExprModel::TypeNone,
            Expr::Identifier(name) => ExprModel::Identifier(name@),
            Expr::FunctionCall { identifier, parameters, lambda_body } => ExprModel::FunctionCall {
                identifier: identifier@,
                parameters: exprs_view(parameters@),
                lambda_body: match lambda_body {
                    Some(statements) => Some(statements_view(statements@)),
                    None => None,
                },
            },
            Expr::UnaryMinus(inner) => ExprModel::UnaryMinus(Box::new(inner.view())),
            Expr::Array(elements) => ExprModel::Array(exprs_view(elements@)),
            Expr::ArrayIndex { array, index } => ExprModel::ArrayIndex {
                array: Box::new(array.view()),
                index: Box::new(index.view()),
            },
            Expr::BinOp { lhs, op, rhs } => ExprModel::BinOp {
                lhs: Box::new(lhs.view()),
                op: *op,
                rhs: Box::new(rhs.view()),
            },
        }
    }
}

/// The model of a sequence of expressions is as long as the sequence.
pub broadcast proof fn lemma_exprs_len(exprs: Seq<Expr>)
    ensures
        #[trigger] exprs_view(exprs).len() == exprs.len(),
{
}

/// The model of a sequence of expressions holds the models of the
/// expressions.
pub broadcast proof fn lemma_exprs_index(exprs: Seq<Expr>, i: int)
    requires
        0 <= i < exprs.len(),
    ensures
        #[trigger] exprs_view(exprs)[i] == exprs[i]@,
{
}

pub broadcast group group_exprs {
    lemma_exprs_len,
    lemma_exprs_index,
}

/// Appending an expression to a sequence appends its model to the
/// sequence's model.
pub proof fn lemma_exprs_push(exprs: Seq<Expr>, expr: Expr)
    ensures
        exprs_view(exprs.push(expr)) == exprs_view(exprs).push(expr.view()),
{
    assert(exprs_view(exprs.push(expr)) =~= exprs_view(exprs).push(expr.view()));
}

/// How tightly an infix operator binds: the additive operators least, the
/// comparisons more, the multiplicative operators and the range most.
/// `None` for a rule that is no infix operator.
pub open spec fn precedence(rule: Rule) -> Option<nat> {
    match rule {
        Rule::Add | Rule::Sub => Some(0),
        Rule::Lt | Rule::Gt | Rule::Lte | Rule::Gte | Rule::Equal | Rule::NotEqual => Some(1),
        Rule::Mul | Rule::Div | Rule::Mod | Rule::Pow | Rule::Range => Some(2),
        _ => None,
    }
}

/// The operator that an infix rule stands for.
pub open spec fn operator(rule: Rule) -> Op {
    match rule {
        Rule::Add => Op::Add,
        Rule::Sub => Op::Subtract,
        Rule::Mul => Op::Multiply,
        Rule::Div => Op::Divide,
        Rule::Mod => Op::Modulo,
        Rule::Pow => Op::Power,
        Rule::Range => Op::Range,
        Rule::Lt => Op::Lt,
        Rule::Lte => Op::Lte,
        Rule::Gt => Op::Gt,
        Rule::Gte => Op::Gte,
        Rule::NotEqual => Op::NotEq,
        _ => Op::Eq,
    }
}

/// The place of the last operator of the given precedence among
/// `nodes[lo..hi]`.
pub open spec fn last_operator(nodes: Seq<ParseTree>, lo: int, hi: int, level: nat) -> Option<int>
    decreases hi - lo,
{
    if hi <= lo || hi > nodes.len() || lo < 0 {
        None
    } else if precedence(nodes[hi - 1].rule) == Some(level) {
        Some(hi - 1)
    } else {
        last_operator(nodes, lo, hi - 1, level)
    }
}

/// The operator at which `nodes[lo..hi]` splits: the last one of the lowest
/// precedence that occurs. All operators group to the left, so what stands
/// to its right holds only operators that bind more tightly.
pub open spec fn root_operator(nodes: Seq<ParseTree>, lo: int, hi: int) -> Option<int> {
    if last_operator(nodes, lo, hi, 0) is Some {
        last_operator(nodes, lo, hi, 0)
    } else if last_operator(nodes, lo, hi, 1) is Some {
        last_operator(nodes, lo, hi, 1)
    } else {
        last_operator(nodes, lo, hi, 2)
    }
}

/// The expression that `nodes[lo..hi]` spell: operands separated by infix
/// operators.
pub open spec fn build_range(
    nodes: Seq<ParseTree>,
    lo: int,
    hi: int,
    sources: Seq<SourceFile>,
    fuel: nat,
) -> Result<ExprModel, ParseErrorModel>
    decreases fuel, 1nat, nodes, hi - lo, 1nat,
{
    if !(0 <= lo < hi <= nodes.len()) {
        Err(ParseErrorModel::Malformed)
    } else {
        match root_operator(nodes, lo, hi) {
            Some(at) => if lo <= at < hi {
                match build_range(nodes, lo, at, sources, fuel) {
                    Err(error) => Err(error),
                    Ok(lhs) => match build_range(nodes, at + 1, hi, sources, fuel) {
                        Err(error) => Err(error),
                        Ok(rhs) => Ok(
                            ExprModel::BinOp {
                                lhs: Box::new(lhs),
                                op: operator(nodes[at].rule),
                                rhs: Box::new(rhs),
                            },
                        ),
                    },
                }
            } else {
                Err(ParseErrorModel::Malformed)
            },
            None => build_operand(nodes, lo, hi, sources, fuel),
        }
    }
}

/// The expression that `nodes[lo..hi]` spell where they hold no infix
/// operator: a primary with minus signs before it and indexings after it.
/// An indexing binds more tightly than a minus sign.
pub open spec fn build_operand(
    nodes: Seq<ParseTree>,
    lo: int,
    hi: int,
    sources: Seq<SourceFile>,
    fuel: nat,
) -> Result<ExprModel, ParseErrorModel>
    decreases fuel, 1nat, nodes, hi - lo, 0nat,
{
    if !(0 <= lo < hi <= nodes.len()) {
        Err(ParseErrorModel::Malformed)
    } else if nodes[lo].rule == Rule::UnaryMinus {
        match build_operand(nodes, lo + 1, hi, sources, fuel) {
            Err(error) => Err(error),
            Ok(inner) => Ok(ExprModel::UnaryMinus(Box::new(inner))),
        }
    } else if hi - lo == 1 {
        build_primary(nodes[lo], sources, fuel)
    } else if nodes[hi - 1].rule == Rule::ArrayIndexing {
        match build_operand(nodes, lo, hi - 1, sources, fuel) {
            Err(error) => Err(error),
            Ok(array) => match build_range(
                nodes[hi - 1].children,
                0,
                nodes[hi - 1].children.len() as int,
                sources,
                fuel,
            ) {
                Err(error) => Err(error),
                Ok(index) => Ok(
                    ExprModel::ArrayIndex { array: Box::new(array), index: Box::new(index) },
                ),
            },
        }
    } else {
        Err(ParseErrorModel::Malformed)
    }
}

/// Whether the children of a call have the shape that the grammar gives
/// them: the name, then the arguments if there are any, then the trailing
/// block if there is one.
pub open spec fn call_shape(children: Seq<ParseTree>) -> bool {
    let arguments: int = if children.len() > 1 && children[1].rule == Rule::FunctionArgsList {
        1
    } else {
        0
    };
    let block: int = if children.len() > 1 + arguments && children[1 + arguments].rule
        == Rule::Block {
        1
    } else {
        0
    };
    &&& children.len() >= 1
    &&& children[0].rule == Rule::Identifier
    &&& children.len() == 1 + arguments + block
}

/// The expression that a single primary node spells.
pub open spec fn build_primary(node: ParseTree, sources: Seq<SourceFile>, fuel: nat) -> Result<
    ExprModel,
    ParseErrorModel,
>
    decreases fuel, 1nat, node, 0nat, 0nat,
{
    match node.rule {
        Rule::Number => Ok(ExprModel::Float(node.text)),
        Rule::Boolean => Ok(ExprModel::Bool(node.text == "true"@)),
        Rule::Character => if node.text.len() >= 2 {
            Ok(ExprModel::Char(node.text[1]))
        } else {
            Err(ParseErrorModel::Malformed)
        },
        Rule::Nothing => Ok(ExprModel::TypeNone),
        Rule::Identifier => Ok(ExprModel::Identifier(node.text)),
        Rule::Expr => build_range(node.children, 0, node.children.len() as int, sources, fuel),
        Rule::Array => match build_elements(node.children, 0, Seq::empty(), sources, fuel) {
            Err(error) => Err(error),
            Ok(elements) => Ok(ExprModel::Array(elements)),
        },
        Rule::FunctionCall => if !call_shape(node.children) {
            Err(ParseErrorModel::Malformed)
        } else {
            let arguments = node.children.len() > 1 && node.children[1].rule
                == Rule::FunctionArgsList;
            let last = node.children.len() - 1;
            let block = last >= 1 && node.children[last].rule == Rule::Block;
            let parameters = if arguments {
                build_elements(node.children[1].children, 0, Seq::empty(), sources, fuel)
            } else {
                Ok(Seq::empty())
            };
            match parameters {
                Err(error) => Err(error),
                Ok(parameters) => if block {
                    match build_statements(
                        node.children[last].children,
                        0,
                        Seq::empty(),
                        sources,
                        fuel,
                    ) {
                        Err(error) => Err(error),
                        Ok(statements) => Ok(
                            ExprModel::FunctionCall {
                                identifier: node.children[0].text,
                                parameters,
                                lambda_body: Some(statements),
                            },
                        ),
                    }
                } else {
                    Ok(
                        ExprModel::FunctionCall {
                            identifier: node.children[0].text,
                            parameters,
                            lambda_body: None,
                        },
                    )
                },
            }
        },
        _ => Err(ParseErrorModel::Malformed),
    }
}

/// The expressions that the nodes from `at` on spell, each an `Expr` node,
/// after `found`.
pub open spec fn build_elements(
    nodes: Seq<ParseTree>,
    at: int,
    found: Seq<ExprModel>,
    sources: Seq<SourceFile>,
    fuel: nat,
) -> Result<Seq<ExprModel>, ParseErrorModel>
    decreases fuel, 1nat, nodes, nodes.len() - at, 0nat,
{
    if at < 0 || at >= nodes.len() {
        Ok(found)
    } else if nodes[at].rule != Rule::Expr {
        Err(ParseErrorModel::Malformed)
    } else {
        match build_range(
            nodes[at].children,
            0,
            nodes[at].children.len() as int,
            sources,
            fuel,
        ) {
            Err(error) => Err(error),
            Ok(element) => build_elements(nodes, at + 1, found.push(element), sources, fuel),
        }
    }
}

/// The model of what building an expression gave.
pub open spec fn expr_result(r: Result<Expr, ParseError>) -> Result<ExprModel, ParseErrorModel> {
    match r {
        Ok(expr) => Ok(expr@),
        Err(error) => Err(error@),
    }
}

/// The model of what building a list of expressions gave.
pub open spec fn exprs_result(r: Result<Vec<Expr>, ParseError>) -> Result<
    Seq<ExprModel>,
    ParseErrorModel,
> {
    match r {
        Ok(exprs) => Ok(exprs_view(exprs@)),
        Err(error) => Err(error@),
    }
}

/// The precedence of an infix rule, as [`precedence`] defines it.
fn precedence_of(rule: Rule) -> (r: Option<u8>)
    ensures
        match r {
            Some(level) => precedence(rule) == Some(level as nat),
            None => precedence(rule) is None,
        },
{
    match rule {
        Rule::Add | Rule::Sub => Some(0),
        Rule::Lt | Rule::Gt | Rule::Lte | Rule::Gte | Rule::Equal | Rule::NotEqual => Some(1),
        Rule::Mul | Rule::Div | Rule::Mod | Rule::Pow | Rule::Range => Some(2),
        _ => None,
    }
}

/// The operator of an infix rule, as [`operator`] defines it.
fn operator_of(rule: Rule) -> (r: Op)
    ensures
        r == operator(rule),
{
    match rule {
        Rule::Add => Op::Add,
        Rule::Sub => Op::Subtract,
        Rule::Mul => Op::Multiply,
        Rule::Div => Op::Divide,
        Rule::Mod => Op::Modulo,
        Rule::Pow => Op::Power,
        Rule::Range => Op::Range,
        Rule::Lt => Op::Lt,
        Rule::Lte => Op::Lte,
        Rule::Gt => Op::Gt,
        Rule::Gte => Op::Gte,
        Rule::NotEqual => Op::NotEq,
        _ => Op::Eq,
    }
}

/// Whether the node is an infix operator that binds less tightly than
/// `level`.
pub open spec fn binds_below(node: ParseTree, level: nat) -> bool {
    precedence(node.rule) matches Some(found) && found < level
}

/// The place of the first operator among `nodes[lo..hi]` that binds less
/// tightly than `level`, and `hi` where there is none.
pub open spec fn first_below(nodes: Seq<ParseTree>, lo: int, hi: int, level: nat) -> int
    decreases hi - lo,
{
    if !(0 <= lo < hi <= nodes.len()) {
        hi
    } else if binds_below(nodes[lo], level) {
        lo
    } else {
        first_below(nodes, lo + 1, hi, level)
    }
}

/// What [`first_below`] finds lies in the range, nothing before it binds
/// less tightly than the level, and what stands there does.
pub proof fn lemma_first_below(nodes: Seq<ParseTree>, lo: int, hi: int, level: nat)
    requires
        0 <= lo <= hi <= nodes.len(),
    ensures
        lo <= first_below(nodes, lo, hi, level) <= hi,
        forall|k: int|
            lo <= k < first_below(nodes, lo, hi, level) ==> !binds_below(#[trigger] nodes[k], level),
        first_below(nodes, lo, hi, level) < hi ==> binds_below(
            nodes[first_below(nodes, lo, hi, level)],
            level,
        ),
    decreases hi - lo,
{
    if lo < hi && !binds_below(nodes[lo], level) {
        lemma_first_below(nodes, lo + 1, hi, level);
    }
}

/// A place before which nothing binds less tightly than the level, and at
/// which something does or the range ends, is what [`first_below`] finds.
pub proof fn lemma_first_below_is(nodes: Seq<ParseTree>, lo: int, at: int, hi: int, level: nat)
    requires
        0 <= lo <= at <= hi <= nodes.len(),
        forall|k: int| lo <= k < at ==> !binds_below(#[trigger] nodes[k], level),
        at < hi ==> binds_below(nodes[at], level),
    ensures
        first_below(nodes, lo, hi, level) == at,
    decreases at - lo,
{
    if lo < at {
        assert(!binds_below(nodes[lo], level));
        lemma_first_below_is(nodes, lo + 1, at, hi, level);
    }
}

/// Where no node of a range is an operator of a precedence, the range has
/// no last operator of that precedence.
pub proof fn lemma_no_operator(nodes: Seq<ParseTree>, lo: int, hi: int, level: nat)
    requires
        0 <= lo <= hi <= nodes.len(),
        forall|k: int| lo <= k < hi ==> precedence(#[trigger] nodes[k].rule) != Some(level),
    ensures
        last_operator(nodes, lo, hi, level) is None,
    decreases hi - lo,
{
    if lo < hi {
        lemma_no_operator(nodes, lo, hi - 1, level);
    }
}

/// The last operator of a precedence is the one after which no operator
/// has that precedence.
pub proof fn lemma_last_operator_is(nodes: Seq<ParseTree>, lo: int, at: int, hi: int, level: nat)
    requires
        0 <= lo <= at < hi <= nodes.len(),
        precedence(nodes[at].rule) == Some(level),
        forall|k: int| at < k < hi ==> precedence(#[trigger] nodes[k].rule) != Some(level),
    ensures
        last_operator(nodes, lo, hi, level) == Some(at),
    decreases hi - at,
{
    if at < hi - 1 {
        lemma_last_operator_is(nodes, lo, at, hi - 1, level);
    }
}

/// A range splits at an operator before which no operator binds less
/// tightly than it, and after which every operator binds more tightly.
pub proof fn lemma_root_is(nodes: Seq<ParseTree>, lo: int, at: int, hi: int, level: nat)
    requires
        0 <= lo <= at < hi <= nodes.len(),
        precedence(nodes[at].rule) == Some(level),
        forall|k: int| lo <= k < at ==> !binds_below(#[trigger] nodes[k], level),
        forall|k: int| at < k < hi ==> !binds_below(#[trigger] nodes[k], level + 1),
    ensures
        root_operator(nodes, lo, hi) == Some(at),
{
    assert forall|k: int| at < k < hi implies precedence(#[trigger] nodes[k].rule) != Some(
        level,
    ) by {
        assert(!binds_below(nodes[k], level + 1));
    }
    lemma_last_operator_is(nodes, lo, at, hi, level);
    assert forall|below: nat| below < level implies last_operator(nodes, lo, hi, below)
        is None by {
        assert forall|k: int| lo <= k < hi implies precedence(#[trigger] nodes[k].rule) != Some(
            below,
        ) by {
            if k < at {
                assert(!binds_below(nodes[k], level));
            } else if k > at {
                assert(!binds_below(nodes[k], level + 1));
            }
        }
        lemma_no_operator(nodes, lo, hi, below);
    }
}

/// A range without operators has no operator to split at.
pub proof fn lemma_no_root(nodes: Seq<ParseTree>, lo: int, hi: int)
    requires
        0 <= lo <= hi <= nodes.len(),
        forall|k: int| lo <= k < hi ==> !binds_below(#[trigger] nodes[k], 3),
    ensures
        root_operator(nodes, lo, hi) is None,
{
    assert forall|level: nat| level < 3 implies last_operator(nodes, lo, hi, level) is None by {
        assert forall|k: int| lo <= k < hi implies precedence(#[trigger] nodes[k].rule) != Some(
            level,
        ) by {
            assert(!binds_below(nodes[k], 3));
        }
        lemma_no_operator(nodes, lo, hi, level);
    }
}

/// Finds the first operator among `nodes[lo..hi]` that binds less tightly
/// than `level`.
fn find_below(nodes: &Vec<ParseNode>, lo: usize, hi: usize, level: u8) -> (r: usize)
    requires
        lo <= hi <= nodes.len(),
    ensures
        r == first_below(forest_view(nodes@), lo as int, hi as int, level as nat),
        lo <= r <= hi,
{
    let mut at = lo;
    while at < hi
        invariant
            lo <= at <= hi <= nodes.len(),
            first_below(forest_view(nodes@), at as int, hi as int, level as nat) == first_below(
                forest_view(nodes@),
                lo as int,
                hi as int,
                level as nat,
            ),
        decreases hi - at,
    {
        match precedence_of(nodes[at].rule) {
            Some(found) => {
                if found < level {
                    return at;
                }
            },
            None => {},
        }
        at += 1;
    }
    at
}

/// Builds the expression that a flat sequence of operands and operators
/// spells. The operators group by precedence, lowest first: additive,
/// comparison, multiplicative and range; then the prefix minus; then
/// indexing. Operators of one precedence group to the left.
pub fn parse_expression(pairs: &Vec<ParseNode>, imports: &Vec<SourceFile>, fuel: usize) -> (r:
    Result<Expr, ParseError>)
    ensures
        expr_result(r) == build_range(
            forest_view(pairs@),
            0,
            pairs.len() as int,
            imports@,
            fuel as nat,
        ),
    decreases fuel, 1nat, pairs, pairs.len(), 3nat,
{
    parse_range(pairs, 0, pairs.len(), imports, fuel)
}

/// Builds the expression that `nodes[lo..hi]` spell.
pub fn parse_range(
    nodes: &Vec<ParseNode>,
    lo: usize,
    hi: usize,
    imports: &Vec<SourceFile>,
    fuel: usize,
) -> (r: Result<Expr, ParseError>)
    ensures
        expr_result(r) == build_range(
            forest_view(nodes@),
            lo as int,
            hi as int,
            imports@,
            fuel as nat,
        ),
    decreases fuel, 1nat, nodes, hi - lo, 2nat,
{
    if !(lo < hi && hi <= nodes.len()) {
        return Err(ParseError::Malformed);
    }
    proof {
        lemma_first_below_is(forest_view(nodes@), lo as int, hi as int, hi as int, 0);
    }
    climb(nodes, lo, hi, imports, fuel, 0).0
}

/// Builds the expression that starts at `lo` and ends before the first
/// operator that binds less tightly than `min`, by precedence climbing:
/// an operand is read, and as long as an operator follows that binds at
/// least as tightly as `min`, what stands to its right is read up to the
/// first operator that binds no more tightly than it, and the two are
/// joined. Returns the expression and the place where it ends.
#[verifier::loop_isolation(false)]
pub fn climb(
    nodes: &Vec<ParseNode>,
    lo: usize,
    hi: usize,
    imports: &Vec<SourceFile>,
    fuel: usize,
    min: u8,
) -> (r: (Result<Expr, ParseError>, usize))
    requires
        lo <= hi <= nodes.len(),
        min <= 3,
    ensures
        r.1 == first_below(forest_view(nodes@), lo as int, hi as int, min as nat),
        lo <= r.1 <= hi,
        expr_result(r.0) == build_range(
            forest_view(nodes@),
            lo as int,
            r.1 as int,
            imports@,
            fuel as nat,
        ),
    decreases fuel, 1nat, nodes, hi - lo, 1nat,
{
    let ghost trees = forest_view(nodes@);
    let first = find_below(nodes, lo, hi, 3);
    proof {
        lemma_first_below(trees, lo as int, hi as int, 3);
        lemma_no_root(trees, lo as int, first as int);
    }
    let mut left = parse_operand(nodes, lo, first, imports, fuel);
    let mut at = first;
    while at < hi
        invariant
            lo <= at <= hi <= nodes.len(),
            trees == forest_view(nodes@),
            expr_result(left) == build_range(trees, lo as int, at as int, imports@, fuel as nat),
            forall|k: int| lo <= k < at ==> !binds_below(#[trigger] trees[k], min as nat),
            at < hi ==> precedence(trees[at as int].rule) is Some,
            at < hi ==> forall|k: int|
                lo <= k < at ==> !binds_below(
                    #[trigger] trees[k],
                    precedence(trees[at as int].rule)->0,
                ),
        decreases hi - at,
    {
        let level = match precedence_of(nodes[at].rule) {
            Some(level) => level,
            None => 0,
        };
        if level < min {
            break;
        }
        let op = operator_of(nodes[at].rule);
        let end = match left {
            Ok(lhs) => {
                let (right, end) = climb(nodes, at + 1, hi, imports, fuel, level + 1);
                left = match right {
                    Ok(rhs) => Ok(Expr::BinOp { lhs: Box::new(lhs), op, rhs: Box::new(rhs) }),
                    Err(error) => Err(error),
                };
                end
            },
            Err(error) => {
                left = Err(error);
                find_below(nodes, at + 1, hi, level + 1)
            },
        };
        proof {
            lemma_first_below(trees, at + 1, hi as int, (level + 1) as nat);
            lemma_root_is(trees, lo as int, at as int, end as int, level as nat);
            assert forall|k: int| lo <= k < end implies !binds_below(
                #[trigger] trees[k],
                min as nat,
            ) by {
                if k > at {
                    assert(!binds_below(trees[k], (level + 1) as nat));
                }
            }
            if end < hi {
                assert(binds_below(trees[end as int], (level + 1) as nat));
                let next = precedence(trees[end as int].rule)->0;
                assert forall|k: int| lo <= k < end implies !binds_below(
                    #[trigger] trees[k],
                    next,
                ) by {
                    if k < at {
                        assert(!binds_below(trees[k], level as nat));
                    } else if k > at {
                        assert(!binds_below(trees[k], (level + 1) as nat));
                    }
                }
            }
        }
        at = end;
    }
    proof {
        lemma_first_below_is(trees, lo as int, at as int, hi as int, min as nat);
    }
    (left, at)
}

/// Builds the expression that `nodes[lo..hi]` spell where they hold no
/// infix operator.
pub fn parse_operand(
    nodes: &Vec<ParseNode>,
    lo: usize,
    hi: usize,
    imports: &Vec<SourceFile>,
    fuel: usize,
) -> (r: Result<Expr, ParseError>)
    ensures
        expr_result(r) == build_operand(
            forest_view(nodes@),
            lo as int,
            hi as int,
            imports@,
            fuel as nat,
        ),
    decreases fuel, 1nat, nodes, hi - lo, 0nat,
{
    if !(lo < hi && hi <= nodes.len()) {
        return Err(ParseError::Malformed);
    }
    if nodes[lo].rule == Rule::UnaryMinus {
        match parse_operand(nodes, lo + 1, hi, imports, fuel) {
            Ok(inner) => Ok(Expr::UnaryMinus(Box::new(inner))),
            Err(error) => Err(error),
        }
    } else if hi - lo == 1 {
        parse_primary(&nodes[lo], imports, fuel)
    } else if nodes[hi - 1].rule == Rule::ArrayIndexing {
        let array = match parse_operand(nodes, lo, hi - 1, imports, fuel) {
            Ok(array) => array,
            Err(error) => {
                return Err(error);
            },
        };
        let inner = &nodes[hi - 1].children;
        match parse_range(inner, 0, inner.len(), imports, fuel) {
            Ok(index) => Ok(Expr::ArrayIndex { array: Box::new(array), index: Box::new(index) }),
            Err(error) => Err(error),
        }
    } else {
        Err(ParseError::Malformed)
    }
}

/// Builds the expression that a single primary node spells.
pub fn parse_primary(node: &ParseNode, imports: &Vec<SourceFile>, fuel: usize) -> (r: Result<
    Expr,
    ParseError,
>)
    ensures
        expr_result(r) == build_primary(node@, imports@, fuel as nat),
    decreases fuel, 1nat, node, 0nat, 0nat,
{
    match node.rule {
        Rule::Number => Ok(Expr::Float(node.text.clone())),
        Rule::Boolean => Ok(Expr::Bool(text_is(&node.text, "true"))),
        Rule::Character => {
            let text = node.text.as_str();
            if text.unicode_len() >= 2 {
                Ok(Expr::Char(text.get_char(1)))
            } else {
                Err(ParseError::Malformed)
            }
        },
        Rule::Nothing => Ok(Expr::TypeNone),
        Rule::Identifier => Ok(Expr::Identifier(node.text.clone())),
        Rule::Expr => parse_range(&node.children, 0, node.children.len(), imports, fuel),
        Rule::Array => match parse_elements(&node.children, imports, fuel) {
            Ok(elements) => Ok(Expr::Array(elements)),
            Err(error) => Err(error),
        },
        Rule::FunctionCall => {
            let children = &node.children;
            let count = children.len();
            if count == 0 || children[0].rule != Rule::Identifier {
                return Err(ParseError::Malformed);
            }
            let arguments = count > 1 && children[1].rule == Rule::FunctionArgsList;
            let after: usize = if arguments {
                2
            } else {
                1
            };
            let block = count > after && children[after].rule == Rule::Block;
            let expected: usize = if block {
                after + 1
            } else {
                after
            };
            if count != expected {
                return Err(ParseError::Malformed);
            }
            let parameters = if arguments {
                match parse_elements(&children[1].children, imports, fuel) {
                    Ok(parameters) => parameters,
                    Err(error) => {
                        return Err(error);
                    },
                }
            } else {
                let none: Vec<Expr> = Vec::new();
                proof {
                    assert(exprs_view(none@) =~= Seq::<ExprModel>::empty());
                }
                none
            };
            let lambda_body = if block {
                match parse_statements(&children[count - 1].children, imports, fuel) {
                    Ok(statements) => Some(statements),
                    Err(error) => {
                        return Err(error);
                    },
                }
            } else {
                None
            };
            Ok(Expr::FunctionCall { identifier: children[0].text.clone(), parameters, lambda_body })
        },
        _ => Err(ParseError::Malformed),
    }
}

/// Builds the expressions that `nodes` spell, each of them an `Expr` node.
#[verifier::loop_isolation(false)]
pub fn parse_elements(nodes: &Vec<ParseNode>, imports: &Vec<SourceFile>, fuel: usize) -> (r: Result<
    Vec<Expr>,
    ParseError,
>)
    ensures
        exprs_result(r) == build_elements(
            forest_view(nodes@),
            0,
            Seq::empty(),
            imports@,
            fuel as nat,
        ),
    decreases fuel, 1nat, nodes, nodes.len(), 1nat,
{
    let mut found: Vec<Expr> = Vec::new();
    proof {
        assert(exprs_view(found@) =~= Seq::<ExprModel>::empty());
    }
    let mut at: usize = 0;
    while at < nodes.len()
        invariant
            at <= nodes.len(),
            build_elements(
                forest_view(nodes@),
                at as int,
                exprs_view(found@),
                imports@,
                fuel as nat,
            ) == build_elements(forest_view(nodes@), 0, Seq::empty(), imports@, fuel as nat),
        decreases nodes.len() - at,
    {
        if nodes[at].rule != Rule::Expr {
            return Err(ParseError::Malformed);
        }
        let inner = &nodes[at].children;
        match parse_range(inner, 0, inner.len(), imports, fuel) {
            Ok(element) => {
                proof {
                    lemma_exprs_push(found@, element);
                }
                found.push(element);
            },
            Err(error) => {
                return Err(error);
            },
        }
        at += 1;
    }
    Ok(found)
}

} // verus!
