//! Statements and type hints, and how they are built from the parse tree.
use crate::parser::{
    find_source, parse_source, parse_text, source_text, JamalangFile, JamalangFileModel,
    ParseError, ParseErrorModel, SourceFile,
};
use crate::parser::expr::{build_range, expr_result, parse_range, Expr, ExprModel};
use crate::parser::text::{same_text, to_chars};
use crate::parser::tree::{forest_view, ParseNode, ParseTree, Rule};
use vstd::prelude::*;
use vstd::string::{StrSliceExecFns, StringExecFns};

verus! {

broadcast use crate::parser::tree::group_forest;

/// How an assignment combines the value with what the target holds.
#[derive(Debug, Clone, Copy, PartialEq, Eq, Structural)]
pub enum AssignmentType {
    Assign,
    Add,
    Sub,
    Mul,
    Div,
    Pow,
}

/// A type as the source names it.
#[derive(Debug, PartialEq)]
pub enum Type {
    Void,
    Number,
    Char,
    Bool,
    Array { len: u32, kind: Box<Type> },
    Custom(String),
}

/// The mathematical model of a [`Type`].
pub enum TypeModel {
    Void,
    Number,
    Char,
    Bool,
    Array { len: u32, kind: Box<TypeModel> },
    Custom(Seq<char>),
}

impl Type {
    pub open spec fn view(&self) -> TypeModel
        decreases self,
    {
        match self {
            Type::Void => TypeModel::Void,
            Type::Number => TypeModel::Number,
            Type::Char => TypeModel::Char,
            Type::Bool => TypeModel::Bool,
            Type::Array { len, kind } => TypeModel::Array { len: *len, kind: Box::new(kind.view()) },
            Type::Custom(name) => TypeModel::Custom(name@),
        }
    }
}

/// A statement.
#[derive(Debug, PartialEq)]
pub enum Statement {
    Assignment { identifier: String, index: Option<Expr>, kind: AssignmentType, value: Expr },
    FunctionDefinition {
        lambda: bool,
        identifier: String,
        parameters: Vec<(String, Type)>,
        return_type_hint: Type,
        body: Vec<Statement>,
    },
    Return { value: Expr },
    WhileLoop { condition: Expr, body: Vec<Statement> },
    ForLoop {
        identifier: String,
        identifier_type_hint: Option<Type>,
        expression: Expr,
        body: Vec<Statement>,
    },
    IfStatement {
        condition: Expr,
        body: Vec<Statement>,
        else_ifs: Vec<(Expr, Vec<Statement>)>,
        else_body: Vec<Statement>,
    },
    ForeignModule(JamalangFile),
    Expr { expr: Expr },
    Comment(String),
}

/// The mathematical model of a [`Statement`].
pub enum StatementModel {
    Assignment {
        identifier: Seq<char>,
        index: Option<ExprModel>,
        kind: AssignmentType,
        value: ExprModel,
    },
    FunctionDefinition {
        lambda: bool,
        identifier: Seq<char>,
        parameters: Seq<(Seq<char>, TypeModel)>,
        return_type_hint: TypeModel,
        body: Seq<StatementModel>,
    },
    Return { value: ExprModel },
    WhileLoop { condition: ExprModel, body: Seq<StatementModel> },
    ForLoop {
        identifier: Seq<char>,
        identifier_type_hint: Option<TypeModel>,
        expression: ExprModel,
        body: Seq<StatementModel>,
    },
    IfStatement {
        condition: ExprModel,
        body: Seq<StatementModel>,
        else_ifs: Seq<(ExprModel, Seq<StatementModel>)>,
        else_body: Seq<StatementModel>,
    },
    ForeignModule(JamalangFileModel),
    Expr { expr: ExprModel },
    Comment(Seq<char>),
}

/// The models of a sequence of statements, one for one.
pub open spec fn statements_view(statements: Seq<Statement>) -> Seq<StatementModel>
    decreases statements, 0nat,
{
    Seq::new(
        statements.len(),
        |i: int|
            if 0 <= i < statements.len() {
                statements[i].view()
            } else {
                arbitrary()
            },
    )
}

/// The models of the `elif` branches of an `if`, one for one.
pub open spec fn branches_view(branches: Seq<(Expr, Vec<Statement>)>) -> Seq<
    (ExprModel, Seq<StatementModel>),
>
    decreases branches, 0nat,
{
    Seq::new(
        branches.len(),
        |i: int|
            if 0 <= i < branches.len() {
                (branches[i].0.view(), statements_view(branches[i].1@))
            } else {
                arbitrary()
            },
    )
}

/// The models of a function's parameters, one for one.
pub open spec fn parameters_view(parameters: Seq<(String, Type)>) -> Seq<(Seq<char>, TypeModel)> {
    Seq::new(parameters.len(), |i: int| (parameters[i].0@, parameters[i].1.view()))
}

impl Statement {
    pub open spec fn view(&self) -> StatementModel
        decreases self, 1nat,
    {
        match self {
            Statement::Assignment { identifier, index, kind, value } => StatementModel::Assignment {
                identifier: identifier@,
                index: match index {
                    Some(expr) => Some(expr.view()),
                    None => None,
                },
                kind: *kind,
                value: value.view(),
            },
            Statement::FunctionDefinition {
                lambda,
                identifier,
                parameters,
                return_type_hint,
                body,
            } => StatementModel::FunctionDefinition {
                lambda: *lambda,
                identifier: identifier@,
                parameters: parameters_view(parameters@),
                return_type_hint: return_type_hint.view(),
                body: statements_view(body@),
            },
            Statement::Return { value } => StatementModel::Return { value: value.view() },
            Statement::WhileLoop { condition, body } => StatementModel::WhileLoop {
                condition: condition.view(),
                body: statements_view(body@),
            },
            Statement::ForLoop {
                identifier,
                identifier_type_hint,
                expression,
                body,
            } => StatementModel::ForLoop {
                identifier: identifier@,
                identifier_type_hint: match identifier_type_hint {
                    Some(hint) => Some(hint.view()),
                    None => None,
                },
                expression: expression.view(),
                body: statements_view(body@),
            },
            Statement::IfStatement { condition, body, else_ifs, else_body } => {
                StatementModel::IfStatement {
                    condition: condition.view(),
                    body: statements_view(body@),
                    else_ifs: branches_view(else_ifs@),
                    else_body: statements_view(else_body@),
                }
            },
            Statement::ForeignModule(file) => StatementModel::ForeignModule(
                JamalangFileModel {
                    source_file: file.source_file@,
                    statements: statements_view(file.statements@),
                },
            ),
            Statement::Expr { expr } => StatementModel::Expr { expr: expr.view() },
            Statement::Comment(text) => StatementModel::Comment(text@),
        }
    }
}

/// The model of a sequence of statements is as long as the sequence.
pub broadcast proof fn lemma_statements_len(statements: Seq<Statement>)
    ensures
        #[trigger] statements_view(statements).len() == statements.len(),
{
}

/// The model of a sequence of statements holds the models of the
/// statements.
pub broadcast proof fn lemma_statements_index(statements: Seq<Statement>, i: int)
    requires
        0 <= i < statements.len(),
    ensures
        #[trigger] statements_view(statements)[i] == statements[i]@,
{
}

/// The model of a sequence of branches is as long as the sequence.
pub broadcast proof fn lemma_branches_len(branches: Seq<(Expr, Vec<Statement>)>)
    ensures
        #[trigger] branches_view(branches).len() == branches.len(),
{
}

/// The model of a sequence of branches holds the models of the branches.
pub broadcast proof fn lemma_branches_index(branches: Seq<(Expr, Vec<Statement>)>, i: int)
    requires
        0 <= i < branches.len(),
    ensures
        #[trigger] branches_view(branches)[i] == (
            branches[i].0@,
            statements_view(branches[i].1@),
        ),
{
}

pub broadcast group group_statements {
    lemma_statements_len,
    lemma_statements_index,
    lemma_branches_len,
    lemma_branches_index,
}

/// Appending a statement to a sequence appends its model to the sequence's
/// model.
pub proof fn lemma_statements_push(statements: Seq<Statement>, statement: Statement)
    ensures
        statements_view(statements.push(statement)) == statements_view(statements).push(
            statement.view(),
        ),
{
    assert(statements_view(statements.push(statement)) =~= statements_view(statements).push(
        statement.view(),
    ));
}

/// A type hint without the colons and spaces that introduce it: every
/// leading `": "` is taken off.
pub open spec fn strip_hint(hint: Seq<char>) -> Seq<char>
    decreases hint.len(),
{
    if hint.len() >= 2 && hint[0] == ':' && hint[1] == ' ' {
        strip_hint(hint.subrange(2, hint.len() as int))
    } else {
        hint
    }
}

/// Whether every character is a decimal digit.
pub open spec fn all_digits(text: Seq<char>) -> bool {
    forall|i: int| 0 <= i < text.len() ==> '0' <= #[trigger] text[i] <= '9'
}

/// The number that decimal digits spell.
pub open spec fn decimal(digits: Seq<char>) -> nat
    decreases digits.len(),
{
    if digits.len() == 0 {
        0
    } else {
        decimal(digits.drop_last()) * 10 + (digits.last() as nat - '0' as nat) as nat
    }
}

/// The place of the last `[` before `hi`, or -1 where there is none.
pub open spec fn last_bracket(name: Seq<char>, hi: int) -> int
    decreases hi,
{
    if hi <= 0 || hi > name.len() {
        -1
    } else if name[hi - 1] == '[' {
        hi - 1
    } else {
        last_bracket(name, hi - 1)
    }
}

/// The type that a name stands for. The four built-in names stand for
/// themselves. A name that ends in a length in square brackets, which fits
/// 32 bits, is an array of what stands before the brackets. Any other name
/// is a custom type.
pub open spec fn type_of_name(name: Seq<char>) -> TypeModel
    decreases name.len(),
{
    if name == "number"@ {
        TypeModel::Number
    } else if name == "bool"@ {
        TypeModel::Bool
    } else if name == "void"@ {
        TypeModel::Void
    } else if name == "char"@ {
        TypeModel::Char
    } else if name.len() > 0 && name.last() == ']' {
        let open = last_bracket(name, name.len() - 1);
        let digits = if 0 <= open < name.len() - 1 {
            name.subrange(open + 1, name.len() - 1)
        } else {
            Seq::empty()
        };
        if 0 <= open < name.len() - 1 && digits.len() > 0 && all_digits(digits) && decimal(digits)
            <= u32::MAX {
            TypeModel::Array {
                len: decimal(digits) as u32,
                kind: Box::new(type_of_name(name.subrange(0, open))),
            }
        } else {
            TypeModel::Custom(name)
        }
    } else {
        TypeModel::Custom(name)
    }
}

/// The type that a hint stands for. A hint that starts with a colon is read
/// without its leading `": "`.
pub open spec fn type_of_hint(hint: Seq<char>) -> TypeModel {
    if hint.len() > 0 && hint[0] == ':' {
        type_of_name(strip_hint(hint))
    } else {
        type_of_name(hint)
    }
}

/// The kind of assignment that an operator rule stands for.
pub open spec fn assignment_kind(rule: Rule) -> Option<AssignmentType> {
    match rule {
        Rule::AssSet => Some(AssignmentType::Assign),
        Rule::AssAdd => Some(AssignmentType::Add),
        Rule::AssSub => Some(AssignmentType::Sub),
        Rule::AssMul => Some(AssignmentType::Mul),
        Rule::AssDiv => Some(AssignmentType::Div),
        Rule::AssPow => Some(AssignmentType::Pow),
        _ => None,
    }
}

/// The expression that an `Expr` node, or a node that holds one, spells.
pub open spec fn build_inner(node: ParseTree, sources: Seq<SourceFile>, fuel: nat) -> Result<
    ExprModel,
    ParseErrorModel,
>
    decreases fuel, 1nat, node, 0nat, 2nat,
{
    build_range(node.children, 0, node.children.len() as int, sources, fuel)
}

/// The statements that the nodes from `at` on spell, after `found`.
pub open spec fn build_statements(
    nodes: Seq<ParseTree>,
    at: int,
    found: Seq<StatementModel>,
    sources: Seq<SourceFile>,
    fuel: nat,
) -> Result<Seq<StatementModel>, ParseErrorModel>
    decreases fuel, 1nat, nodes, nodes.len() - at, 0nat,
{
    if at < 0 || at >= nodes.len() {
        Ok(found)
    } else {
        match build_statement(nodes[at], sources, fuel) {
            Err(error) => Err(error),
            Ok(statement) => build_statements(nodes, at + 1, found.push(statement), sources, fuel),
        }
    }
}

/// The statement that a `Statement` node spells. `sources` holds the texts
/// that imports may name, and `fuel` bounds how deeply imports may nest.
pub open spec fn build_statement(node: ParseTree, sources: Seq<SourceFile>, fuel: nat) -> Result<
    StatementModel,
    ParseErrorModel,
>
    decreases fuel, 1nat, node, 1nat, 0nat,
{
    if node.rule != Rule::Statement || node.children.len() != 1 {
        Err(ParseErrorModel::Malformed)
    } else {
        let inner = node.children[0];
        match inner.rule {
            Rule::Assignment => build_assignment(inner, sources, fuel),
            Rule::FunctionDefinition => build_function(inner, sources, fuel),
            Rule::IfBlock => build_if(inner, sources, fuel),
            Rule::WhileStatement => build_while(inner, sources, fuel),
            Rule::ForStatement => build_for(inner, sources, fuel),
            Rule::ImportStatement => build_import(inner, sources, fuel),
            Rule::Expr => match build_inner(inner, sources, fuel) {
                Err(error) => Err(error),
                Ok(expr) => Ok(StatementModel::Expr { expr }),
            },
            Rule::ReturnStatement => match build_inner(inner, sources, fuel) {
                Err(error) => Err(error),
                Ok(value) => Ok(StatementModel::Return { value }),
            },
            Rule::Comment => Ok(StatementModel::Comment(inner.text)),
            _ => Err(ParseErrorModel::Malformed),
        }
    }
}

/// Whether the children of an assignment have the shape that the grammar
/// gives them: the name, the index if there is one, the operator, the value.
pub open spec fn assignment_shape(children: Seq<ParseTree>) -> bool {
    &&& children.len() == 3 || children.len() == 4
    &&& children[0].rule == Rule::Identifier
    &&& children.len() == 4 ==> children[1].rule == Rule::ArrayIndexing
    &&& assignment_kind(children[children.len() - 2].rule) is Some
    &&& children[children.len() - 1].rule == Rule::Expr
}

/// The assignment that an `Assignment` node spells.
pub open spec fn build_assignment(node: ParseTree, sources: Seq<SourceFile>, fuel: nat) -> Result<
    StatementModel,
    ParseErrorModel,
>
    decreases fuel, 1nat, node, 0nat, 3nat,
{
    let children = node.children;
    if !assignment_shape(children) {
        Err(ParseErrorModel::Malformed)
    } else {
        let index = if children.len() == 4 {
            match build_inner(children[1], sources, fuel) {
                Err(error) => Err(error),
                Ok(index) => Ok(Some(index)),
            }
        } else {
            Ok(None)
        };
        match index {
            Err(error) => Err(error),
            Ok(index) => match build_inner(children[children.len() - 1], sources, fuel) {
                Err(error) => Err(error),
                Ok(value) => Ok(
                    StatementModel::Assignment {
                        identifier: children[0].text,
                        index,
                        kind: assignment_kind(children[children.len() - 2].rule).unwrap(),
                        value,
                    },
                ),
            },
        }
    }
}

/// The parameters that the children of a parameter list spell from `at` on,
/// after `found`: names and type hints in turn.
pub open spec fn build_parameters(
    nodes: Seq<ParseTree>,
    at: int,
    found: Seq<(Seq<char>, TypeModel)>,
) -> Result<Seq<(Seq<char>, TypeModel)>, ParseErrorModel>
    decreases nodes.len() - at,
{
    if at < 0 || at >= nodes.len() {
        Ok(found)
    } else if at + 1 < nodes.len() && nodes[at].rule == Rule::IdentifierDefinition && nodes[at
        + 1].rule == Rule::TypeHint {
        build_parameters(
            nodes,
            at + 2,
            found.push((nodes[at].text, type_of_hint(nodes[at + 1].text))),
        )
    } else {
        Err(ParseErrorModel::Malformed)
    }
}

/// How many of the optional children of a function definition are there
/// before the name (0 or 1: `lambda`).
pub open spec fn function_lambda(children: Seq<ParseTree>) -> int {
    if children.len() > 0 && children[0].rule == Rule::Lambda {
        1
    } else {
        0
    }
}

/// Whether a function definition has a parameter list (1) or not (0).
pub open spec fn function_list(children: Seq<ParseTree>) -> int {
    let at = function_lambda(children) + 1;
    if children.len() > at && children[at].rule == Rule::FunctionArgsDefinitionList {
        1
    } else {
        0
    }
}

/// Whether a function definition names its result type (1) or not (0).
pub open spec fn function_hint(children: Seq<ParseTree>) -> int {
    let at = function_lambda(children) + 1 + function_list(children);
    if children.len() > at && children[at].rule == Rule::TypeHint {
        1
    } else {
        0
    }
}

/// Whether the children of a function definition have the shape that the
/// grammar gives them.
pub open spec fn function_shape(children: Seq<ParseTree>) -> bool {
    let lambda = function_lambda(children);
    &&& children.len() == lambda + function_list(children) + function_hint(children) + 2
    &&& children[lambda].rule == Rule::IdentifierDefinition
    &&& children[children.len() - 1].rule == Rule::Block
}

/// The function definition that a `FunctionDefinition` node spells. A
/// definition that names no result type returns nothing.
pub open spec fn build_function(node: ParseTree, sources: Seq<SourceFile>, fuel: nat) -> Result<
    StatementModel,
    ParseErrorModel,
>
    decreases fuel, 1nat, node, 0nat, 3nat,
{
    let children = node.children;
    if !function_shape(children) {
        Err(ParseErrorModel::Malformed)
    } else {
        let lambda = function_lambda(children);
        let list = function_list(children);
        let parameters = if list == 1 {
            build_parameters(children[lambda + 1].children, 0, Seq::empty())
        } else {
            Ok(Seq::empty())
        };
        let return_type_hint = if function_hint(children) == 1 {
            type_of_hint(children[lambda + 1 + list].text)
        } else {
            TypeModel::Void
        };
        match parameters {
            Err(error) => Err(error),
            Ok(parameters) => match build_statements(
                children[children.len() - 1].children,
                0,
                Seq::empty(),
                sources,
                fuel,
            ) {
                Err(error) => Err(error),
                Ok(body) => Ok(
                    StatementModel::FunctionDefinition {
                        lambda: lambda == 1,
                        identifier: children[lambda].text,
                        parameters,
                        return_type_hint,
                        body,
                    },
                ),
            },
        }
    }
}

/// Whether the children of a node are a condition and a block.
pub open spec fn guarded_shape(children: Seq<ParseTree>) -> bool {
    &&& children.len() == 2
    &&& children[0].rule == Rule::Expr
    &&& children[1].rule == Rule::Block
}

/// The condition and the body that a node with a condition and a block
/// spells.
pub open spec fn build_guarded(node: ParseTree, sources: Seq<SourceFile>, fuel: nat) -> Result<
    (ExprModel, Seq<StatementModel>),
    ParseErrorModel,
>
    decreases fuel, 1nat, node, 0nat, 3nat,
{
    let children = node.children;
    if !guarded_shape(children) {
        Err(ParseErrorModel::Malformed)
    } else {
        match build_inner(children[0], sources, fuel) {
            Err(error) => Err(error),
            Ok(condition) => match build_statements(
                children[1].children,
                0,
                Seq::empty(),
                sources,
                fuel,
            ) {
                Err(error) => Err(error),
                Ok(body) => Ok((condition, body)),
            },
        }
    }
}

/// The `elif` branches that the nodes from `at` up to `end` spell, after
/// `found`.
pub open spec fn build_branches(
    nodes: Seq<ParseTree>,
    at: int,
    end: int,
    found: Seq<(ExprModel, Seq<StatementModel>)>,
    sources: Seq<SourceFile>,
    fuel: nat,
) -> Result<Seq<(ExprModel, Seq<StatementModel>)>, ParseErrorModel>
    decreases fuel, 1nat, nodes, end - at, 0nat,
{
    if at < 0 || at >= end || end > nodes.len() {
        Ok(found)
    } else if nodes[at].rule != Rule::ElifStatement {
        Err(ParseErrorModel::Malformed)
    } else {
        match build_guarded(nodes[at], sources, fuel) {
            Err(error) => Err(error),
            Ok(branch) => build_branches(nodes, at + 1, end, found.push(branch), sources, fuel),
        }
    }
}

/// Whether an `if` ends in an `else` (1) or not (0).
pub open spec fn if_else(children: Seq<ParseTree>) -> int {
    if children.len() > 1 && children[children.len() - 1].rule == Rule::ElseStatement {
        1
    } else {
        0
    }
}

/// The `if` statement that an `IfBlock` node spells: the `if` itself, the
/// `elif` branches in source order, and the `else` body, empty where there
/// is none.
pub open spec fn build_if(node: ParseTree, sources: Seq<SourceFile>, fuel: nat) -> Result<
    StatementModel,
    ParseErrorModel,
>
    decreases fuel, 1nat, node, 0nat, 4nat,
{
    let children = node.children;
    if children.len() == 0 || children[0].rule != Rule::IfStatement {
        Err(ParseErrorModel::Malformed)
    } else {
        let last = children.len() - if_else(children);
        match build_guarded(children[0], sources, fuel) {
            Err(error) => Err(error),
            Ok(head) => match build_branches(children, 1, last, Seq::empty(), sources, fuel) {
                Err(error) => Err(error),
                Ok(else_ifs) => if if_else(children) == 0 {
                    Ok(
                        StatementModel::IfStatement {
                            condition: head.0,
                            body: head.1,
                            else_ifs,
                            else_body: Seq::empty(),
                        },
                    )
                } else if children[last].children.len() != 1 || children[last].children[0].rule
                    != Rule::Block {
                    Err(ParseErrorModel::Malformed)
                } else {
                    match build_statements(
                        children[last].children[0].children,
                        0,
                        Seq::empty(),
                        sources,
                        fuel,
                    ) {
                        Err(error) => Err(error),
                        Ok(else_body) => Ok(
                            StatementModel::IfStatement {
                                condition: head.0,
                                body: head.1,
                                else_ifs,
                                else_body,
                            },
                        ),
                    }
                },
            },
        }
    }
}

/// The loop that a `WhileStatement` node spells.
pub open spec fn build_while(node: ParseTree, sources: Seq<SourceFile>, fuel: nat) -> Result<
    StatementModel,
    ParseErrorModel,
>
    decreases fuel, 1nat, node, 0nat, 4nat,
{
    match build_guarded(node, sources, fuel) {
        Err(error) => Err(error),
        Ok(parts) => Ok(StatementModel::WhileLoop { condition: parts.0, body: parts.1 }),
    }
}

/// Whether the children of a `for` have the shape that the grammar gives
/// them: the name, its type if there is one, the value to walk, the block.
pub open spec fn for_shape(children: Seq<ParseTree>) -> bool {
    &&& children.len() == 3 || children.len() == 4
    &&& children[0].rule == Rule::Identifier
    &&& children.len() == 4 ==> children[1].rule == Rule::TypeHint
    &&& children[children.len() - 2].rule == Rule::Expr
    &&& children[children.len() - 1].rule == Rule::Block
}

/// The loop that a `ForStatement` node spells.
pub open spec fn build_for(node: ParseTree, sources: Seq<SourceFile>, fuel: nat) -> Result<
    StatementModel,
    ParseErrorModel,
>
    decreases fuel, 1nat, node, 0nat, 3nat,
{
    let children = node.children;
    if !for_shape(children) {
        Err(ParseErrorModel::Malformed)
    } else {
        match build_inner(children[children.len() - 2], sources, fuel) {
            Err(error) => Err(error),
            Ok(expression) => match build_statements(
                children[children.len() - 1].children,
                0,
                Seq::empty(),
                sources,
                fuel,
            ) {
                Err(error) => Err(error),
                Ok(body) => Ok(
                    StatementModel::ForLoop {
                        identifier: children[0].text,
                        identifier_type_hint: if children.len() == 4 {
                            Some(type_of_hint(children[1].text))
                        } else {
                            None
                        },
                        expression,
                        body,
                    },
                ),
            },
        }
    }
}

/// The foreign module that an `ImportStatement` node spells: the file that
/// it names, parsed in full.
pub open spec fn build_import(node: ParseTree, sources: Seq<SourceFile>, fuel: nat) -> Result<
    StatementModel,
    ParseErrorModel,
>
    decreases fuel, 1nat, node, 0nat, 3nat,
{
    let children = node.children;
    if children.len() != 1 || children[0].rule != Rule::Path {
        Err(ParseErrorModel::Malformed)
    } else {
        match source_text(sources, children[0].text) {
            None => Err(ParseErrorModel::ImportUnavailable(children[0].text)),
            Some(text) => match parse_text(children[0].text, text, sources, fuel) {
                Err(error) => Err(error),
                Ok(file) => Ok(StatementModel::ForeignModule(file)),
            },
        }
    }
}

/// A prefix of decimal digits spells no more than the whole.
pub proof fn lemma_decimal_prefix(digits: Seq<char>, k: int)
    requires
        0 <= k <= digits.len(),
    ensures
        decimal(digits.subrange(0, k)) <= decimal(digits),
    decreases digits.len(),
{
    if k == digits.len() {
        assert(digits.subrange(0, k) =~= digits);
    } else {
        lemma_decimal_prefix(digits.drop_last(), k);
        assert(digits.drop_last().subrange(0, k) =~= digits.subrange(0, k));
    }
}

/// Finds the last `[` before `hi`.
fn find_bracket(chars: &Vec<char>, hi: usize) -> (r: Option<usize>)
    requires
        hi <= chars.len(),
    ensures
        match r {
            Some(at) => at < hi && last_bracket(chars@, hi as int) == at,
            None => last_bracket(chars@, hi as int) == -1,
        },
{
    let mut at = hi;
    while at > 0
        invariant
            at <= hi <= chars.len(),
            last_bracket(chars@, at as int) == last_bracket(chars@, hi as int),
        decreases at,
    {
        if chars[at - 1] == '[' {
            return Some(at - 1);
        }
        at -= 1;
    }
    None
}

/// Reads `chars[lo..hi]` as a decimal number that fits 32 bits.
fn read_length(chars: &Vec<char>, lo: usize, hi: usize) -> (r: Option<u32>)
    requires
        lo <= hi <= chars.len(),
    ensures
        match r {
            Some(value) => {
                &&& lo < hi
                &&& all_digits(chars@.subrange(lo as int, hi as int))
                &&& decimal(chars@.subrange(lo as int, hi as int)) == value
            },
            None => !(lo < hi && all_digits(chars@.subrange(lo as int, hi as int)) && decimal(
                chars@.subrange(lo as int, hi as int),
            ) <= u32::MAX),
        },
{
    if lo == hi {
        return None;
    }
    let ghost digits = chars@.subrange(lo as int, hi as int);
    let mut value: u64 = 0;
    let mut at = lo;
    while at < hi
        invariant
            lo <= at <= hi <= chars.len(),
            digits == chars@.subrange(lo as int, hi as int),
            value == decimal(digits.subrange(0, at - lo)),
            value <= u32::MAX,
            all_digits(digits.subrange(0, at - lo)),
        decreases hi - at,
    {
        let c = chars[at];
        if !('0' <= c && c <= '9') {
            proof {
                assert(digits[at - lo] == c);
            }
            return None;
        }
        proof {
            let longer = digits.subrange(0, at - lo + 1);
            assert(longer.drop_last() =~= digits.subrange(0, at - lo));
            assert(longer.last() == c);
            lemma_decimal_prefix(digits, at - lo + 1);
            assert forall|i: int| 0 <= i < longer.len() implies '0' <= #[trigger] longer[i]
                <= '9' by {
                if i < at - lo {
                    assert(longer[i] == digits.subrange(0, at - lo)[i]);
                }
            }
        }
        let digit = (c as u32 - '0' as u32) as u64;
        value = value * 10 + digit;
        if value > u32::MAX as u64 {
            return None;
        }
        at += 1;
    }
    proof {
        assert(digits.subrange(0, hi - lo) =~= digits);
    }
    Some(value as u32)
}

/// The type that a name stands for, as [`type_of_name`] defines it.
fn type_named(name: &str) -> (r: Type)
    ensures
        r@ == type_of_name(name@),
    decreases name@.len(),
{
    let chars = to_chars(name);
    let count = chars.len();
    if same_text(&chars, "number") {
        Type::Number
    } else if same_text(&chars, "bool") {
        Type::Bool
    } else if same_text(&chars, "void") {
        Type::Void
    } else if same_text(&chars, "char") {
        Type::Char
    } else if count > 0 && chars[count - 1] == ']' {
        match find_bracket(&chars, count - 1) {
            Some(open) => match read_length(&chars, open + 1, count - 1) {
                Some(len) => Type::Array {
                    len,
                    kind: Box::new(type_named(name.substring_char(0, open))),
                },
                None => Type::Custom(String::from_str(name)),
            },
            None => Type::Custom(String::from_str(name)),
        }
    } else {
        Type::Custom(String::from_str(name))
    }
}

/// The type that a hint stands for.
///
/// `number`, `bool`, `void` and `char` are the built-in types. A name
/// followed by a length in square brackets is an array of that many values
/// of the named type. Any other name is a custom type. A hint that starts
/// with a colon is read without its leading `": "`.
pub fn parse_type_hint(hint: &str) -> (r: Type)
    ensures
        r@ == type_of_hint(hint@),
{
    let chars = to_chars(hint);
    let count = chars.len();
    if count > 0 && chars[0] == ':' {
        let mut start: usize = 0;
        proof {
            assert(chars@.subrange(0, count as int) =~= chars@);
        }
        while count - start >= 2 && chars[start] == ':' && chars[start + 1] == ' '
            invariant
                start <= count == chars.len(),
                strip_hint(chars@.subrange(start as int, count as int)) == strip_hint(chars@),
            decreases count - start,
        {
            proof {
                let rest = chars@.subrange(start as int, count as int);
                assert(rest.subrange(2, rest.len() as int) =~= chars@.subrange(
                    start + 2,
                    count as int,
                ));
            }
            start += 2;
        }
        type_named(hint.substring_char(start, count))
    } else {
        type_named(hint)
    }
}

/// The model of what building a statement gave.
pub open spec fn statement_result(r: Result<Statement, ParseError>) -> Result<
    StatementModel,
    ParseErrorModel,
> {
    match r {
        Ok(statement) => Ok(statement@),
        Err(error) => Err(error@),
    }
}

/// The model of what building a list of statements gave.
pub open spec fn statements_result(r: Result<Vec<Statement>, ParseError>) -> Result<
    Seq<StatementModel>,
    ParseErrorModel,
> {
    match r {
        Ok(statements) => Ok(statements_view(statements@)),
        Err(error) => Err(error@),
    }
}

/// The kind of assignment of an operator rule, as [`assignment_kind`]
/// defines it.
fn assignment_kind_of(rule: Rule) -> (r: Option<AssignmentType>)
    ensures
        r == assignment_kind(rule),
{
    match rule {
        Rule::AssSet => Some(AssignmentType::Assign),
        Rule::AssAdd => Some(AssignmentType::Add),
        Rule::AssSub => Some(AssignmentType::Sub),
        Rule::AssMul => Some(AssignmentType::Mul),
        Rule::AssDiv => Some(AssignmentType::Div),
        Rule::AssPow => Some(AssignmentType::Pow),
        _ => None,
    }
}

/// Builds the expression that the children of `node` spell.
pub fn parse_inner(node: &ParseNode, imports: &Vec<SourceFile>, fuel: usize) -> (r: Result<
    Expr,
    ParseError,
>)
    ensures
        expr_result(r) == build_inner(node@, imports@, fuel as nat),
    decreases fuel, 1nat, node, 0nat, 2nat,
{
    parse_range(&node.children, 0, node.children.len(), imports, fuel)
}

/// Builds the statements that `nodes` spell, in order.
#[verifier::loop_isolation(false)]
pub fn parse_statements(nodes: &Vec<ParseNode>, imports: &Vec<SourceFile>, fuel: usize) -> (r:
    Result<Vec<Statement>, ParseError>)
    ensures
        statements_result(r) == build_statements(
            forest_view(nodes@),
            0,
            Seq::empty(),
            imports@,
            fuel as nat,
        ),
    decreases fuel, 1nat, nodes, nodes.len(), 1nat,
{
    let mut found: Vec<Statement> = Vec::new();
    proof {
        assert(statements_view(found@) =~= Seq::<StatementModel>::empty());
    }
    let mut at: usize = 0;
    while at < nodes.len()
        invariant
            at <= nodes.len(),
            build_statements(
                forest_view(nodes@),
                at as int,
                statements_view(found@),
                imports@,
                fuel as nat,
            ) == build_statements(forest_view(nodes@), 0, Seq::empty(), imports@, fuel as nat),
        decreases nodes.len() - at,
    {
        match parse_statement(&nodes[at], imports, fuel) {
            Ok(statement) => {
                proof {
                    lemma_statements_push(found@, statement);
                }
                found.push(statement);
            },
            Err(error) => {
                return Err(error);
            },
        }
        at += 1;
    }
    Ok(found)
}

/// Builds the statement that a `Statement` node of the parse tree spells.
///
/// Each rule gives one kind of statement. An import is replaced by the
/// syntax tree of the file that it names, whose text is looked up in
/// `imports`; `fuel` is the number of files that may still be entered.
pub fn parse_statement(pair: &ParseNode, imports: &Vec<SourceFile>, fuel: usize) -> (r: Result<
    Statement,
    ParseError,
>)
    ensures
        statement_result(r) == build_statement(pair@, imports@, fuel as nat),
    decreases fuel, 1nat, pair, 1nat, 0nat,
{
    if pair.rule != Rule::Statement || pair.children.len() != 1 {
        return Err(ParseError::Malformed);
    }
    let inner = &pair.children[0];
    match inner.rule {
        Rule::Assignment => parse_assignment(inner, imports, fuel),
        Rule::FunctionDefinition => parse_function(inner, imports, fuel),
        Rule::IfBlock => parse_if(inner, imports, fuel),
        Rule::WhileStatement => parse_while(inner, imports, fuel),
        Rule::ForStatement => parse_for(inner, imports, fuel),
        Rule::ImportStatement => parse_import(inner, imports, fuel),
        Rule::Expr => match parse_inner(inner, imports, fuel) {
            Ok(expr) => Ok(Statement::Expr { expr }),
            Err(error) => Err(error),
        },
        Rule::ReturnStatement => match parse_inner(inner, imports, fuel) {
            Ok(value) => Ok(Statement::Return { value }),
            Err(error) => Err(error),
        },
        Rule::Comment => Ok(Statement::Comment(inner.text.clone())),
        _ => Err(ParseError::Malformed),
    }
}

/// Builds the assignment that an `Assignment` node spells.
#[verifier::rlimit(60)]
fn parse_assignment(node: &ParseNode, imports: &Vec<SourceFile>, fuel: usize) -> (r: Result<
    Statement,
    ParseError,
>)
    ensures
        statement_result(r) == build_assignment(node@, imports@, fuel as nat),
    decreases fuel, 1nat, node, 0nat, 3nat,
{
    let children = &node.children;
    let count = children.len();
    if !(count == 3 || count == 4) || children[0].rule != Rule::Identifier || (count == 4
        && children[1].rule != Rule::ArrayIndexing) || children[count - 1].rule != Rule::Expr {
        return Err(ParseError::Malformed);
    }
    let kind = match assignment_kind_of(children[count - 2].rule) {
        Some(kind) => kind,
        None => {
            return Err(ParseError::Malformed);
        },
    };
    let index = if count == 4 {
        match parse_inner(&children[1], imports, fuel) {
            Ok(index) => Some(index),
            Err(error) => {
                return Err(error);
            },
        }
    } else {
        None
    };
    match parse_inner(&children[count - 1], imports, fuel) {
        Ok(value) => Ok(
            Statement::Assignment { identifier: children[0].text.clone(), index, kind, value },
        ),
        Err(error) => Err(error),
    }
}

/// Builds the parameters that the children of a parameter list spell.
fn parse_parameters(nodes: &Vec<ParseNode>) -> (r: Result<Vec<(String, Type)>, ParseError>)
    ensures
        match r {
            Ok(parameters) => build_parameters(forest_view(nodes@), 0, Seq::empty()) == Ok::<
                Seq<(Seq<char>, TypeModel)>,
                ParseErrorModel,
            >(parameters_view(parameters@)),
            Err(error) => build_parameters(forest_view(nodes@), 0, Seq::empty()) == Err::<
                Seq<(Seq<char>, TypeModel)>,
                ParseErrorModel,
            >(error@),
        },
{
    let mut found: Vec<(String, Type)> = Vec::new();
    proof {
        assert(parameters_view(found@) =~= Seq::<(Seq<char>, TypeModel)>::empty());
    }
    let mut at: usize = 0;
    while at < nodes.len()
        invariant
            at <= nodes.len(),
            build_parameters(forest_view(nodes@), at as int, parameters_view(found@))
                == build_parameters(forest_view(nodes@), 0, Seq::empty()),
        decreases nodes.len() - at,
    {
        if !(nodes.len() - at >= 2 && nodes[at].rule == Rule::IdentifierDefinition && nodes[at
            + 1].rule == Rule::TypeHint) {
            return Err(ParseError::Malformed);
        }
        let name = nodes[at].text.clone();
        let hint = parse_type_hint(nodes[at + 1].text.as_str());
        proof {
            assert(parameters_view(found@.push((name, hint))) =~= parameters_view(found@).push(
                (name@, hint@),
            ));
        }
        found.push((name, hint));
        at += 2;
    }
    Ok(found)
}

/// Builds the function definition that a `FunctionDefinition` node spells.
fn parse_function(node: &ParseNode, imports: &Vec<SourceFile>, fuel: usize) -> (r: Result<
    Statement,
    ParseError,
>)
    ensures
        statement_result(r) == build_function(node@, imports@, fuel as nat),
    decreases fuel, 1nat, node, 0nat, 3nat,
{
    let children = &node.children;
    let count = children.len();
    let lambda = count > 0 && children[0].rule == Rule::Lambda;
    let name_at: usize = if lambda {
        1
    } else {
        0
    };
    let list = count > name_at + 1 && children[name_at + 1].rule
        == Rule::FunctionArgsDefinitionList;
    let hint_at: usize = if list {
        name_at + 2
    } else {
        name_at + 1
    };
    let hint = count > hint_at && children[hint_at].rule == Rule::TypeHint;
    let block_at: usize = if hint {
        hint_at + 1
    } else {
        hint_at
    };
    if count != block_at + 1 || children[name_at].rule != Rule::IdentifierDefinition
        || children[block_at].rule != Rule::Block {
        return Err(ParseError::Malformed);
    }
    let parameters = if list {
        match parse_parameters(&children[name_at + 1].children) {
            Ok(parameters) => parameters,
            Err(error) => {
                return Err(error);
            },
        }
    } else {
        let none: Vec<(String, Type)> = Vec::new();
        proof {
            assert(parameters_view(none@) =~= Seq::<(Seq<char>, TypeModel)>::empty());
        }
        none
    };
    let return_type_hint = if hint {
        parse_type_hint(children[hint_at].text.as_str())
    } else {
        Type::Void
    };
    match parse_statements(&children[block_at].children, imports, fuel) {
        Ok(body) => Ok(
            Statement::FunctionDefinition {
                lambda,
                identifier: children[name_at].text.clone(),
                parameters,
                return_type_hint,
                body,
            },
        ),
        Err(error) => Err(error),
    }
}

/// Builds the condition and the body that a node with a condition and a
/// block spells.
fn parse_guarded(node: &ParseNode, imports: &Vec<SourceFile>, fuel: usize) -> (r: Result<
    (Expr, Vec<Statement>),
    ParseError,
>)
    ensures
        match r {
            Ok(parts) => build_guarded(node@, imports@, fuel as nat) == Ok::<
                (ExprModel, Seq<StatementModel>),
                ParseErrorModel,
            >((parts.0@, statements_view(parts.1@))),
            Err(error) => build_guarded(node@, imports@, fuel as nat) == Err::<
                (ExprModel, Seq<StatementModel>),
                ParseErrorModel,
            >(error@),
        },
    decreases fuel, 1nat, node, 0nat, 3nat,
{
    let children = &node.children;
    if children.len() != 2 || children[0].rule != Rule::Expr || children[1].rule != Rule::Block {
        return Err(ParseError::Malformed);
    }
    let condition = match parse_inner(&children[0], imports, fuel) {
        Ok(condition) => condition,
        Err(error) => {
            return Err(error);
        },
    };
    match parse_statements(&children[1].children, imports, fuel) {
        Ok(body) => Ok((condition, body)),
        Err(error) => Err(error),
    }
}

/// Builds the `if` statement that an `IfBlock` node spells.
#[verifier::loop_isolation(false)]
fn parse_if(node: &ParseNode, imports: &Vec<SourceFile>, fuel: usize) -> (r: Result<
    Statement,
    ParseError,
>)
    ensures
        statement_result(r) == build_if(node@, imports@, fuel as nat),
    decreases fuel, 1nat, node, 0nat, 4nat,
{
    let children = &node.children;
    let count = children.len();
    if count == 0 || children[0].rule != Rule::IfStatement {
        return Err(ParseError::Malformed);
    }
    let has_else = count > 1 && children[count - 1].rule == Rule::ElseStatement;
    let last: usize = if has_else {
        count - 1
    } else {
        count
    };
    let (condition, body) = match parse_guarded(&children[0], imports, fuel) {
        Ok(head) => head,
        Err(error) => {
            return Err(error);
        },
    };
    let mut else_ifs: Vec<(Expr, Vec<Statement>)> = Vec::new();
    proof {
        assert(branches_view(else_ifs@) =~= Seq::<(ExprModel, Seq<StatementModel>)>::empty());
    }
    let mut at: usize = 1;
    while at < last
        invariant
            1 <= at <= last <= count,
            build_branches(
                forest_view(children@),
                at as int,
                last as int,
                branches_view(else_ifs@),
                imports@,
                fuel as nat,
            ) == build_branches(
                forest_view(children@),
                1,
                last as int,
                Seq::empty(),
                imports@,
                fuel as nat,
            ),
        decreases last - at,
    {
        if children[at].rule != Rule::ElifStatement {
            return Err(ParseError::Malformed);
        }
        match parse_guarded(&children[at], imports, fuel) {
            Ok(branch) => {
                proof {
                    assert(branches_view(else_ifs@.push(branch)) =~= branches_view(else_ifs@).push(
                        (branch.0@, statements_view(branch.1@)),
                    ));
                }
                else_ifs.push(branch);
            },
            Err(error) => {
                return Err(error);
            },
        }
        at += 1;
    }
    let else_body = if has_else {
        let inner = &children[last].children;
        if inner.len() != 1 || inner[0].rule != Rule::Block {
            return Err(ParseError::Malformed);
        }
        match parse_statements(&inner[0].children, imports, fuel) {
            Ok(else_body) => else_body,
            Err(error) => {
                return Err(error);
            },
        }
    } else {
        let none: Vec<Statement> = Vec::new();
        proof {
            assert(statements_view(none@) =~= Seq::<StatementModel>::empty());
        }
        none
    };
    Ok(Statement::IfStatement { condition, body, else_ifs, else_body })
}

/// Builds the loop that a `WhileStatement` node spells.
fn parse_while(node: &ParseNode, imports: &Vec<SourceFile>, fuel: usize) -> (r: Result<
    Statement,
    ParseError,
>)
    ensures
        statement_result(r) == build_while(node@, imports@, fuel as nat),
    decreases fuel, 1nat, node, 0nat, 4nat,
{
    match parse_guarded(node, imports, fuel) {
        Ok((condition, body)) => Ok(Statement::WhileLoop { condition, body }),
        Err(error) => Err(error),
    }
}

/// Builds the loop that a `ForStatement` node spells.
fn parse_for(node: &ParseNode, imports: &Vec<SourceFile>, fuel: usize) -> (r: Result<
    Statement,
    ParseError,
>)
    ensures
        statement_result(r) == build_for(node@, imports@, fuel as nat),
    decreases fuel, 1nat, node, 0nat, 3nat,
{
    let children = &node.children;
    let count = children.len();
    if !(count == 3 || count == 4) || children[0].rule != Rule::Identifier || (count == 4
        && children[1].rule != Rule::TypeHint) || children[count - 2].rule != Rule::Expr
        || children[count - 1].rule != Rule::Block {
        return Err(ParseError::Malformed);
    }
    let expression = match parse_inner(&children[count - 2], imports, fuel) {
        Ok(expression) => expression,
        Err(error) => {
            return Err(error);
        },
    };
    let body = match parse_statements(&children[count - 1].children, imports, fuel) {
        Ok(body) => body,
        Err(error) => {
            return Err(error);
        },
    };
    let identifier_type_hint = if count == 4 {
        Some(parse_type_hint(children[1].text.as_str()))
    } else {
        None
    };
    Ok(
        Statement::ForLoop {
            identifier: children[0].text.clone(),
            identifier_type_hint,
            expression,
            body,
        },
    )
}

/// Builds the foreign module that an `ImportStatement` node spells.
fn parse_import(node: &ParseNode, imports: &Vec<SourceFile>, fuel: usize) -> (r: Result<
    Statement,
    ParseError,
>)
    ensures
        statement_result(r) == build_import(node@, imports@, fuel as nat),
    decreases fuel, 1nat, node, 0nat, 3nat,
{
    let children = &node.children;
    if children.len() != 1 || children[0].rule != Rule::Path {
        return Err(ParseError::Malformed);
    }
    let path = &children[0].text;
    match find_source(imports, path) {
        None => Err(ParseError::ImportUnavailable(path.clone())),
        Some(at) => match parse_source(path.as_str(), imports[at].text.as_str(), imports, fuel) {
            Ok(file) => Ok(Statement::ForeignModule(file)),
            Err(error) => Err(error),
        },
    }
}

} // verus!
