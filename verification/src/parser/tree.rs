//! The concrete parse tree: what the grammar yields before the syntax tree
//! is built from it.
use vstd::prelude::*;

verus! {

/// The rules of the grammar. Every node of a parse tree carries the rule
/// that produced it.
#[derive(Debug, Clone, Copy, PartialEq, Eq, PartialOrd, Ord, Hash, Structural)]
pub enum Rule {
    File,
    Statement,
    Comment,
    ImportStatement,
    Path,
    FunctionDefinition,
    Lambda,
    IdentifierDefinition,
    FunctionArgsDefinitionList,
    TypeHint,
    Block,
    IfBlock,
    IfStatement,
    ElifStatement,
    ElseStatement,
    WhileStatement,
    ForStatement,
    ReturnStatement,
    Assignment,
    AssSet,
    AssAdd,
    AssSub,
    AssMul,
    AssDiv,
    AssPow,
    Expr,
    ArrayIndexing,
    FunctionCall,
    FunctionArgsList,
    Array,
    Identifier,
    Number,
    Boolean,
    Character,
    Nothing,
    UnaryMinus,
    Add,
    Sub,
    Mul,
    Div,
    Mod,
    Pow,
    Range,
    Lt,
    Gt,
    Lte,
    Gte,
    Equal,
    NotEqual,
}

/// One node of a parse tree: the rule that matched, the text it matched, and
/// the nodes of the rules that matched inside it, in source order.
#[derive(Debug, PartialEq)]
pub struct ParseNode {
    pub rule: Rule,
    pub text: String,
    pub children: Vec<ParseNode>,
}

/// The mathematical model of a [`ParseNode`].
pub struct ParseTree {
    pub rule: Rule,
    pub text: Seq<char>,
    pub children: Seq<ParseTree>,
}

/// The models of a sequence of nodes, one for one.
pub open spec fn forest_view(nodes: Seq<ParseNode>) -> Seq<ParseTree>
    decreases nodes, 0nat,
{
    Seq::new(
        nodes.len(),
        |i: int|
            if 0 <= i < nodes.len() {
                nodes[i].view()
            } else {
                arbitrary()
            },
    )
}

impl ParseNode {
    pub open spec fn view(&self) -> ParseTree
        decreases self, 1nat,
    {
        ParseTree { rule: self.rule, text: self.text@, children: forest_view(self.children@) }
    }
}

/// The model of a sequence of nodes is as long as the sequence.
pub broadcast proof fn lemma_forest_len(nodes: Seq<ParseNode>)
    ensures
        #[trigger] forest_view(nodes).len() == nodes.len(),
{
}

/// The model of a sequence of nodes holds the models of the nodes.
pub broadcast proof fn lemma_forest_index(nodes: Seq<ParseNode>, i: int)
    requires
        0 <= i < nodes.len(),
    ensures
        #[trigger] forest_view(nodes)[i] == nodes[i]@,
        forest_view(nodes)[i].rule == nodes[i].rule,
        forest_view(nodes)[i].text == nodes[i].text@,
        forest_view(nodes)[i].children == forest_view(nodes[i].children@),
{
}

/// The model of a node holds the node's rule and text and the models of its
/// children.
pub broadcast proof fn lemma_node_view(node: ParseNode)
    ensures
        (#[trigger] node.view()).children == forest_view(node.children@),
        node.view().rule == node.rule,
        node.view().text == node.text@,
{
}

pub broadcast group group_forest {
    lemma_node_view,
    lemma_forest_len,
    lemma_forest_index,
}

/// The model of a concatenation is the concatenation of the models.
pub proof fn lemma_forest_concat(a: Seq<ParseNode>, b: Seq<ParseNode>)
    ensures
        forest_view(a + b) == forest_view(a) + forest_view(b),
{
    assert(forest_view(a + b) =~= forest_view(a) + forest_view(b));
}

} // verus!
