//! The abstract syntax tree of a parsed template, and its mathematical model.
//!
//! `AstNode` is what the parser builds and the renderer walks; `Node` is the
//! same tree with every string replaced by its character sequence, which is
//! what the contracts speak of.
use vstd::prelude::*;

verus! {

/// A node of a parsed template.
#[derive(Debug, PartialEq)]
pub enum AstNode {
    /// A sequence of nodes: a whole template, or an else branch.
    Root(Vec<AstNode>),
    /// Literal text, with escapes already processed.
    Constant { data: String },
    /// A `{{ name }}` substitution.
    Variable { name: String },
    /// A `{{% for variable in iterable %}}` loop.
    For { iterable: String, variable: String, body: Vec<AstNode> },
    /// An `{{% if %}}` block; `else_branch` is a `Root` holding the else body or a
    /// nested `If` for `else if`.
    If { condition: Box<AstNode>, body: Vec<AstNode>, else_branch: Option<Box<AstNode>> },
    /// Negation inside a condition.
    Not { condition: Box<AstNode> },
    /// Conjunction inside a condition.
    And { left: Box<AstNode>, right: Box<AstNode> },
    /// Disjunction inside a condition.
    Or { left: Box<AstNode>, right: Box<AstNode> },
    /// A `{{<< name }}` inclusion of another template.
    TemplateInclude { template_name: String },
}

/// The model of an `AstNode`: the same tree over character sequences.
pub enum Node {
    Root(Seq<Node>),
    Constant(Seq<char>),
    Variable(Seq<char>),
    For { iterable: Seq<char>, variable: Seq<char>, body: Seq<Node> },
    If { condition: Box<Node>, body: Seq<Node>, else_branch: Option<Box<Node>> },
    Not(Box<Node>),
    And(Box<Node>, Box<Node>),
    Or(Box<Node>, Box<Node>),
    TemplateInclude(Seq<char>),
}

impl AstNode {
    /// The model of this node.
    pub open spec fn model(&self) -> Node
        decreases self,
    {
        match self {
            AstNode::Root(children) => Node::Root(models(children@)),
            AstNode::Constant { data } => Node::Constant(data@),
            AstNode::Variable { name } => Node::Variable(name@),
            AstNode::For { iterable, variable, body } => Node::For {
                iterable: iterable@,
                variable: variable@,
                body: models(body@),
            },
            AstNode::If { condition, body, else_branch } => Node::If {
                condition: Box::new(condition.model()),
                body: models(body@),
                else_branch: match else_branch {
                    Some(e) => Some(Box::new(e.model())),
                    None => None,
                },
            },
            AstNode::Not { condition } => Node::Not(Box::new(condition.model())),
            AstNode::And { left, right } => Node::And(Box::new(left.model()), Box::new(right.model())),
            AstNode::Or { left, right } => Node::Or(Box::new(left.model()), Box::new(right.model())),
            AstNode::TemplateInclude { template_name } => Node::TemplateInclude(template_name@),
        }
    }
}

/// The models of a sequence of nodes.
pub open spec fn models(s: Seq<AstNode>) -> Seq<Node>
    decreases s,
{
    if s.len() == 0 {
        Seq::empty()
    } else {
        seq![s[0].model()] + models(s.subrange(1, s.len() as int))
    }
}

/// `models` maps each element.
pub proof fn lemma_models(s: Seq<AstNode>)
    ensures
        models(s).len() == s.len(),
        forall|i: int| 0 <= i < s.len() ==> #[trigger] models(s)[i] == s[i].model(),
    decreases s.len(),
{
    if s.len() > 0 {
        lemma_models(s.subrange(1, s.len() as int));
        assert forall|i: int| 0 <= i < s.len() implies #[trigger] models(s)[i] == s[i].model() by {
            if i > 0 {
                assert(s.subrange(1, s.len() as int)[i - 1] == s[i]);
            }
        }
    }
}

/// Appending a node appends its model.
pub proof fn lemma_models_push(s: Seq<AstNode>, n: AstNode)
    ensures
        models(s.push(n)) == models(s).push(n.model()),
{
    lemma_models(s);
    lemma_models(s.push(n));
    assert(models(s.push(n)) =~= models(s).push(n.model()));
}

} // verus!
