//! The abstract syntax tree of rule expressions.

use vstd::prelude::*;

verus! {

/// The comparison operators of the rule language.
#[derive(Clone, Copy, Debug, PartialEq, Eq, Structural)]
pub enum Comparator {
    Eq,
    Ne,
    Gt,
    Ge,
    Lt,
    Le,
    Contains,
    /// Membership, as in `"a" IN ["a", "b"]`.
    In,
}

/// One node of a parsed expression.
#[derive(Debug, PartialEq, Eq)]
pub enum AstNode {
    Bool(bool),
    String(String),
    /// An integer literal; it is widened to a number when evaluated.
    Number(u64),
    /// A floating-point literal, as the bits of its binary64 value.
    Float(u64),
    Identifier(String),
    Attribute { object: String, field: String },
    Comparison { left: Box<AstNode>, op: Comparator, right: Box<AstNode> },
    And(Vec<AstNode>),
    Or(Vec<AstNode>),
    ListLiteral(Vec<AstNode>),
    MapLiteral(Vec<(String, AstNode)>),
    FunctionCall { namespace: Option<String>, name: String, args: Vec<AstNode> },
}

/// A parsed expression.
pub type Expression = AstNode;

/// The mathematical content of an [`AstNode`].
pub enum Ast {
    Bool(bool),
    String(Seq<char>),
    Number(u64),
    Float(u64),
    Identifier(Seq<char>),
    Attribute { object: Seq<char>, field: Seq<char> },
    Comparison { left: Box<Ast>, op: Comparator, right: Box<Ast> },
    And(Seq<Ast>),
    Or(Seq<Ast>),
    ListLiteral(Seq<Ast>),
    MapLiteral(Seq<(Seq<char>, Ast)>),
    FunctionCall { namespace: Option<Seq<char>>, name: Seq<char>, args: Seq<Ast> },
}

/// The contents of a list of nodes.
pub open spec fn node_views(nodes: Vec<AstNode>) -> Seq<Ast>
    decreases nodes, 0int,
{
    Seq::new(
        nodes.len() as nat,
        |i: int|
            if 0 <= i < nodes.len() {
                node_view(nodes[i])
            } else {
                Ast::Bool(false)
            },
    )
}

/// The contents of the entries of a map literal.
pub open spec fn entry_views(entries: Vec<(String, AstNode)>) -> Seq<(Seq<char>, Ast)>
    decreases entries, 0int,
{
    Seq::new(
        entries.len() as nat,
        |i: int|
            if 0 <= i < entries.len() {
                (entries[i].0@, node_view(entries[i].1))
            } else {
                (Seq::empty(), Ast::Bool(false))
            },
    )
}

/// The contents of a node.
pub open spec fn node_view(node: AstNode) -> Ast
    decreases node, 1int,
{
    match node {
        AstNode::Bool(b) => Ast::Bool(b),
        AstNode::String(s) => Ast::String(s@),
        AstNode::Number(n) => Ast::Number(n),
        AstNode::Float(f) => Ast::Float(f),
        AstNode::Identifier(s) => Ast::Identifier(s@),
        AstNode::Attribute { object, field } => Ast::Attribute { object: object@, field: field@ },
        AstNode::Comparison { left, op, right } => Ast::Comparison {
            left: Box::new(node_view(*left)),
            op,
            right: Box::new(node_view(*right)),
        },
        AstNode::And(nodes) => Ast::And(node_views(nodes)),
        AstNode::Or(nodes) => Ast::Or(node_views(nodes)),
        AstNode::ListLiteral(nodes) => Ast::ListLiteral(node_views(nodes)),
        AstNode::MapLiteral(entries) => Ast::MapLiteral(entry_views(entries)),
        AstNode::FunctionCall { namespace, name, args } => Ast::FunctionCall {
            namespace: match namespace {
                Some(ns) => Some(ns@),
                None => None,
            },
            name: name@,
            args: node_views(args),
        },
    }
}

impl View for AstNode {
    type V = Ast;

    open spec fn view(&self) -> Ast {
        node_view(*self)
    }
}

/// A copy of a list of nodes.
pub fn clone_nodes(nodes: &Vec<AstNode>) -> (r: Vec<AstNode>)
    ensures
        node_views(r) == node_views(*nodes),
    decreases nodes, 0int,
{
    let mut out: Vec<AstNode> = Vec::new();
    let mut i: usize = 0;
    while i < nodes.len()
        invariant
            i <= nodes.len(),
            out.len() == i,
            forall|j: int| 0 <= j < i ==> out[j]@ == nodes[j]@,
        decreases nodes.len() - i,
    {
        let node = &nodes[i];
        assert(decreases_to!(nodes => node));
        out.push(clone_node(node));
        i += 1;
    }
    assert(node_views(out) =~= node_views(*nodes));
    out
}

/// A copy of a node.
pub fn clone_node(node: &AstNode) -> (r: AstNode)
    ensures
        r@ == node@,
    decreases node, 1int,
{
    match node {
        AstNode::Bool(b) => AstNode::Bool(*b),
        AstNode::String(s) => AstNode::String(s.clone()),
        AstNode::Number(n) => AstNode::Number(*n),
        AstNode::Float(f) => AstNode::Float(*f),
        AstNode::Identifier(s) => AstNode::Identifier(s.clone()),
        AstNode::Attribute { object, field } => AstNode::Attribute {
            object: object.clone(),
            field: field.clone(),
        },
        AstNode::Comparison { left, op, right } => AstNode::Comparison {
            left: Box::new(clone_node(left)),
            op: *op,
            right: Box::new(clone_node(right)),
        },
        AstNode::And(nodes) => AstNode::And(clone_nodes(nodes)),
        AstNode::Or(nodes) => AstNode::Or(clone_nodes(nodes)),
        AstNode::ListLiteral(nodes) => AstNode::ListLiteral(clone_nodes(nodes)),
        AstNode::MapLiteral(entries) => {
            let mut out: Vec<(String, AstNode)> = Vec::new();
            let mut i: usize = 0;
            assert(decreases_to!(node => entries));
            while i < entries.len()
                invariant
                    decreases_to!(node => entries),
                    i <= entries.len(),
                    out.len() == i,
                    forall|j: int|
                        0 <= j < i ==> out[j].0@ == entries[j].0@ && out[j].1@ == entries[j].1@,
                decreases entries.len() - i,
            {
                let entry = &entries[i];
                assert(decreases_to!(entries => entry));
                out.push((entry.0.clone(), clone_node(&entry.1)));
                i += 1;
            }
            assert(entry_views(out) =~= entry_views(*entries));
            AstNode::MapLiteral(out)
        },
        AstNode::FunctionCall { namespace, name, args } => AstNode::FunctionCall {
            namespace: match namespace {
                Some(ns) => Some(ns.clone()),
                None => None,
            },
            name: name.clone(),
            args: clone_nodes(args),
        },
    }
}

impl Clone for AstNode {
    fn clone(&self) -> (r: AstNode)
        ensures
            r@ == self@,
    {
        clone_node(self)
    }
}

} // verus!
