use vstd::prelude::*;

verus! {

/// One parsed unit of a YAML document.
#[derive(Debug, PartialEq)]
pub enum Node {
    Null,
    Boolean(bool),
    Integer(i64),
    /// A floating-point scalar, kept as its source text.
    Real(String),
    Str(String),
    Sequence(Vec<Node>),
    /// Key/value pairs in source order.
    Mapping(Vec<(Node, Node)>),
    Alias(usize),
    Malformed,
}

/// The category of a `Node`, used in diagnostics.
#[derive(Debug, Clone, Copy, PartialEq, Eq)]
pub enum NodeKind {
    Null,
    Boolean,
    Integer,
    Real,
    Str,
    Sequence,
    Mapping,
    Alias,
    Malformed,
}

pub open spec fn kind_of(n: Node) -> NodeKind {
    match n {
        Node::Null => NodeKind::Null,
        Node::Boolean(_) => NodeKind::Boolean,
        Node::Integer(_) => NodeKind::Integer,
        Node::Real(_) => NodeKind::Real,
        Node::Str(_) => NodeKind::Str,
        Node::Sequence(_) => NodeKind::Sequence,
        Node::Mapping(_) => NodeKind::Mapping,
        Node::Alias(_) => NodeKind::Alias,
        Node::Malformed => NodeKind::Malformed,
    }
}

/// Classifies a node.
pub fn node_kind(n: &Node) -> (k: NodeKind)
    ensures
        k == kind_of(*n),
{
    match n {
        Node::Null => NodeKind::Null,
        Node::Boolean(_) => NodeKind::Boolean,
        Node::Integer(_) => NodeKind::Integer,
        Node::Real(_) => NodeKind::Real,
        Node::Str(_) => NodeKind::Str,
        Node::Sequence(_) => NodeKind::Sequence,
        Node::Mapping(_) => NodeKind::Mapping,
        Node::Alias(_) => NodeKind::Alias,
        Node::Malformed => NodeKind::Malformed,
    }
}

pub open spec fn kind_label(k: NodeKind) -> Seq<char> {
    match k {
        NodeKind::Null => "null"@,
        NodeKind::Boolean => "boolean"@,
        NodeKind::Integer => "integer"@,
        NodeKind::Real => "real number"@,
        NodeKind::Str => "string"@,
        NodeKind::Sequence => "array"@,
        NodeKind::Mapping => "hash/map"@,
        NodeKind::Alias => "alias"@,
        NodeKind::Malformed => "bad value"@,
    }
}

impl NodeKind {
    /// A human-readable name of the kind.
    pub fn label(&self) -> (r: &'static str)
        ensures
            r@ == kind_label(*self),
    {
        match self {
            NodeKind::Null => "null",
            NodeKind::Boolean => "boolean",
            NodeKind::Integer => "integer",
            NodeKind::Real => "real number",
            NodeKind::Str => "string",
            NodeKind::Sequence => "array",
            NodeKind::Mapping => "hash/map",
            NodeKind::Alias => "alias",
            NodeKind::Malformed => "bad value",
        }
    }
}

} // verus!
