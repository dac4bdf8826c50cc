use vstd::prelude::*;
use crate::node::NodeKind;
use crate::shape::IntWidth;

verus! {

/// What a translation step required of a source node.
#[derive(Debug, Clone, Copy, PartialEq, Eq)]
pub enum Expected {
    Mapping,
    StringKey,
    Sequence,
    Text,
    UnsignedInt,
    SignedInt,
    Float,
    Boolean,
}

/// Why the document text could not be turned into one root node.
#[derive(Debug, PartialEq)]
pub enum FormatProblem {
    /// The parser rejected the text; carries its message.
    Syntax(String),
    /// The text held this many documents instead of one.
    DocumentCount(usize),
}

/// The first failure of a translation.
#[derive(Debug, PartialEq)]
pub enum DeError {
    Format(FormatProblem),
    Mismatch { expected: Expected, found: NodeKind },
    UnknownField(String),
    Unparseable { text: String, target: Expected },
    OutOfRange { value: i128, width: IntWidth, signed: bool },
    Unsupported(String),
    MissingField(String),
}

} // verus!
