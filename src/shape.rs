use vstd::prelude::*;

verus! {

/// Byte width of an integer target; `Size` is the pointer-sized integer.
#[derive(Debug, Clone, Copy, PartialEq, Eq)]
pub enum IntWidth {
    W8,
    W16,
    W32,
    W64,
    Size,
    W128,
}

/// Byte width of a floating-point target.
#[derive(Debug, Clone, Copy, PartialEq, Eq)]
pub enum FloatWidth {
    W32,
    W64,
}

/// A named struct field of a target shape.
#[derive(Debug, PartialEq)]
pub struct Field {
    pub name: String,
    pub has_default: bool,
    pub shape: Shape,
}

/// Descriptor of a target type.
#[derive(Debug, PartialEq)]
pub enum Shape {
    /// A wrapper whose document form is that of its single inner value.
    Transparent(Box<Shape>),
    Struct(Vec<Field>),
    Unsigned(IntWidth),
    Signed(IntWidth),
    Float(FloatWidth),
    Bool,
    Text,
    /// A scalar with its own string-parse hook.
    Parseable,
    List(Box<Shape>),
    Slice(Box<Shape>),
    /// A string-keyed map with values of the given shape.
    Dict(Box<Shape>),
    Optional(Box<Shape>),
    Pointer(Box<Shape>),
    /// A category without a translation; carries the type's name.
    Unsupported(String),
}

} // verus!
