use vstd::prelude::*;
use crate::shape::{FloatWidth, IntWidth};

verus! {

/// The number a floating-point target is to be built from.
#[derive(Debug, PartialEq)]
pub enum FloatSource {
    /// Decimal text, parsed when the value is built.
    Text(String),
    Integer(i64),
}

/// A translated value, ready to be built into the target type.
#[derive(Debug, PartialEq)]
pub enum Value {
    U8(u8),
    U16(u16),
    U32(u32),
    U64(u64),
    Usize(usize),
    U128(u128),
    I8(i8),
    I16(i16),
    I32(i32),
    I64(i64),
    Isize(isize),
    I128(i128),
    Float(FloatWidth, FloatSource),
    Bool(bool),
    Text(String),
    /// Text for the target's own string-parse hook.
    Parsed(String),
    List(Vec<Value>),
    Dict(Vec<(String, Value)>),
    Optional(Option<Box<Value>>),
    Pointer(Box<Value>),
    Wrapped(Box<Value>),
    /// One slot per field in declaration order; `None` means the field's default.
    Record(Vec<Option<Value>>),
}

/// Mathematical model of a `Value`.
pub enum Tree {
    Uint(IntWidth, int),
    Int(IntWidth, int),
    FloatText(FloatWidth, Seq<char>),
    FloatInt(FloatWidth, i64),
    Bool(bool),
    Text(Seq<char>),
    Parsed(Seq<char>),
    List(Seq<Tree>),
    Dict(Seq<(Seq<char>, Tree)>),
    Absent,
    Present(Box<Tree>),
    Pointer(Box<Tree>),
    Wrapped(Box<Tree>),
    Record(Seq<Option<Tree>>),
}

pub open spec fn tree_of(v: Value) -> Tree
    decreases v,
{
    match v {
        Value::U8(x) => Tree::Uint(IntWidth::W8, x as int),
        Value::U16(x) => Tree::Uint(IntWidth::W16, x as int),
        Value::U32(x) => Tree::Uint(IntWidth::W32, x as int),
        Value::U64(x) => Tree::Uint(IntWidth::W64, x as int),
        Value::Usize(x) => Tree::Uint(IntWidth::Size, x as int),
        Value::U128(x) => Tree::Uint(IntWidth::W128, x as int),
        Value::I8(x) => Tree::Int(IntWidth::W8, x as int),
        Value::I16(x) => Tree::Int(IntWidth::W16, x as int),
        Value::I32(x) => Tree::Int(IntWidth::W32, x as int),
        Value::I64(x) => Tree::Int(IntWidth::W64, x as int),
        Value::Isize(x) => Tree::Int(IntWidth::Size, x as int),
        Value::I128(x) => Tree::Int(IntWidth::W128, x as int),
        Value::Float(w, FloatSource::Text(t)) => Tree::FloatText(w, t@),
        Value::Float(w, FloatSource::Integer(i)) => Tree::FloatInt(w, i),
        Value::Bool(b) => Tree::Bool(b),
        Value::Text(s) => Tree::Text(s@),
        Value::Parsed(s) => Tree::Parsed(s@),
        Value::List(items) => Tree::List(trees_of(items@)),
        Value::Dict(entries) => Tree::Dict(entries_of(entries@)),
        Value::Optional(None) => Tree::Absent,
        Value::Optional(Some(b)) => Tree::Present(Box::new(tree_of(*b))),
        Value::Pointer(b) => Tree::Pointer(Box::new(tree_of(*b))),
        Value::Wrapped(b) => Tree::Wrapped(Box::new(tree_of(*b))),
        Value::Record(slots) => Tree::Record(slots_of(slots@)),
    }
}

pub open spec fn trees_of(vs: Seq<Value>) -> Seq<Tree>
    decreases vs,
{
    if vs.len() == 0 {
        Seq::empty()
    } else {
        trees_of(vs.subrange(0, vs.len() - 1)).push(tree_of(vs[vs.len() - 1]))
    }
}

pub open spec fn entries_of(es: Seq<(String, Value)>) -> Seq<(Seq<char>, Tree)>
    decreases es,
{
    if es.len() == 0 {
        Seq::empty()
    } else {
        entries_of(es.subrange(0, es.len() - 1)).push(
            (es[es.len() - 1].0@, tree_of(es[es.len() - 1].1)),
        )
    }
}

pub open spec fn slots_of(ss: Seq<Option<Value>>) -> Seq<Option<Tree>>
    decreases ss,
{
    if ss.len() == 0 {
        Seq::empty()
    } else {
        let last = ss[ss.len() - 1];
        slots_of(ss.subrange(0, ss.len() - 1)).push(
            match last {
                Some(v) => Some(tree_of(v)),
                None => None,
            },
        )
    }
}

pub open spec fn outcome<E>(r: Result<Value, E>) -> Result<Tree, E> {
    match r {
        Ok(v) => Ok(tree_of(v)),
        Err(e) => Err(e),
    }
}

pub open spec fn slot_tree(s: Option<Value>) -> Option<Tree> {
    match s {
        Some(v) => Some(tree_of(v)),
        None => None,
    }
}

pub proof fn lemma_slots_of(ss: Seq<Option<Value>>)
    ensures
        slots_of(ss).len() == ss.len(),
        forall|i: int| 0 <= i < ss.len() ==> #[trigger] slots_of(ss)[i] == slot_tree(ss[i]),
    decreases ss.len(),
{
    if ss.len() > 0 {
        lemma_slots_of(ss.subrange(0, ss.len() - 1));
    }
}

} // verus!
