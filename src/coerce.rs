use vstd::prelude::*;
use vstd::string::*;
use crate::error::{DeError, Expected};
use crate::node::{Node, kind_of};
use crate::shape::{FloatWidth, IntWidth};
use crate::value::{FloatSource, Tree, Value, tree_of, outcome};

verus! {

pub open spec fn is_digit(c: char) -> bool {
    '0' <= c && c <= '9'
}

pub open spec fn all_digits(s: Seq<char>) -> bool {
    forall|i: int| 0 <= i < s.len() ==> is_digit(#[trigger] s[i])
}

/// The number written by a string of decimal digits.
pub open spec fn decimal_value(s: Seq<char>) -> int
    decreases s.len(),
{
    if s.len() == 0 {
        0
    } else {
        decimal_value(s.drop_last()) * 10 + (s.last() as int - '0' as int)
    }
}

pub open spec fn plain_digits(s: Seq<char>) -> bool {
    s.len() > 0 && all_digits(s)
}

/// What `u64`'s `FromStr` accepts: an optional `+`, then decimal digits, within range.
pub open spec fn decimal_u64(s: Seq<char>) -> Option<u64> {
    let d = if s.len() > 0 && s[0] == '+' { s.drop_first() } else { s };
    if plain_digits(d) && decimal_value(d) <= u64::MAX {
        Some(decimal_value(d) as u64)
    } else {
        None
    }
}

/// What `i64`'s `FromStr` accepts: an optional sign, then decimal digits, within range.
pub open spec fn decimal_i64(s: Seq<char>) -> Option<i64> {
    if s.len() > 0 && s[0] == '-' {
        let d = s.drop_first();
        if plain_digits(d) && -decimal_value(d) >= i64::MIN {
            Some((-decimal_value(d)) as i64)
        } else {
            None
        }
    } else {
        let d = if s.len() > 0 && s[0] == '+' { s.drop_first() } else { s };
        if plain_digits(d) && decimal_value(d) <= i64::MAX {
            Some(decimal_value(d) as i64)
        } else {
            None
        }
    }
}

proof fn lemma_decimal_grows(s: Seq<char>, i: int)
    requires
        all_digits(s),
        0 <= i <= s.len(),
    ensures
        decimal_value(s) >= decimal_value(s.subrange(0, i)),
        decimal_value(s.subrange(0, i)) >= 0,
    decreases s.len(),
{
    if i == s.len() {
        assert(s.subrange(0, i) =~= s);
        if s.len() > 0 {
            lemma_decimal_grows(s.drop_last(), i - 1);
        }
    } else {
        let t = s.drop_last();
        assert(is_digit(s[s.len() - 1]));
        assert(all_digits(t)) by {
            assert forall|k: int| 0 <= k < t.len() implies is_digit(#[trigger] t[k]) by {
                assert(t[k] == s[k]);
            }
        }
        lemma_decimal_grows(t, i);
        lemma_decimal_grows(t, t.len() as int);
        assert(t.subrange(0, t.len() as int) =~= t);
        assert(t.subrange(0, i) =~= s.subrange(0, i));
    }
}

/// The value of the decimal digits of `s` from `start` on, where they fit within `limit`.
fn decimal_digits(s: &str, start: usize, limit: u64) -> (r: Option<u64>)
    requires
        start <= s@.len(),
    ensures
        ({
            let d = s@.subrange(start as int, s@.len() as int);
            r == if plain_digits(d) && decimal_value(d) <= limit {
                Some(decimal_value(d) as u64)
            } else {
                None
            }
        }),
        r matches Some(v) ==> v <= limit && v as int == decimal_value(
            s@.subrange(start as int, s@.len() as int),
        ),
{
    let n = s.unicode_len();
    let ghost full = s@.subrange(start as int, n as int);
    if start >= n {
        return None;
    }
    let mut acc: u64 = 0;
    let mut i: usize = start;
    assert(s@.subrange(start as int, i as int) =~= Seq::<char>::empty());
    while i < n
        invariant
            n == s@.len(),
            start < n,
            start <= i <= n,
            full == s@.subrange(start as int, n as int),
            all_digits(s@.subrange(start as int, i as int)),
            acc as int == decimal_value(s@.subrange(start as int, i as int)),
            acc <= limit,
        decreases n - i,
    {
        let c = s.get_char(i);
        let ghost next = s@.subrange(start as int, i + 1);
        assert(full[i - start] == c);
        if !('0' <= c && c <= '9') {
            return None;
        }
        let d: u64 = ((c as u32) - ('0' as u32)) as u64;
        assert(next.drop_last() =~= s@.subrange(start as int, i as int));
        assert(next.last() == c);
        assert(all_digits(next)) by {
            assert forall|k: int| 0 <= k < next.len() implies is_digit(#[trigger] next[k]) by {
                if k < next.len() - 1 {
                    assert(next[k] == s@.subrange(start as int, i as int)[k]);
                }
            }
        }
        assert(d <= 9);
        if d > limit || acc > (limit - d) / 10 {
            proof {
                if d <= limit {
                    assert(acc * 10 + d > limit) by (nonlinear_arith)
                        requires
                            acc > (limit - d) / 10,
                            d <= limit,
                    ;
                }
                if all_digits(full) {
                    assert(full.subrange(0, i + 1 - start) =~= next);
                    lemma_decimal_grows(full, i + 1 - start);
                }
            }
            return None;
        }
        proof {
            assert(acc * 10 + d <= limit) by (nonlinear_arith)
                requires
                    acc <= (limit - d) / 10,
                    d <= 9,
            ;
        }
        acc = acc * 10 + d;
        i = i + 1;
    }
    assert(s@.subrange(start as int, i as int) =~= full);
    Some(acc)
}

/// What `u64`'s `FromStr` does: an optional `+` and decimal digits whose value fits.
fn parse_u64(s: &str) -> (r: Option<u64>)
    ensures
        r == decimal_u64(s@),
{
    let n = s.unicode_len();
    let start: usize = if n > 0 && s.get_char(0) == '+' { 1 } else { 0 };
    assert(s@.drop_first() =~= s@.subrange(1, s@.len() as int));
    assert(s@ =~= s@.subrange(0, s@.len() as int));
    decimal_digits(s, start, u64::MAX)
}

/// What `i64`'s `FromStr` does: an optional sign and decimal digits whose value fits.
fn parse_i64(s: &str) -> (r: Option<i64>)
    ensures
        r == decimal_i64(s@),
{
    let n = s.unicode_len();
    assert(s@.drop_first() =~= s@.subrange(1, s@.len() as int));
    assert(s@ =~= s@.subrange(0, s@.len() as int));
    if n > 0 && s.get_char(0) == '-' {
        match decimal_digits(s, 1, 9223372036854775808u64) {
            Some(v) => if v == 9223372036854775808u64 {
                Some(i64::MIN)
            } else {
                Some(-(v as i64))
            },
            None => None,
        }
    } else {
        let start: usize = if n > 0 && s.get_char(0) == '+' { 1 } else { 0 };
        match decimal_digits(s, start, i64::MAX as u64) {
            Some(v) => Some(v as i64),
            None => None,
        }
    }
}

/// The unsigned 64-bit staging value of a node.
pub open spec fn staged_unsigned(n: Node) -> Result<u64, DeError> {
    match n {
        Node::Real(t) => match decimal_u64(t@) {
            Some(v) => Ok(v),
            None => Err(DeError::Unparseable { text: t, target: Expected::UnsignedInt }),
        },
        Node::Integer(i) => Ok(i as u64),
        Node::Str(t) => match decimal_u64(t@) {
            Some(v) => Ok(v),
            None => Err(DeError::Unparseable { text: t, target: Expected::UnsignedInt }),
        },
        Node::Boolean(b) => Ok(if b { 1u64 } else { 0u64 }),
        _ => Err(DeError::Mismatch { expected: Expected::UnsignedInt, found: kind_of(n) }),
    }
}

/// The signed 64-bit staging value of a node.
pub open spec fn staged_signed(n: Node) -> Result<i64, DeError> {
    match n {
        Node::Integer(i) => Ok(i),
        Node::Real(t) => match decimal_i64(t@) {
            Some(v) => Ok(v),
            None => Err(DeError::Unparseable { text: t, target: Expected::SignedInt }),
        },
        Node::Str(t) => match decimal_i64(t@) {
            Some(v) => Ok(v),
            None => Err(DeError::Unparseable { text: t, target: Expected::SignedInt }),
        },
        Node::Boolean(b) => Ok(if b { 1i64 } else { 0i64 }),
        _ => Err(DeError::Mismatch { expected: Expected::SignedInt, found: kind_of(n) }),
    }
}

pub open spec fn max_unsigned(w: IntWidth) -> int {
    match w {
        IntWidth::W8 => u8::MAX as int,
        IntWidth::W16 => u16::MAX as int,
        IntWidth::W32 => u32::MAX as int,
        IntWidth::W64 => u64::MAX as int,
        IntWidth::Size => usize::MAX as int,
        IntWidth::W128 => u128::MAX as int,
    }
}

pub open spec fn min_signed(w: IntWidth) -> int {
    match w {
        IntWidth::W8 => i8::MIN as int,
        IntWidth::W16 => i16::MIN as int,
        IntWidth::W32 => i32::MIN as int,
        IntWidth::W64 => i64::MIN as int,
        IntWidth::Size => isize::MIN as int,
        IntWidth::W128 => i128::MIN as int,
    }
}

pub open spec fn max_signed(w: IntWidth) -> int {
    match w {
        IntWidth::W8 => i8::MAX as int,
        IntWidth::W16 => i16::MAX as int,
        IntWidth::W32 => i32::MAX as int,
        IntWidth::W64 => i64::MAX as int,
        IntWidth::Size => isize::MAX as int,
        IntWidth::W128 => i128::MAX as int,
    }
}

pub open spec fn narrowed_unsigned(w: IntWidth, u: u64) -> Result<Tree, DeError> {
    if u as int <= max_unsigned(w) {
        Ok(Tree::Uint(w, u as int))
    } else {
        Err(DeError::OutOfRange { value: u as i128, width: w, signed: false })
    }
}

pub open spec fn narrowed_signed(w: IntWidth, i: i64) -> Result<Tree, DeError> {
    if min_signed(w) <= i as int && i as int <= max_signed(w) {
        Ok(Tree::Int(w, i as int))
    } else {
        Err(DeError::OutOfRange { value: i as i128, width: w, signed: true })
    }
}

pub open spec fn unsigned_outcome(w: IntWidth, n: Node) -> Result<Tree, DeError> {
    match staged_unsigned(n) {
        Ok(u) => narrowed_unsigned(w, u),
        Err(e) => Err(e),
    }
}

pub open spec fn signed_outcome(w: IntWidth, n: Node) -> Result<Tree, DeError> {
    match staged_signed(n) {
        Ok(i) => narrowed_signed(w, i),
        Err(e) => Err(e),
    }
}

pub open spec fn float_outcome(w: FloatWidth, n: Node) -> Result<Tree, DeError> {
    match n {
        Node::Real(t) => Ok(Tree::FloatText(w, t@)),
        Node::Integer(i) => Ok(Tree::FloatInt(w, i)),
        Node::Str(t) => Ok(Tree::FloatText(w, t@)),
        _ => Err(DeError::Mismatch { expected: Expected::Float, found: kind_of(n) }),
    }
}

/// `c` equals the lowercase ASCII character `w` up to ASCII case.
pub open spec fn same_folded(c: char, w: char) -> bool {
    c == w || ('A' <= c && c <= 'Z' && c as u32 + 32 == w as u32)
}

/// `s` spells the lowercase ASCII word `w`, ignoring case.
pub open spec fn folds_to(s: Seq<char>, w: Seq<char>) -> bool {
    s.len() == w.len() && forall|i: int| 0 <= i < s.len() ==> same_folded(#[trigger] s[i], w[i])
}

/// The strings that read as boolean true: `true`, `yes` and `1`, in any letter case.
pub open spec fn truthy(s: Seq<char>) -> bool {
    folds_to(s, "true"@) || folds_to(s, "yes"@) || folds_to(s, "1"@)
}

pub open spec fn bool_outcome(n: Node) -> Result<Tree, DeError> {
    match n {
        Node::Boolean(b) => Ok(Tree::Bool(b)),
        Node::Integer(i) => Ok(Tree::Bool(i != 0)),
        Node::Str(s) => Ok(Tree::Bool(truthy(s@))),
        _ => Err(DeError::Mismatch { expected: Expected::Boolean, found: kind_of(n) }),
    }
}

pub open spec fn text_outcome(n: Node) -> Result<Tree, DeError> {
    match n {
        Node::Str(s) => Ok(Tree::Text(s@)),
        _ => Err(DeError::Mismatch { expected: Expected::Text, found: kind_of(n) }),
    }
}

pub open spec fn parseable_outcome(n: Node) -> Result<Tree, DeError> {
    match n {
        Node::Str(s) => Ok(Tree::Parsed(s@)),
        _ => Err(DeError::Mismatch { expected: Expected::Text, found: kind_of(n) }),
    }
}

/// Reads a node as the unsigned 64-bit value that is then narrowed.
pub fn stage_unsigned(n: &Node) -> (r: Result<u64, DeError>)
    ensures
        r == staged_unsigned(*n),
{
    match n {
        Node::Real(t) | Node::Str(t) => match parse_u64(t.as_str()) {
            Some(v) => Ok(v),
            None => Err(DeError::Unparseable { text: t.clone(), target: Expected::UnsignedInt }),
        },
        Node::Integer(i) => Ok(*i as u64),
        Node::Boolean(b) => Ok(if *b { 1u64 } else { 0u64 }),
        _ => Err(DeError::Mismatch { expected: Expected::UnsignedInt, found: crate::node::node_kind(n) }),
    }
}

/// Reads a node as the signed 64-bit value that is then narrowed.
pub fn stage_signed(n: &Node) -> (r: Result<i64, DeError>)
    ensures
        r == staged_signed(*n),
{
    match n {
        Node::Integer(i) => Ok(*i),
        Node::Real(t) | Node::Str(t) => match parse_i64(t.as_str()) {
            Some(v) => Ok(v),
            None => Err(DeError::Unparseable { text: t.clone(), target: Expected::SignedInt }),
        },
        Node::Boolean(b) => Ok(if *b { 1i64 } else { 0i64 }),
        _ => Err(DeError::Mismatch { expected: Expected::SignedInt, found: crate::node::node_kind(n) }),
    }
}

/// Range-checks a staged unsigned value against the target width.
pub fn narrow_unsigned(w: IntWidth, u: u64) -> (r: Result<Value, DeError>)
    ensures
        outcome(r) == narrowed_unsigned(w, u),
{
    let fits = match w {
        IntWidth::W8 => u <= u8::MAX as u64,
        IntWidth::W16 => u <= u16::MAX as u64,
        IntWidth::W32 => u <= u32::MAX as u64,
        IntWidth::Size => (u as u128) <= (usize::MAX as u128),
        _ => true,
    };
    if !fits {
        return Err(DeError::OutOfRange { value: u as i128, width: w, signed: false });
    }
    match w {
        IntWidth::W8 => Ok(Value::U8(u as u8)),
        IntWidth::W16 => Ok(Value::U16(u as u16)),
        IntWidth::W32 => Ok(Value::U32(u as u32)),
        IntWidth::W64 => Ok(Value::U64(u)),
        IntWidth::Size => Ok(Value::Usize(u as usize)),
        IntWidth::W128 => Ok(Value::U128(u as u128)),
    }
}

/// Range-checks a staged signed value against the target width.
pub fn narrow_signed(w: IntWidth, i: i64) -> (r: Result<Value, DeError>)
    ensures
        outcome(r) == narrowed_signed(w, i),
{
    let fits = match w {
        IntWidth::W8 => i8::MIN as i64 <= i && i <= i8::MAX as i64,
        IntWidth::W16 => i16::MIN as i64 <= i && i <= i16::MAX as i64,
        IntWidth::W32 => i32::MIN as i64 <= i && i <= i32::MAX as i64,
        IntWidth::Size => isize::MIN as i128 <= i as i128 && i as i128 <= isize::MAX as i128,
        _ => true,
    };
    if !fits {
        return Err(DeError::OutOfRange { value: i as i128, width: w, signed: true });
    }
    match w {
        IntWidth::W8 => Ok(Value::I8(i as i8)),
        IntWidth::W16 => Ok(Value::I16(i as i16)),
        IntWidth::W32 => Ok(Value::I32(i as i32)),
        IntWidth::W64 => Ok(Value::I64(i)),
        IntWidth::Size => Ok(Value::Isize(i as isize)),
        IntWidth::W128 => Ok(Value::I128(i as i128)),
    }
}

/// Coerces a node to an unsigned integer of the given width.
pub fn coerce_unsigned(w: IntWidth, n: &Node) -> (r: Result<Value, DeError>)
    ensures
        outcome(r) == unsigned_outcome(w, *n),
{
    match stage_unsigned(n) {
        Ok(u) => narrow_unsigned(w, u),
        Err(e) => Err(e),
    }
}

/// Coerces a node to a signed integer of the given width.
pub fn coerce_signed(w: IntWidth, n: &Node) -> (r: Result<Value, DeError>)
    ensures
        outcome(r) == signed_outcome(w, *n),
{
    match stage_signed(n) {
        Ok(i) => narrow_signed(w, i),
        Err(e) => Err(e),
    }
}

/// Selects the number a floating-point target is built from.
pub fn coerce_float(w: FloatWidth, n: &Node) -> (r: Result<Value, DeError>)
    ensures
        outcome(r) == float_outcome(w, *n),
{
    match n {
        Node::Real(t) | Node::Str(t) => Ok(Value::Float(w, FloatSource::Text(t.clone()))),
        Node::Integer(i) => Ok(Value::Float(w, FloatSource::Integer(*i))),
        _ => Err(DeError::Mismatch { expected: Expected::Float, found: crate::node::node_kind(n) }),
    }
}

/// Whether `s` spells the lowercase ASCII word `w` in any letter case.
fn spells_folded(s: &str, w: &str) -> (r: bool)
    ensures
        r == folds_to(s@, w@),
{
    let n = s.unicode_len();
    if n != w.unicode_len() {
        return false;
    }
    let mut i: usize = 0;
    while i < n
        invariant
            n == s@.len(),
            n == w@.len(),
            i <= n,
            forall|j: int| 0 <= j < i ==> same_folded(#[trigger] s@[j], w@[j]),
        decreases n - i,
    {
        let c = s.get_char(i);
        let d = w.get_char(i);
        let same = c == d || ('A' <= c && c <= 'Z' && (c as u32) + 32 == d as u32);
        if !same {
            return false;
        }
        i = i + 1;
    }
    true
}

/// Whether a string reads as boolean true.
pub fn is_truthy(s: &str) -> (r: bool)
    ensures
        r == truthy(s@),
{
    proof {
        reveal_strlit("true");
        reveal_strlit("yes");
        reveal_strlit("1");
    }
    spells_folded(s, "true") || spells_folded(s, "yes") || spells_folded(s, "1")
}

/// Coerces a node to a boolean.
pub fn coerce_bool(n: &Node) -> (r: Result<Value, DeError>)
    ensures
        outcome(r) == bool_outcome(*n),
{
    match n {
        Node::Boolean(b) => Ok(Value::Bool(*b)),
        Node::Integer(i) => Ok(Value::Bool(*i != 0)),
        Node::Str(s) => Ok(Value::Bool(is_truthy(s.as_str()))),
        _ => Err(DeError::Mismatch { expected: Expected::Boolean, found: crate::node::node_kind(n) }),
    }
}

/// Takes a string node as a string value.
pub fn coerce_text(n: &Node) -> (r: Result<Value, DeError>)
    ensures
        outcome(r) == text_outcome(*n),
{
    match n {
        Node::Str(s) => Ok(Value::Text(s.clone())),
        _ => Err(DeError::Mismatch { expected: Expected::Text, found: crate::node::node_kind(n) }),
    }
}

/// Takes a string node as input for the target's parse hook.
pub fn coerce_parseable(n: &Node) -> (r: Result<Value, DeError>)
    ensures
        outcome(r) == parseable_outcome(*n),
{
    match n {
        Node::Str(s) => Ok(Value::Parsed(s.clone())),
        _ => Err(DeError::Mismatch { expected: Expected::Text, found: crate::node::node_kind(n) }),
    }
}

} // verus!
