use vstd::prelude::*;
use crate::coerce::{
    bool_outcome, coerce_bool, coerce_float, coerce_parseable, coerce_signed, coerce_text,
    coerce_unsigned, float_outcome, parseable_outcome, signed_outcome, text_outcome,
    unsigned_outcome,
};
use crate::error::{DeError, Expected};
use crate::node::{Node, kind_of, node_kind};
use crate::shape::{Field, Shape};
use crate::value::{
    Tree, Value, entries_of, lemma_slots_of, outcome, slot_tree,
    slots_of, tree_of, trees_of,
};

verus! {

/// `i` is the first field named `name`.
pub open spec fn first_field(fields: Seq<Field>, name: Seq<char>, i: int) -> bool {
    &&& 0 <= i < fields.len()
    &&& fields[i].name@ == name
    &&& forall|j: int| 0 <= j < i ==> fields[j].name@ != name
}

/// Index of the first field named `name`, if any.
pub open spec fn field_position(fields: Seq<Field>, name: Seq<char>) -> Option<int> {
    if exists|i: int| first_field(fields, name, i) {
        Some(choose|i: int| first_field(fields, name, i))
    } else {
        None
    }
}

/// Field `i` was not written and has no default.
pub open spec fn unresolved(fields: Seq<Field>, slots: Seq<Option<Tree>>, i: int) -> bool {
    slots[i] is None && !fields[i].has_default
}

/// `i` is the first unresolved field.
pub open spec fn first_unresolved(fields: Seq<Field>, slots: Seq<Option<Tree>>, i: int) -> bool {
    &&& 0 <= i < fields.len()
    &&& unresolved(fields, slots, i)
    &&& forall|j: int| 0 <= j < i ==> !unresolved(fields, slots, j)
}

/// Reconciles the written fields with the defaulted ones once the mapping is consumed.
pub open spec fn resolved(fields: Seq<Field>, slots: Seq<Option<Tree>>) -> Result<Tree, DeError> {
    if exists|i: int| first_unresolved(fields, slots, i) {
        Err(DeError::MissingField(fields[choose|i: int| first_unresolved(fields, slots, i)].name))
    } else {
        Ok(Tree::Record(slots))
    }
}

/// No field written yet.
pub open spec fn empty_slots(n: nat) -> Seq<Option<Tree>> {
    Seq::new(n, |i: int| None)
}

/// The translation of a node into a value of the given shape.
pub open spec fn translate(shape: Shape, node: Node) -> Result<Tree, DeError>
    decreases shape, 0nat, 0nat,
{
    match shape {
        Shape::Transparent(inner) => match translate(*inner, node) {
            Ok(t) => Ok(Tree::Wrapped(Box::new(t))),
            Err(e) => Err(e),
        },
        Shape::Struct(fields) => struct_outcome(fields@, node),
        Shape::Unsigned(w) => unsigned_outcome(w, node),
        Shape::Signed(w) => signed_outcome(w, node),
        Shape::Float(w) => float_outcome(w, node),
        Shape::Bool => bool_outcome(node),
        Shape::Text => text_outcome(node),
        Shape::Parseable => parseable_outcome(node),
        Shape::List(elem) => list_outcome(*elem, node),
        Shape::Slice(elem) => list_outcome(*elem, node),
        Shape::Dict(val) => dict_outcome(*val, node),
        Shape::Optional(inner) => match node {
            Node::Null => Ok(Tree::Absent),
            _ => match translate(*inner, node) {
                Ok(t) => Ok(Tree::Present(Box::new(t))),
                Err(e) => Err(e),
            },
        },
        Shape::Pointer(inner) => match translate(*inner, node) {
            Ok(t) => Ok(Tree::Pointer(Box::new(t))),
            Err(e) => Err(e),
        },
        Shape::Unsupported(name) => Err(DeError::Unsupported(name)),
    }
}

/// A struct: every key names a field, then unwritten fields are resolved.
pub open spec fn struct_outcome(fields: Seq<Field>, node: Node) -> Result<Tree, DeError>
    decreases fields, 1nat, 0nat,
{
    match node {
        Node::Mapping(pairs) => match place_from(fields, pairs@, empty_slots(fields.len())) {
            Ok(slots) => resolved(fields, slots),
            Err(e) => Err(e),
        },
        _ => Err(DeError::Mismatch { expected: Expected::Mapping, found: kind_of(node) }),
    }
}

/// Writes the remaining pairs into the struct's slots, left to right.
pub open spec fn place_from(
    fields: Seq<Field>,
    pairs: Seq<(Node, Node)>,
    slots: Seq<Option<Tree>>,
) -> Result<Seq<Option<Tree>>, DeError>
    decreases fields, 0nat, pairs.len(),
{
    if pairs.len() == 0 {
        Ok(slots)
    } else {
        let key = pairs[0].0;
        match key {
            Node::Str(name) => match field_position(fields, name@) {
                Some(i) => match translate(fields[i].shape, pairs[0].1) {
                    Ok(t) => place_from(fields, pairs.drop_first(), slots.update(i, Some(t))),
                    Err(e) => Err(e),
                },
                None => Err(DeError::UnknownField(name)),
            },
            _ => Err(DeError::Mismatch { expected: Expected::StringKey, found: kind_of(key) }),
        }
    }
}

/// A list: every element, in order.
pub open spec fn list_outcome(elem: Shape, node: Node) -> Result<Tree, DeError>
    decreases elem, 1nat, 0nat,
{
    match node {
        Node::Sequence(items) => match items_from(elem, items@, Seq::empty()) {
            Ok(ts) => Ok(Tree::List(ts)),
            Err(e) => Err(e),
        },
        _ => Err(DeError::Mismatch { expected: Expected::Sequence, found: kind_of(node) }),
    }
}

/// Appends the translations of the remaining items to `done`.
pub open spec fn items_from(elem: Shape, items: Seq<Node>, done: Seq<Tree>) -> Result<Seq<Tree>, DeError>
    decreases elem, 0nat, items.len(),
{
    if items.len() == 0 {
        Ok(done)
    } else {
        match translate(elem, items[0]) {
            Ok(t) => items_from(elem, items.drop_first(), done.push(t)),
            Err(e) => Err(e),
        }
    }
}

/// A string-keyed map: every pair, in order.
pub open spec fn dict_outcome(val: Shape, node: Node) -> Result<Tree, DeError>
    decreases val, 1nat, 0nat,
{
    match node {
        Node::Mapping(pairs) => match entries_from(val, pairs@, Seq::empty()) {
            Ok(es) => Ok(Tree::Dict(es)),
            Err(e) => Err(e),
        },
        _ => Err(DeError::Mismatch { expected: Expected::Mapping, found: kind_of(node) }),
    }
}

/// Appends the remaining pairs, with their values translated, to `done`.
pub open spec fn entries_from(
    val: Shape,
    pairs: Seq<(Node, Node)>,
    done: Seq<(Seq<char>, Tree)>,
) -> Result<Seq<(Seq<char>, Tree)>, DeError>
    decreases val, 0nat, pairs.len(),
{
    if pairs.len() == 0 {
        Ok(done)
    } else {
        let key = pairs[0].0;
        match key {
            Node::Str(k) => match translate(val, pairs[0].1) {
                Ok(t) => entries_from(val, pairs.drop_first(), done.push((k@, t))),
                Err(e) => Err(e),
            },
            _ => Err(DeError::Mismatch { expected: Expected::StringKey, found: kind_of(key) }),
        }
    }
}

/// Resolves a key to the index of the first field of that name.
pub fn field_index(fields: &Vec<Field>, name: &String) -> (r: Option<usize>)
    ensures
        match r {
            Some(i) => field_position(fields@, name@) == Some(i as int),
            None => field_position(fields@, name@) is None,
        },
{
    let mut i: usize = 0;
    while i < fields.len()
        invariant
            i <= fields.len(),
            forall|j: int| 0 <= j < i ==> fields@[j].name@ != name@,
        decreases fields.len() - i,
    {
        if fields[i].name == *name {
            proof {
                assert(first_field(fields@, name@, i as int));
                assert forall|k: int| first_field(fields@, name@, k) implies k == i as int by {
                    if k < i {
                    } else if k > i {
                        assert(fields@[i as int].name@ == name@);
                    }
                }
            }
            return Some(i);
        }
        i = i + 1;
    }
    None
}

/// Translates a node into a value of the given shape.
pub fn deserialize_value(shape: &Shape, node: &Node) -> (r: Result<Value, DeError>)
    ensures
        outcome(r) == translate(*shape, *node),
    decreases shape, 0nat, 0nat,
{
    match shape {
        Shape::Transparent(inner) => match deserialize_value(inner, node) {
            Ok(v) => Ok(Value::Wrapped(Box::new(v))),
            Err(e) => Err(e),
        },
        Shape::Struct(fields) => deserialize_struct(fields, node),
        Shape::Unsigned(w) => coerce_unsigned(*w, node),
        Shape::Signed(w) => coerce_signed(*w, node),
        Shape::Float(w) => coerce_float(*w, node),
        Shape::Bool => coerce_bool(node),
        Shape::Text => coerce_text(node),
        Shape::Parseable => coerce_parseable(node),
        Shape::List(elem) => deserialize_as_list(elem, node),
        Shape::Slice(elem) => deserialize_as_list(elem, node),
        Shape::Dict(val) => deserialize_as_map(val, node),
        Shape::Optional(inner) => match node {
            Node::Null => Ok(Value::Optional(None)),
            _ => match deserialize_value(inner, node) {
                Ok(v) => Ok(Value::Optional(Some(Box::new(v)))),
                Err(e) => Err(e),
            },
        },
        Shape::Pointer(inner) => {
            let pointee = match &**inner {
                Shape::Slice(elem) => {
                    proof {
                        assert(translate(**inner, *node) == list_outcome(**elem, *node));
                    }
                    deserialize_as_list(elem, node)
                },
                _ => deserialize_value(inner, node),
            };
            match pointee {
                Ok(v) => Ok(Value::Pointer(Box::new(v))),
                Err(e) => Err(e),
            }
        },
        Shape::Unsupported(name) => Err(DeError::Unsupported(name.clone())),
    }
}

/// Fills a struct from a mapping, then resolves the fields it did not name.
pub fn deserialize_struct(fields: &Vec<Field>, node: &Node) -> (r: Result<Value, DeError>)
    ensures
        outcome(r) == struct_outcome(fields@, *node),
    decreases fields@, 2nat, 0nat,
{
    match node {
        Node::Mapping(pairs) => deserialize_fields(fields, pairs),
        _ => Err(DeError::Mismatch { expected: Expected::Mapping, found: node_kind(node) }),
    }
}

fn deserialize_fields(fields: &Vec<Field>, pairs: &Vec<(Node, Node)>) -> (r: Result<Value, DeError>)
    ensures
        outcome(r) == struct_outcome(fields@, Node::Mapping(*pairs)),
    decreases fields@, 1nat, 0nat,
{
    let n = fields.len();
    let mut slots: Vec<Option<Value>> = Vec::new();
    let mut i: usize = 0;
    while i < n
        invariant
            n == fields.len(),
            i <= n,
            slots@.len() == i,
            forall|j: int| 0 <= j < i ==> slots@[j] is None,
        decreases n - i,
    {
        slots.push(None);
        i = i + 1;
    }
    proof {
        lemma_slots_of(slots@);
        assert(slots_of(slots@) =~= empty_slots(n as nat));
        assert(pairs@.skip(0) =~= pairs@);
    }
    let mut p: usize = 0;
    while p < pairs.len()
        invariant
            n == fields.len(),
            slots@.len() == n,
            p <= pairs.len(),
            place_from(fields@, pairs@, empty_slots(n as nat)) == place_from(
                fields@,
                pairs@.skip(p as int),
                slots_of(slots@),
            ),
        decreases pairs.len() - p,
    {
        let ghost before = slots@;
        proof {
            lemma_slots_of(slots@);
            assert(pairs@.skip(p as int)[0] == pairs@[p as int]);
            assert(pairs@.skip(p as int).drop_first() =~= pairs@.skip(p as int + 1));
        }
        let key = &pairs[p].0;
        let name = match key {
            Node::Str(name) => name,
            _ => {
                return Err(
                    DeError::Mismatch { expected: Expected::StringKey, found: node_kind(key) },
                );
            },
        };
        let i = match field_index(fields, name) {
            Some(i) => i,
            None => {
                return Err(DeError::UnknownField(name.clone()));
            },
        };
        let v = match deserialize_value(&fields[i].shape, &pairs[p].1) {
            Ok(v) => v,
            Err(e) => {
                return Err(e);
            },
        };
        let ghost t = tree_of(v);
        slots.set(i, Some(v));
        proof {
            lemma_slots_of(slots@);
            assert(slots_of(slots@) =~= slots_of(before).update(i as int, Some(t)));
        }
        p = p + 1;
    }
    proof {
        lemma_slots_of(slots@);
        assert(pairs@.skip(p as int).len() == 0);
    }
    let ghost sv = slots_of(slots@);
    assert(place_from(fields@, pairs@, empty_slots(n as nat)) == Ok::<Seq<Option<Tree>>, DeError>(sv));
    let mut k: usize = 0;
    while k < n
        invariant
            n == fields.len(),
            slots@.len() == n,
            sv == slots_of(slots@),
            place_from(fields@, pairs@, empty_slots(n as nat)) == Ok::<Seq<Option<Tree>>, DeError>(sv),
            sv.len() == n,
            forall|j: int| 0 <= j < sv.len() ==> #[trigger] sv[j] == slot_tree(slots@[j]),
            k <= n,
            forall|j: int| 0 <= j < k ==> !unresolved(fields@, sv, j),
        decreases n - k,
    {
        if slots[k].is_none() && !fields[k].has_default {
            proof {
                assert(unresolved(fields@, sv, k as int));
                assert(first_unresolved(fields@, sv, k as int));
                assert forall|m: int| first_unresolved(fields@, sv, m) implies m == k as int by {
                    if m > k {
                        assert(unresolved(fields@, sv, k as int));
                    }
                }
                assert(resolved(fields@, sv) == Err::<Tree, DeError>(
                    DeError::MissingField(fields@[k as int].name),
                ));
            }
            return Err(DeError::MissingField(fields[k].name.clone()));
        }
        proof {
            assert(!unresolved(fields@, sv, k as int));
        }
        k = k + 1;
    }
    Ok(Value::Record(slots))
}

/// Fills a list from a sequence, keeping the order of its items.
pub fn deserialize_as_list(elem: &Shape, node: &Node) -> (r: Result<Value, DeError>)
    ensures
        outcome(r) == list_outcome(*elem, *node),
    decreases elem, 2nat, 0nat,
{
    match node {
        Node::Sequence(items) => deserialize_items(elem, items),
        _ => Err(DeError::Mismatch { expected: Expected::Sequence, found: node_kind(node) }),
    }
}

fn deserialize_items(elem: &Shape, items: &Vec<Node>) -> (r: Result<Value, DeError>)
    ensures
        outcome(r) == list_outcome(*elem, Node::Sequence(*items)),
    decreases elem, 1nat, 0nat,
{
    let mut out: Vec<Value> = Vec::new();
    let mut i: usize = 0;
    proof {
        assert(items@.skip(0) =~= items@);
        assert(trees_of(out@) =~= Seq::<Tree>::empty());
    }
    while i < items.len()
        invariant
            i <= items.len(),
            items_from(*elem, items@, Seq::empty()) == items_from(
                *elem,
                items@.skip(i as int),
                trees_of(out@),
            ),
        decreases items.len() - i,
    {
        proof {
            assert(items@.skip(i as int)[0] == items@[i as int]);
            assert(items@.skip(i as int).drop_first() =~= items@.skip(i as int + 1));
        }
        let v = match deserialize_value(elem, &items[i]) {
            Ok(v) => v,
            Err(e) => {
                return Err(e);
            },
        };
        let ghost before = out@;
        out.push(v);
        proof {
            assert(out@.subrange(0, out@.len() - 1) =~= before);
        }
        i = i + 1;
    }
    proof {
        assert(items@.skip(i as int).len() == 0);
    }
    Ok(Value::List(out))
}

/// Fills a string-keyed map from a mapping, keeping the order of its pairs.
pub fn deserialize_as_map(val: &Shape, node: &Node) -> (r: Result<Value, DeError>)
    ensures
        outcome(r) == dict_outcome(*val, *node),
    decreases val, 2nat, 0nat,
{
    match node {
        Node::Mapping(pairs) => deserialize_entries(val, pairs),
        _ => Err(DeError::Mismatch { expected: Expected::Mapping, found: node_kind(node) }),
    }
}

fn deserialize_entries(val: &Shape, pairs: &Vec<(Node, Node)>) -> (r: Result<Value, DeError>)
    ensures
        outcome(r) == dict_outcome(*val, Node::Mapping(*pairs)),
    decreases val, 1nat, 0nat,
{
    let mut out: Vec<(String, Value)> = Vec::new();
    let mut p: usize = 0;
    proof {
        assert(pairs@.skip(0) =~= pairs@);
        assert(entries_of(out@) =~= Seq::<(Seq<char>, Tree)>::empty());
    }
    while p < pairs.len()
        invariant
            p <= pairs.len(),
            entries_from(*val, pairs@, Seq::empty()) == entries_from(
                *val,
                pairs@.skip(p as int),
                entries_of(out@),
            ),
        decreases pairs.len() - p,
    {
        proof {
            assert(pairs@.skip(p as int)[0] == pairs@[p as int]);
            assert(pairs@.skip(p as int).drop_first() =~= pairs@.skip(p as int + 1));
        }
        let key = &pairs[p].0;
        let k = match key {
            Node::Str(k) => k,
            _ => {
                return Err(
                    DeError::Mismatch { expected: Expected::StringKey, found: node_kind(key) },
                );
            },
        };
        let v = match deserialize_value(val, &pairs[p].1) {
            Ok(v) => v,
            Err(e) => {
                return Err(e);
            },
        };
        let ghost before = out@;
        out.push((k.clone(), v));
        proof {
            assert(out@.subrange(0, out@.len() - 1) =~= before);
        }
        p = p + 1;
    }
    proof {
        assert(pairs@.skip(p as int).len() == 0);
    }
    Ok(Value::Dict(out))
}

} // verus!
