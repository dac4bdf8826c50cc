use vstd::prelude::*;
use crate::error::DeError;
use crate::node::Node;
use crate::shape::{Field, Shape};
use crate::translate::{
    dict_outcome, empty_slots, entries_from, field_position, first_field, items_from, list_outcome,
    place_from, struct_outcome, translate,
};
use crate::value::Tree;

verus! {

proof fn lemma_items_in_order(elem: Shape, items: Seq<Node>, done: Seq<Tree>)
    requires
        forall|i: int| 0 <= i < items.len() ==> (#[trigger] translate(elem, items[i])) is Ok,
    ensures
        items_from(elem, items, done) == Ok::<Seq<Tree>, DeError>(
            done + Seq::new(items.len(), |i: int| translate(elem, items[i])->Ok_0),
        ),
    decreases items.len(),
{
    if items.len() > 0 {
        let t = translate(elem, items[0])->Ok_0;
        assert(translate(elem, items[0]) is Ok);
        let rest = items.drop_first();
        assert forall|i: int| 0 <= i < rest.len() implies (#[trigger] translate(elem, rest[i])) is Ok by {
            assert(rest[i] == items[i + 1]);
            assert(translate(elem, items[i + 1]) is Ok);
        }
        lemma_items_in_order(elem, rest, done.push(t));
        assert(done.push(t) + Seq::new(rest.len(), |i: int| translate(elem, rest[i])->Ok_0)
            =~= done + Seq::new(items.len(), |i: int| translate(elem, items[i])->Ok_0));
    } else {
        assert(done + Seq::new(items.len(), |i: int| translate(elem, items[i])->Ok_0) =~= done);
    }
}

/// A list keeps the order of its sequence: element `i` of the result is item `i` translated.
pub proof fn law_sequence_order(elem: Shape, items: Vec<Node>)
    requires
        forall|i: int| 0 <= i < items.len() ==> (#[trigger] translate(elem, items@[i])) is Ok,
    ensures
        translate(Shape::List(Box::new(elem)), Node::Sequence(items)) == Ok::<Tree, DeError>(
            Tree::List(Seq::new(items.len() as nat, |i: int| translate(elem, items@[i])->Ok_0)),
        ),
{
    lemma_items_in_order(elem, items@, Seq::empty());
    assert(translate(Shape::List(Box::new(elem)), Node::Sequence(items)) == list_outcome(
        elem,
        Node::Sequence(items),
    ));
    assert(Seq::<Tree>::empty() + Seq::new(items.len() as nat, |i: int| translate(elem, items@[i])->Ok_0)
        =~= Seq::new(items.len() as nat, |i: int| translate(elem, items@[i])->Ok_0));
}

/// An empty sequence gives an empty list or slice, and an empty mapping an empty map.
pub proof fn law_empty_collections(elem: Shape, val: Shape, items: Vec<Node>, pairs: Vec<(Node, Node)>)
    requires
        items.len() == 0,
        pairs.len() == 0,
    ensures
        translate(Shape::List(Box::new(elem)), Node::Sequence(items)) == Ok::<Tree, DeError>(
            Tree::List(Seq::empty()),
        ),
        translate(Shape::Slice(Box::new(elem)), Node::Sequence(items)) == Ok::<Tree, DeError>(
            Tree::List(Seq::empty()),
        ),
        translate(Shape::Dict(Box::new(val)), Node::Mapping(pairs)) == Ok::<Tree, DeError>(
            Tree::Dict(Seq::empty()),
        ),
{
    assert(items_from(elem, items@, Seq::empty()) == Ok::<Seq<Tree>, DeError>(Seq::empty()));
    assert(translate(Shape::List(Box::new(elem)), Node::Sequence(items)) == list_outcome(
        elem,
        Node::Sequence(items),
    ));
    assert(translate(Shape::Slice(Box::new(elem)), Node::Sequence(items)) == list_outcome(
        elem,
        Node::Sequence(items),
    ));
    assert(entries_from(val, pairs@, Seq::empty()) == Ok::<Seq<(Seq<char>, Tree)>, DeError>(
        Seq::empty(),
    ));
    assert(translate(Shape::Dict(Box::new(val)), Node::Mapping(pairs)) == dict_outcome(
        val,
        Node::Mapping(pairs),
    ));
}

/// Every key of a pair names a field of the struct.
pub open spec fn keys_name_fields(fields: Seq<Field>, pairs: Seq<(Node, Node)>) -> bool {
    forall|i: int|
        0 <= i < pairs.len() ==> {
            &&& (#[trigger] pairs[i]).0 is Str
            &&& field_position(fields, pairs[i].0->Str_0@) is Some
        }
}

proof fn lemma_placed_keys_known(
    fields: Seq<Field>,
    pairs: Seq<(Node, Node)>,
    slots: Seq<Option<Tree>>,
)
    requires
        place_from(fields, pairs, slots) is Ok,
    ensures
        keys_name_fields(fields, pairs),
    decreases pairs.len(),
{
    if pairs.len() > 0 {
        let name = pairs[0].0->Str_0;
        let i = field_position(fields, name@)->Some_0;
        let t = translate(fields[i].shape, pairs[0].1)->Ok_0;
        let rest = pairs.drop_first();
        lemma_placed_keys_known(fields, rest, slots.update(i, Some(t)));
        assert forall|j: int| 0 <= j < pairs.len() implies {
            &&& (#[trigger] pairs[j]).0 is Str
            &&& field_position(fields, pairs[j].0->Str_0@) is Some
        } by {
            if j > 0 {
                assert(pairs[j] == rest[j - 1]);
            }
        }
    }
}

/// A struct is only ever built from a mapping whose every key names one of its fields: an
/// unknown key is never skipped.
pub proof fn law_no_unknown_keys(fields: Vec<Field>, pairs: Vec<(Node, Node)>)
    requires
        translate(Shape::Struct(fields), Node::Mapping(pairs)) is Ok,
    ensures
        keys_name_fields(fields@, pairs@),
{
    assert(translate(Shape::Struct(fields), Node::Mapping(pairs)) == struct_outcome(
        fields@,
        Node::Mapping(pairs),
    ));
    lemma_placed_keys_known(fields@, pairs@, empty_slots(fields.len() as nat));
}

/// The pair's key is a string naming a field, and its value translates into that field's shape.
pub open spec fn pair_fits(fields: Seq<Field>, p: (Node, Node)) -> bool {
    &&& p.0 is Str
    &&& field_position(fields, p.0->Str_0@) is Some
    &&& translate(fields[field_position(fields, p.0->Str_0@)->Some_0].shape, p.1) is Ok
}

proof fn lemma_unknown_key_from(
    fields: Seq<Field>,
    pairs: Seq<(Node, Node)>,
    k: int,
    m: int,
    slots: Seq<Option<Tree>>,
)
    requires
        0 <= m <= k < pairs.len(),
        pairs[k].0 is Str,
        field_position(fields, pairs[k].0->Str_0@) is None,
        forall|j: int| 0 <= j < k ==> pair_fits(fields, #[trigger] pairs[j]),
    ensures
        place_from(fields, pairs.skip(m), slots) == Err::<Seq<Option<Tree>>, DeError>(
            DeError::UnknownField(pairs[k].0->Str_0),
        ),
    decreases k - m,
{
    let s = pairs.skip(m);
    assert(s[0] == pairs[m]);
    if m < k {
        assert(pair_fits(fields, pairs[m]));
        assert(s.drop_first() =~= pairs.skip(m + 1));
        let i = field_position(fields, pairs[m].0->Str_0@)->Some_0;
        let t = translate(fields[i].shape, pairs[m].1)->Ok_0;
        lemma_unknown_key_from(fields, pairs, k, m + 1, slots.update(i, Some(t)));
    }
}

/// A key that names no field is never skipped: where every pair before it fits its field,
/// the struct fails with `UnknownField` naming that key.
pub proof fn law_unknown_key_error(fields: Vec<Field>, pairs: Vec<(Node, Node)>, k: int)
    requires
        0 <= k < pairs.len(),
        pairs@[k].0 is Str,
        field_position(fields@, pairs@[k].0->Str_0@) is None,
        forall|j: int| 0 <= j < k ==> pair_fits(fields@, #[trigger] pairs@[j]),
    ensures
        translate(Shape::Struct(fields), Node::Mapping(pairs)) == Err::<Tree, DeError>(
            DeError::UnknownField(pairs@[k].0->Str_0),
        ),
{
    lemma_unknown_key_from(fields@, pairs@, k, 0, empty_slots(fields.len() as nat));
    assert(pairs@.skip(0) =~= pairs@);
    assert(translate(Shape::Struct(fields), Node::Mapping(pairs)) == struct_outcome(
        fields@,
        Node::Mapping(pairs),
    ));
}

/// Every key is a string, and no two keys are the same.
pub open spec fn distinct_string_keys(pairs: Seq<(Node, Node)>) -> bool {
    &&& forall|k: int| 0 <= k < pairs.len() ==> (#[trigger] pairs[k]).0 is Str
    &&& forall|a: int, b: int|
        0 <= a < pairs.len() && 0 <= b < pairs.len() && a != b ==> (#[trigger] pairs[a]).0->Str_0@
            != (#[trigger] pairs[b]).0->Str_0@
}

/// Every pair fits its field.
pub open spec fn all_fit(fields: Seq<Field>, pairs: Seq<(Node, Node)>) -> bool {
    forall|k: int| 0 <= k < pairs.len() ==> pair_fits(fields, #[trigger] pairs[k])
}

/// The pair's key names field `j`.
pub open spec fn names_field(fields: Seq<Field>, p: (Node, Node), j: int) -> bool {
    p.0 is Str && field_position(fields, p.0->Str_0@) == Some(j)
}

pub open spec fn some_pair_names(fields: Seq<Field>, pairs: Seq<(Node, Node)>, j: int) -> bool {
    exists|k: int| 0 <= k < pairs.len() && names_field(fields, #[trigger] pairs[k], j)
}

pub open spec fn pair_naming(fields: Seq<Field>, pairs: Seq<(Node, Node)>, j: int) -> (Node, Node) {
    pairs[choose|k: int| 0 <= k < pairs.len() && names_field(fields, #[trigger] pairs[k], j)]
}

/// The slots after writing every pair, described without reference to their order.
pub open spec fn placed(
    fields: Seq<Field>,
    pairs: Seq<(Node, Node)>,
    slots: Seq<Option<Tree>>,
) -> Seq<Option<Tree>> {
    Seq::new(
        slots.len(),
        |j: int|
            if some_pair_names(fields, pairs, j) {
                Some(translate(fields[j].shape, pair_naming(fields, pairs, j).1)->Ok_0)
            } else {
                slots[j]
            },
    )
}

proof fn lemma_naming_unique(fields: Seq<Field>, pairs: Seq<(Node, Node)>, j: int, a: int, b: int)
    requires
        distinct_string_keys(pairs),
        0 <= a < pairs.len(),
        0 <= b < pairs.len(),
        names_field(fields, pairs[a], j),
        names_field(fields, pairs[b], j),
    ensures
        a == b,
{
    let na = pairs[a].0->Str_0@;
    let nb = pairs[b].0->Str_0@;
    assert(exists|i: int| first_field(fields, na, i));
    assert(exists|i: int| first_field(fields, nb, i));
    assert(first_field(fields, na, j));
    assert(first_field(fields, nb, j));
    if a != b {
        assert(pairs[a].0->Str_0@ != pairs[b].0->Str_0@);
    }
}

proof fn lemma_place_unordered(
    fields: Seq<Field>,
    pairs: Seq<(Node, Node)>,
    slots: Seq<Option<Tree>>,
)
    requires
        distinct_string_keys(pairs),
        slots.len() == fields.len(),
    ensures
        place_from(fields, pairs, slots) is Ok <==> all_fit(fields, pairs),
        all_fit(fields, pairs) ==> place_from(fields, pairs, slots) == Ok::<
            Seq<Option<Tree>>,
            DeError,
        >(placed(fields, pairs, slots)),
    decreases pairs.len(),
{
    if pairs.len() == 0 {
        assert(placed(fields, pairs, slots) =~= slots);
    } else {
        let p0 = pairs[0];
        let rest = pairs.drop_first();
        assert(p0.0 is Str);
        assert forall|a: int, b: int|
            0 <= a < rest.len() && 0 <= b < rest.len() && a != b implies (#[trigger] rest[a]).0->Str_0@
            != (#[trigger] rest[b]).0->Str_0@ by {
            assert(rest[a] == pairs[a + 1] && rest[b] == pairs[b + 1]);
        }
        assert forall|k: int| 0 <= k < rest.len() implies (#[trigger] rest[k]).0 is Str by {
            assert(rest[k] == pairs[k + 1]);
        }
        if !pair_fits(fields, p0) {
            assert(!all_fit(fields, pairs));
        } else {
            let i = field_position(fields, p0.0->Str_0@)->Some_0;
            assert(first_field(fields, p0.0->Str_0@, i));
            let t0 = translate(fields[i].shape, p0.1)->Ok_0;
            let s2 = slots.update(i, Some(t0));
            lemma_place_unordered(fields, rest, s2);
            assert(all_fit(fields, pairs) <==> all_fit(fields, rest)) by {
                if all_fit(fields, rest) {
                    assert forall|k: int| 0 <= k < pairs.len() implies pair_fits(
                        fields,
                        #[trigger] pairs[k],
                    ) by {
                        if k > 0 {
                            assert(pairs[k] == rest[k - 1]);
                        }
                    }
                }
                if all_fit(fields, pairs) {
                    assert forall|k: int| 0 <= k < rest.len() implies pair_fits(
                        fields,
                        #[trigger] rest[k],
                    ) by {
                        assert(rest[k] == pairs[k + 1]);
                    }
                }
            }
            assert forall|j: int| 0 <= j < slots.len() implies #[trigger] placed(
                fields,
                rest,
                s2,
            )[j] == placed(fields, pairs, slots)[j] by {
                assert(names_field(fields, pairs[0], i));
                if j == i {
                    if some_pair_names(fields, rest, j) {
                        let k = choose|k: int|
                            0 <= k < rest.len() && names_field(fields, #[trigger] rest[k], j);
                        assert(rest[k] == pairs[k + 1]);
                        lemma_naming_unique(fields, pairs, j, 0, k + 1);
                    }
                    let k = choose|k: int|
                        0 <= k < pairs.len() && names_field(fields, #[trigger] pairs[k], j);
                    lemma_naming_unique(fields, pairs, j, 0, k);
                } else {
                    assert(!names_field(fields, pairs[0], j));
                    if some_pair_names(fields, pairs, j) {
                        let k = choose|k: int|
                            0 <= k < pairs.len() && names_field(fields, #[trigger] pairs[k], j);
                        assert(k > 0);
                        assert(rest[k - 1] == pairs[k]);
                        assert(some_pair_names(fields, rest, j));
                        let k2 = choose|k: int|
                            0 <= k < rest.len() && names_field(fields, #[trigger] rest[k], j);
                        assert(rest[k2] == pairs[k2 + 1]);
                        lemma_naming_unique(fields, pairs, j, k, k2 + 1);
                    } else {
                        if some_pair_names(fields, rest, j) {
                            let k2 = choose|k: int|
                                0 <= k < rest.len() && names_field(fields, #[trigger] rest[k], j);
                            assert(rest[k2] == pairs[k2 + 1]);
                        }
                    }
                }
            }
            assert(placed(fields, rest, s2) =~= placed(fields, pairs, slots));
        }
    }
}

proof fn lemma_placed_same(
    fields: Seq<Field>,
    a: Seq<(Node, Node)>,
    b: Seq<(Node, Node)>,
    slots: Seq<Option<Tree>>,
)
    requires
        distinct_string_keys(a),
        distinct_string_keys(b),
        forall|p: (Node, Node)| a.contains(p) <==> b.contains(p),
    ensures
        all_fit(fields, a) <==> all_fit(fields, b),
        placed(fields, a, slots) == placed(fields, b, slots),
{
    assert forall|k: int| 0 <= k < b.len() implies a.contains(#[trigger] b[k]) by {
        assert(b.contains(b[k]));
    }
    assert forall|k: int| 0 <= k < a.len() implies b.contains(#[trigger] a[k]) by {
        assert(a.contains(a[k]));
    }
    if all_fit(fields, a) {
        assert forall|k: int| 0 <= k < b.len() implies pair_fits(fields, #[trigger] b[k]) by {
            assert(a.contains(b[k]));
        }
    }
    if all_fit(fields, b) {
        assert forall|k: int| 0 <= k < a.len() implies pair_fits(fields, #[trigger] a[k]) by {
            assert(b.contains(a[k]));
        }
    }
    assert forall|j: int| 0 <= j < slots.len() implies #[trigger] placed(fields, a, slots)[j]
        == placed(fields, b, slots)[j] by {
        if some_pair_names(fields, a, j) {
            let ka = choose|k: int| 0 <= k < a.len() && names_field(fields, #[trigger] a[k], j);
            assert(b.contains(a[ka]));
            let kb0 = choose|k: int| 0 <= k < b.len() && b[k] == a[ka];
            assert(names_field(fields, b[kb0], j));
            assert(some_pair_names(fields, b, j));
            let kb = choose|k: int| 0 <= k < b.len() && names_field(fields, #[trigger] b[k], j);
            assert(a.contains(b[kb]));
            let ka2 = choose|k: int| 0 <= k < a.len() && a[k] == b[kb];
            lemma_naming_unique(fields, a, j, ka, ka2);
        } else if some_pair_names(fields, b, j) {
            let kb = choose|k: int| 0 <= k < b.len() && names_field(fields, #[trigger] b[k], j);
            assert(a.contains(b[kb]));
            let ka = choose|k: int| 0 <= k < a.len() && a[k] == b[kb];
            assert(names_field(fields, a[ka], j));
        }
    }
    assert(placed(fields, a, slots) =~= placed(fields, b, slots));
}

/// The order of a struct's pairs does not matter: two mappings with string keys, each key once,
/// that hold the same pairs in any order either both translate or both fail, and where they
/// translate they give the same value.
pub proof fn law_field_order(fields: Vec<Field>, a: Vec<(Node, Node)>, b: Vec<(Node, Node)>)
    requires
        distinct_string_keys(a@),
        distinct_string_keys(b@),
        forall|p: (Node, Node)| a@.contains(p) <==> b@.contains(p),
    ensures
        translate(Shape::Struct(fields), Node::Mapping(a)) is Ok <==> translate(
            Shape::Struct(fields),
            Node::Mapping(b),
        ) is Ok,
        translate(Shape::Struct(fields), Node::Mapping(a)) is Ok ==> translate(
            Shape::Struct(fields),
            Node::Mapping(a),
        ) == translate(Shape::Struct(fields), Node::Mapping(b)),
{
    let e = empty_slots(fields.len() as nat);
    lemma_place_unordered(fields@, a@, e);
    lemma_place_unordered(fields@, b@, e);
    lemma_placed_same(fields@, a@, b@, e);
    assert(translate(Shape::Struct(fields), Node::Mapping(a)) == struct_outcome(
        fields@,
        Node::Mapping(a),
    ));
    assert(translate(Shape::Struct(fields), Node::Mapping(b)) == struct_outcome(
        fields@,
        Node::Mapping(b),
    ));
}

/// The error, if any, is not a format error.
pub open spec fn no_format_error<A>(r: Result<A, DeError>) -> bool {
    !(r matches Err(DeError::Format(_)))
}

/// Translating a node never fails with a format error: those come from the document text only.
pub proof fn law_translate_no_format_error(shape: Shape, node: Node)
    ensures
        no_format_error(translate(shape, node)),
    decreases shape, 0nat, 0nat,
{
    match shape {
        Shape::Transparent(inner) => law_translate_no_format_error(*inner, node),
        Shape::Optional(inner) => law_translate_no_format_error(*inner, node),
        Shape::Pointer(inner) => law_translate_no_format_error(*inner, node),
        Shape::Struct(fields) => {
            assert(translate(shape, node) == struct_outcome(fields@, node));
            if let Node::Mapping(pairs) = node {
                lemma_place_no_format_error(fields@, pairs@, empty_slots(fields.len() as nat));
            }
        },
        Shape::List(elem) => {
            assert(translate(shape, node) == list_outcome(*elem, node));
            if let Node::Sequence(items) = node {
                lemma_items_no_format_error(*elem, items@, Seq::empty());
            }
        },
        Shape::Slice(elem) => {
            assert(translate(shape, node) == list_outcome(*elem, node));
            if let Node::Sequence(items) = node {
                lemma_items_no_format_error(*elem, items@, Seq::empty());
            }
        },
        Shape::Dict(val) => {
            assert(translate(shape, node) == dict_outcome(*val, node));
            if let Node::Mapping(pairs) = node {
                lemma_entries_no_format_error(*val, pairs@, Seq::empty());
            }
        },
        _ => {},
    }
}

proof fn lemma_place_no_format_error(
    fields: Seq<Field>,
    pairs: Seq<(Node, Node)>,
    slots: Seq<Option<Tree>>,
)
    ensures
        no_format_error(place_from(fields, pairs, slots)),
    decreases fields, 0nat, pairs.len(),
{
    if pairs.len() > 0 {
        if let Node::Str(name) = pairs[0].0 {
            if let Some(i) = field_position(fields, name@) {
                law_translate_no_format_error(fields[i].shape, pairs[0].1);
                if let Ok(t) = translate(fields[i].shape, pairs[0].1) {
                    lemma_place_no_format_error(fields, pairs.drop_first(), slots.update(i, Some(t)));
                }
            }
        }
    }
}

proof fn lemma_items_no_format_error(elem: Shape, items: Seq<Node>, done: Seq<Tree>)
    ensures
        no_format_error(items_from(elem, items, done)),
    decreases elem, 0nat, items.len(),
{
    if items.len() > 0 {
        law_translate_no_format_error(elem, items[0]);
        if let Ok(t) = translate(elem, items[0]) {
            lemma_items_no_format_error(elem, items.drop_first(), done.push(t));
        }
    }
}

proof fn lemma_entries_no_format_error(
    val: Shape,
    pairs: Seq<(Node, Node)>,
    done: Seq<(Seq<char>, Tree)>,
)
    ensures
        no_format_error(entries_from(val, pairs, done)),
    decreases val, 0nat, pairs.len(),
{
    if pairs.len() > 0 {
        if let Node::Str(k) = pairs[0].0 {
            law_translate_no_format_error(val, pairs[0].1);
            if let Ok(t) = translate(val, pairs[0].1) {
                lemma_entries_no_format_error(val, pairs.drop_first(), done.push((k@, t)));
            }
        }
    }
}

/// An optional target is absent for `null` and otherwise holds the translation of the node.
pub proof fn law_optional(inner: Shape, node: Node)
    ensures
        translate(Shape::Optional(Box::new(inner)), Node::Null) == Ok::<Tree, DeError>(Tree::Absent),
        !(node is Null) ==> translate(Shape::Optional(Box::new(inner)), node) == match translate(
            inner,
            node,
        ) {
            Ok(t) => Ok::<Tree, DeError>(Tree::Present(Box::new(t))),
            Err(e) => Err(e),
        },
{
}

} // verus!
