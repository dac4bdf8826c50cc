//! Shape-directed translation of YAML documents into typed value trees.
//!
//! A document is parsed into a `Node` tree, and `deserialize_value` walks it in step with a
//! target `Shape`, producing a `Value` or the first `DeError`. Every step is specified by the
//! spec function `translate`, over the `Tree` model of values.

mod coerce;
mod document;
mod error;
mod laws;
mod node;
mod shape;
mod translate;
mod value;

pub use coerce::{
    coerce_bool, coerce_float, coerce_parseable, coerce_signed, coerce_text, coerce_unsigned,
    is_truthy, narrow_signed, narrow_unsigned, stage_signed, stage_unsigned,
};
pub use document::{from_str, only_document, parse_document, single_document, yaml_documents};
pub use error::{DeError, Expected, FormatProblem};
pub use laws::{
    all_fit, distinct_string_keys, keys_name_fields, law_empty_collections, law_field_order,
    law_no_unknown_keys, law_optional, law_sequence_order, law_translate_no_format_error,
    law_unknown_key_error, names_field, no_format_error, pair_fits, pair_naming, placed,
    some_pair_names,
};
pub use node::{Node, NodeKind, kind_label, kind_of, node_kind};
pub use shape::{Field, FloatWidth, IntWidth, Shape};
pub use translate::{
    deserialize_as_list, deserialize_as_map, deserialize_struct, deserialize_value, dict_outcome,
    empty_slots, entries_from, field_index, field_position, first_field, first_unresolved,
    items_from, list_outcome, place_from, resolved, struct_outcome, translate, unresolved,
};
pub use value::{
    FloatSource, Tree, Value, entries_of, outcome, slot_tree, slots_of, tree_of, trees_of,
};
