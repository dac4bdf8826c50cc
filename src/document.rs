use vstd::prelude::*;
use yaml_rust2::{ScanError, Yaml, YamlLoader};
use crate::error::{DeError, FormatProblem};
use crate::laws::law_translate_no_format_error;
use crate::node::Node;
use crate::shape::Shape;
use crate::translate::{deserialize_value, translate};
use crate::value::{Value, outcome};

verus! {

#[verifier::external_type_specification]
#[verifier::external_body]
pub struct ExYaml(Yaml);

#[verifier::external_type_specification]
#[verifier::external_body]
pub struct ExScanError(ScanError);

/// The documents of a YAML text as nodes, or `None` where the parser rejects the text.
pub uninterp spec fn yaml_documents(text: Seq<char>) -> Option<Seq<Node>>;

/// Relies on `yaml_rust2::YamlLoader::load_from_str`: all documents of the text in order, or
/// the scanner's error; the outcome depends on the text alone. Each document is converted by
/// `node_from_yaml`.
#[verifier::external_body]
fn load_documents(text: &str) -> (r: Result<Vec<Node>, ScanError>)
    ensures
        match r {
            Ok(docs) => yaml_documents(text@) == Some(docs@),
            Err(_) => yaml_documents(text@) is None,
        },
{
    YamlLoader::load_from_str(text).map(|docs| docs.iter().map(node_from_yaml).collect())
}

/// Relies on `ScanError`'s `Display`: the scanner's message with its position.
#[verifier::external_body]
fn scan_error_message(e: &ScanError) -> (r: String) {
    e.to_string()
}

/// Relies on the variants of `yaml_rust2::Yaml`: each is moved into the `Node` of the same
/// name, mapping pairs in the order the loader kept them.
#[verifier::external_body]
fn node_from_yaml(y: &Yaml) -> (r: Node) {
    match y {
        Yaml::Real(s) => Node::Real(s.clone()),
        Yaml::Integer(i) => Node::Integer(*i),
        Yaml::String(s) => Node::Str(s.clone()),
        Yaml::Boolean(b) => Node::Boolean(*b),
        Yaml::Array(a) => Node::Sequence(a.iter().map(node_from_yaml).collect()),
        Yaml::Hash(h) => Node::Mapping(
            h.iter().map(|(k, v)| (node_from_yaml(k), node_from_yaml(v))).collect(),
        ),
        Yaml::Alias(n) => Node::Alias(*n),
        Yaml::Null => Node::Null,
        Yaml::BadValue => Node::Malformed,
    }
}

/// The only document of a loaded text; any other count is a format error.
pub fn only_document<T>(docs: Vec<T>) -> (r: Result<T, DeError>)
    ensures
        docs.len() == 1 ==> r == Ok::<T, DeError>(docs[0]),
        docs.len() != 1 ==> r == Err::<T, DeError>(
            DeError::Format(FormatProblem::DocumentCount(docs.len())),
        ),
{
    let mut docs = docs;
    if docs.len() != 1 {
        return Err(DeError::Format(FormatProblem::DocumentCount(docs.len())));
    }
    match docs.pop() {
        Some(d) => Ok(d),
        None => Err(DeError::Format(FormatProblem::DocumentCount(0))),
    }
}

/// The text holds exactly one document.
pub open spec fn single_document(text: Seq<char>) -> bool {
    yaml_documents(text) is Some && yaml_documents(text)->Some_0.len() == 1
}

/// Parses YAML text that must hold exactly one document, and returns that document.
pub fn parse_document(text: &str) -> (r: Result<Node, DeError>)
    ensures
        r is Ok <==> single_document(text@),
        r is Ok ==> yaml_documents(text@) == Some(seq![r->Ok_0]),
        yaml_documents(text@) is None ==> (r matches Err(
            DeError::Format(FormatProblem::Syntax(_)),
        )),
        yaml_documents(text@) is Some && yaml_documents(text@)->Some_0.len() != 1 ==> r == Err::<
            Node,
            DeError,
        >(
            DeError::Format(
                FormatProblem::DocumentCount(yaml_documents(text@)->Some_0.len() as usize),
            ),
        ),
        r is Err ==> (r matches Err(DeError::Format(_))),
{
    match load_documents(text) {
        Ok(docs) => {
            let ghost ds = docs@;
            let r = only_document(docs);
            proof {
                if r is Ok {
                    assert(ds =~= seq![r->Ok_0]);
                }
            }
            r
        },
        Err(e) => Err(DeError::Format(FormatProblem::Syntax(scan_error_message(&e)))),
    }
}

/// Deserializes YAML text, which must hold exactly one document, into a value of the given
/// shape.
pub fn from_str(text: &str, shape: &Shape) -> (r: Result<Value, DeError>)
    ensures
        yaml_documents(text@) is None ==> (r matches Err(
            DeError::Format(FormatProblem::Syntax(_)),
        )),
        yaml_documents(text@) is Some && yaml_documents(text@)->Some_0.len() != 1 ==> r == Err::<
            Value,
            DeError,
        >(
            DeError::Format(
                FormatProblem::DocumentCount(yaml_documents(text@)->Some_0.len() as usize),
            ),
        ),
        single_document(text@) ==> outcome(r) == translate(
            *shape,
            yaml_documents(text@)->Some_0[0],
        ),
        (r matches Err(DeError::Format(_))) <==> !single_document(text@),
{
    match parse_document(text) {
        Ok(root) => {
            proof {
                law_translate_no_format_error(*shape, root);
            }
            deserialize_value(shape, &root)
        },
        Err(e) => Err(e),
    }
}

} // verus!
