//! Trusted adapters around the document-model library: parsing text into node
//! trees, inferring a scalar's type from its text, and serializing a node tree
//! back to text. Each result is deterministic in its arguments, so the
//! contracts name it with an uninterpreted spec function.

use vstd::prelude::*;

use crate::node::{node_model, seq_model, Node, NodeModel};

verus! {

/// What parsing a document text yields: the models of the parsed documents in
/// order, or an error message. The text alone determines the outcome.
pub uninterp spec fn parse_result_of(text: Seq<char>) -> Result<Seq<NodeModel>, Seq<char>>;

/// The scalar a bare text is read as: an integer, boolean, null, real or
/// string node, by the document model's own inference rules.
pub uninterp spec fn scalar_of(text: Seq<char>) -> NodeModel;

/// What serializing one node tree yields: the document text (starting with a
/// `---` marker line), or an error message for a mapping key the emitter
/// refuses. The node alone determines the outcome.
pub uninterp spec fn emit_result_of(n: NodeModel) -> Result<Seq<char>, Seq<char>>;

/// The document-model library's node type, opaque here; values of it exist
/// only inside the trusted conversion functions below.
#[verifier::external_type_specification]
#[verifier::external_body]
pub struct ExYaml(yaml_rust::Yaml);

/// Relies on the shape of `yaml_rust::Yaml`: converts each variant to the
/// corresponding [`Node`], field for field. Aliases and out-of-band values,
/// which the loader does not produce for well-formed documents, become null.
#[verifier::external_body]
fn yaml_to_node(y: &yaml_rust::Yaml) -> Node {
    match y {
        yaml_rust::Yaml::Real(s) => Node::Real(s.clone()),
        yaml_rust::Yaml::Integer(i) => Node::Int(*i),
        yaml_rust::Yaml::String(s) => Node::Str(s.clone()),
        yaml_rust::Yaml::Boolean(b) => Node::Bool(*b),
        yaml_rust::Yaml::Array(v) => Node::Sequence(v.iter().map(yaml_to_node).collect()),
        yaml_rust::Yaml::Hash(h) => Node::Mapping(
            h.iter().map(|(k, v)| (yaml_to_node(k), yaml_to_node(v))).collect(),
        ),
        _ => Node::Null,
    }
}

/// Relies on the shape of `yaml_rust::Yaml`: converts each [`Node`] variant to
/// the corresponding document-model node, field for field.
#[verifier::external_body]
fn node_to_yaml(n: &Node) -> yaml_rust::Yaml {
    match n {
        Node::Null => yaml_rust::Yaml::Null,
        Node::Bool(b) => yaml_rust::Yaml::Boolean(*b),
        Node::Int(i) => yaml_rust::Yaml::Integer(*i),
        Node::Real(s) => yaml_rust::Yaml::Real(s.clone()),
        Node::Str(s) => yaml_rust::Yaml::String(s.clone()),
        Node::Sequence(v) => yaml_rust::Yaml::Array(v.iter().map(node_to_yaml).collect()),
        Node::Mapping(v) => yaml_rust::Yaml::Hash(
            v.iter().map(|(k, val)| (node_to_yaml(k), node_to_yaml(val))).collect(),
        ),
    }
}

/// Relies on `yaml_rust::YamlLoader::load_from_str`: parses the text into a
/// list of documents, deterministically in the text; scan errors are reported
/// as the error's display text.
#[verifier::external_body]
pub(crate) fn load_documents(text: &str) -> (r: Result<Vec<Node>, String>)
    ensures
        match r {
            Ok(docs) => parse_result_of(text@) == Ok::<Seq<NodeModel>, Seq<char>>(seq_model(docs@)),
            Err(e) => parse_result_of(text@) == Err::<Seq<NodeModel>, Seq<char>>(e@),
        },
{
    match yaml_rust::YamlLoader::load_from_str(text) {
        Ok(docs) => Ok(docs.iter().map(yaml_to_node).collect()),
        Err(e) => Err(format!("{}", e)),
    }
}

/// Relies on `yaml_rust::Yaml::from_str`: reads a bare text as the scalar of
/// its inferred type (integer, boolean, null, real or string),
/// deterministically in the text.
#[verifier::external_body]
pub(crate) fn node_from_str(text: &str) -> (r: Node)
    ensures
        node_model(r) == scalar_of(text@),
{
    yaml_to_node(&yaml_rust::Yaml::from_str(text))
}

/// Relies on `yaml_rust::YamlEmitter::dump`: serializes one node tree to text
/// behind a `---` marker line, deterministically in the node; the only emitter
/// error for string output is a sequence- or mapping-valued mapping key.
#[verifier::external_body]
pub(crate) fn emit_document(n: &Node) -> (r: Result<String, String>)
    ensures
        match r {
            Ok(s) => emit_result_of(node_model(*n)) == Ok::<Seq<char>, Seq<char>>(s@),
            Err(e) => emit_result_of(node_model(*n)) == Err::<Seq<char>, Seq<char>>(e@),
        },
{
    let mut out = String::new();
    let doc = node_to_yaml(n);
    match yaml_rust::YamlEmitter::new(&mut out).dump(&doc) {
        Ok(()) => Ok(out),
        Err(yaml_rust::EmitError::FmtError(e)) => Err(format!("{}", e)),
        Err(yaml_rust::EmitError::BadHashmapKey) => Err(
            "Bad hashmap key in YAML structure.".to_owned(),
        ),
    }
}

} // verus!
