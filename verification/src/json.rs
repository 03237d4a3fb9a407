//! Reading JSON documents.

use vstd::prelude::*;

verus! {

/// `serde_json::Value`: a JSON document. Nothing is known of it but what
/// `json_nodes` names.
#[verifier::external_type_specification]
#[verifier::external_body]
pub struct ExJsonValue(serde_json::Value);

/// Why a text is no JSON document.
#[derive(Debug, Clone, Copy, PartialEq, Eq, Structural)]
pub enum JsonFailure {
    /// The text could not be read.
    Io,
    /// The text is not valid JSON.
    Syntax,
    /// The text holds a value of the wrong kind.
    Data,
    /// The text ends before the document does.
    Eof,
}

/// One value of a JSON document, without the values inside it.
#[derive(Debug, Clone, PartialEq, Eq)]
pub enum JsonNode {
    Null,
    Bool(bool),
    /// A number, by its value where that is a whole number from 0 to 2^64 - 1.
    Number(Option<u64>),
    Text(String),
    /// An array, by the number of its items.
    Array(usize),
    Object,
}

/// What a `JsonNode` holds.
pub enum NodeModel {
    Null,
    Bool(bool),
    Number(Option<u64>),
    Text(Seq<char>),
    Array(nat),
    Object,
}

impl View for JsonNode {
    type V = NodeModel;

    open spec fn view(&self) -> NodeModel {
        match self {
            JsonNode::Null => NodeModel::Null,
            JsonNode::Bool(b) => NodeModel::Bool(*b),
            JsonNode::Number(n) => NodeModel::Number(*n),
            JsonNode::Text(s) => NodeModel::Text(s@),
            JsonNode::Array(n) => NodeModel::Array(*n as nat),
            JsonNode::Object => NodeModel::Object,
        }
    }
}

/// The values of a JSON document, each under the JSON pointer that
/// `serde_json::Value::pointer` finds it by. The document itself stands
/// under the empty pointer. Of each value the map holds its kind and, for
/// a text, the text; for a number, what `serde_json::Number::as_u64` gives;
/// for an array, the number of its items.
pub uninterp spec fn json_nodes(v: serde_json::Value) -> Map<Seq<char>, NodeModel>;

/// What `serde_json::from_str` makes of a text when a `serde_json::Value` is
/// asked for: the values of the document, or the kind of the failure.
pub uninterp spec fn json_parsed(text: Seq<char>) -> Result<Map<Seq<char>, NodeModel>, JsonFailure>;

/// The value under a pointer, if there is one.
pub open spec fn node_at(nodes: Map<Seq<char>, NodeModel>, pointer: Seq<char>) -> Option<NodeModel> {
    if nodes.contains_key(pointer) {
        Some(nodes[pointer])
    } else {
        None
    }
}

/// Calls `serde_json::from_str` for a `serde_json::Value`. The wrapper says
/// that the document, or the kind of the failure as
/// `serde_json::Error::classify` gives it, is what `json_parsed` names.
#[verifier::external_body]
pub(crate) fn json_value(text: &str) -> (r: Result<serde_json::Value, JsonFailure>)
    ensures
        r matches Ok(v) ==> (json_parsed(text@) matches Ok(nodes) && nodes == json_nodes(v)),
        r matches Err(f) ==> (json_parsed(text@) matches Err(kind) && kind == f),
{
    serde_json::from_str::<serde_json::Value>(text).map_err(
        |e|
            match e.classify() {
                serde_json::error::Category::Io => JsonFailure::Io,
                serde_json::error::Category::Syntax => JsonFailure::Syntax,
                serde_json::error::Category::Data => JsonFailure::Data,
                serde_json::error::Category::Eof => JsonFailure::Eof,
            },
    )
}

/// Calls `serde_json::Value::pointer`. The wrapper says that the value
/// found is the one that `json_nodes` holds under the pointer, and that
/// none is found where it holds none.
#[verifier::external_body]
pub(crate) fn json_node(v: &serde_json::Value, pointer: &str) -> (r: Option<JsonNode>)
    ensures
        r is Some == json_nodes(*v).contains_key(pointer@),
        r matches Some(n) ==> n@ == json_nodes(*v)[pointer@],
{
    v.pointer(pointer).map(
        |n|
            match n {
                serde_json::Value::Null => JsonNode::Null,
                serde_json::Value::Bool(b) => JsonNode::Bool(*b),
                serde_json::Value::Number(x) => JsonNode::Number(x.as_u64()),
                serde_json::Value::String(s) => JsonNode::Text(s.clone()),
                serde_json::Value::Array(a) => JsonNode::Array(a.len()),
                serde_json::Value::Object(_) => JsonNode::Object,
            },
    )
}

} // verus!
