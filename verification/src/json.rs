//! JSON values of `serde_json`, by the tree they stand for.

use crate::table::collected;
use crate::text::Text;
use serde_json::Value as OutsideJson;
use vstd::prelude::*;

verus! {

/// A JSON value, opaque here; [`json_tree`] names the tree it stands for.
#[verifier::external_type_specification]
#[verifier::external_body]
pub struct ExJson(OutsideJson);

/// A JSON value as a tree. A number is held by its JSON text.
#[verifier::ext_equal]
pub enum JsonTree {
    /// `null`.
    Null,
    /// `true` or `false`.
    Bool(bool),
    /// A number, as it is written.
    Number(Text),
    /// A string.
    Str(Text),
    /// An array.
    Array(Seq<JsonTree>),
    /// An object, its keys in the order in which they came.
    Object(Seq<(Text, JsonTree)>),
}

/// The tree of a JSON value.
pub uninterp spec fn json_tree(v: OutsideJson) -> JsonTree;

/// What a text parses to: a tree, or the parser's message.
pub uninterp spec fn json_parsed(s: Text) -> Result<JsonTree, Text>;

/// A tree as compact JSON text.
pub uninterp spec fn json_compact(t: JsonTree) -> Text;

/// A tree as indented JSON text.
pub uninterp spec fn json_pretty(t: JsonTree) -> Text;

/// One level of a JSON value.
pub enum JsonParts {
    /// `null`.
    Null,
    /// `true` or `false`.
    Bool(bool),
    /// A number, as it is written.
    Number(String),
    /// A string.
    Str(String),
    /// The items of an array.
    Array(Vec<OutsideJson>),
    /// The entries of an object.
    Object(Vec<(String, OutsideJson)>),
}

/// The trees of a list of values.
pub open spec fn trees_of(v: Seq<OutsideJson>) -> Seq<JsonTree> {
    v.map_values(|j: OutsideJson| json_tree(j))
}

/// The trees of a list of entries.
pub open spec fn entries_of(v: Seq<(String, OutsideJson)>) -> Seq<(Text, JsonTree)> {
    v.map_values(|e: (String, OutsideJson)| (e.0@, json_tree(e.1)))
}

impl JsonParts {
    /// The tree that the parts make.
    pub open spec fn tree(self) -> JsonTree {
        match self {
            JsonParts::Null => JsonTree::Null,
            JsonParts::Bool(b) => JsonTree::Bool(b),
            JsonParts::Number(t) => JsonTree::Number(t@),
            JsonParts::Str(t) => JsonTree::Str(t@),
            JsonParts::Array(a) => JsonTree::Array(trees_of(a@)),
            JsonParts::Object(o) => JsonTree::Object(entries_of(o@)),
        }
    }
}

/// `serde_json::Value::Null`: its tree is null.
#[verifier::external_body]
pub(crate) fn json_null() -> (r: OutsideJson)
    ensures
        json_tree(r) == JsonTree::Null,
{
    OutsideJson::Null
}

/// `serde_json::Value::Bool`: its tree is that boolean.
#[verifier::external_body]
pub(crate) fn json_bool(b: bool) -> (r: OutsideJson)
    ensures
        json_tree(r) == JsonTree::Bool(b),
{
    OutsideJson::Bool(b)
}

/// `serde_json::Number::from` on an integer: the number is written as the
/// integer's decimal digits.
#[verifier::external_body]
pub(crate) fn json_int(i: i64) -> (r: OutsideJson)
    ensures
        json_tree(r) == JsonTree::Number(crate::numtext::int_text(i as int)),
{
    OutsideJson::Number(i.into())
}

/// `serde_json::Value::String`: its tree is that text.
#[verifier::external_body]
pub(crate) fn json_string(s: String) -> (r: OutsideJson)
    ensures
        json_tree(r) == JsonTree::Str(s@),
{
    OutsideJson::String(s)
}

/// `serde_json::Value::Array`: its tree holds the trees of the items, in order.
#[verifier::external_body]
pub(crate) fn json_array(items: Vec<OutsideJson>) -> (r: OutsideJson)
    ensures
        json_tree(r) == JsonTree::Array(trees_of(items@)),
{
    OutsideJson::Array(items)
}

/// `serde_json::Map` collected from pairs, which keeps keys in the order in which
/// they first came: a repeated key takes its last value.
#[verifier::external_body]
pub(crate) fn json_object(entries: Vec<(String, OutsideJson)>) -> (r: OutsideJson)
    ensures
        json_tree(r) == JsonTree::Object(collected(entries_of(entries@))),
{
    OutsideJson::Object(entries.into_iter().collect())
}

/// The variants of `serde_json::Value` and what they hold; a number is converted
/// to the text that `serde_json::Number` displays as.
#[verifier::external_body]
pub(crate) fn json_parts(v: OutsideJson) -> (r: JsonParts)
    ensures
        r.tree() == json_tree(v),
{
    match v {
        OutsideJson::Null => JsonParts::Null,
        OutsideJson::Bool(b) => JsonParts::Bool(b),
        OutsideJson::Number(n) => JsonParts::Number(n.to_string()),
        OutsideJson::String(s) => JsonParts::Str(s),
        OutsideJson::Array(a) => JsonParts::Array(a),
        OutsideJson::Object(o) => JsonParts::Object(o.into_iter().collect()),
    }
}

/// `serde_json::from_str`: the text's value, or the error's message. Which it is
/// depends on the text alone.
#[verifier::external_body]
pub(crate) fn json_read(text: &str) -> (r: Result<OutsideJson, String>)
    ensures
        (match r {
            Ok(v) => Ok::<JsonTree, Text>(json_tree(v)),
            Err(e) => Err::<JsonTree, Text>(e@),
        }) == json_parsed(text@),
{
    serde_json::from_str(text).map_err(|e| e.to_string())
}

/// `serde_json::to_string`, which does not fail on a JSON value: the text depends
/// on the tree alone.
#[verifier::external_body]
pub(crate) fn json_text(v: &OutsideJson) -> (r: String)
    ensures
        r@ == json_compact(json_tree(*v)),
{
    serde_json::to_string(v).unwrap_or_default()
}

/// `serde_json::to_string_pretty`, which does not fail on a JSON value: the text
/// depends on the tree alone.
#[verifier::external_body]
pub(crate) fn json_pretty_text(v: &OutsideJson) -> (r: String)
    ensures
        r@ == json_pretty(json_tree(*v)),
{
    serde_json::to_string_pretty(v).unwrap_or_default()
}

} // verus!
