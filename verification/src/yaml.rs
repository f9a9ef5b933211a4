//! The YAML reader and writer.
//!
//! Reading and writing YAML is the work of `serde_yaml`. This module hands
//! texts to it and takes trees back, and the other way round. What the
//! reader and the writer compute is not spelled out here: each result has a
//! name, [`yaml_document`] and [`yaml_text`], and the contracts of the
//! library speak of those names.

use crate::tree::{well_formed, Node, Tree};
use vstd::prelude::*;

verus! {

/// A YAML value of `serde_yaml`.
#[verifier::external_type_specification]
#[verifier::external_body]
pub struct ExYamlValue(serde_yaml::Value);

/// The error of `serde_yaml`.
#[verifier::external_type_specification]
#[verifier::external_body]
pub struct ExYamlError(serde_yaml::Error);

/// The tree of the document that `text` spells. There is none where `text`
/// is no YAML document, and none where the document holds what a tree does
/// not: a tagged value, or a mapping key that is no plain string.
pub uninterp spec fn yaml_document(text: Seq<char>) -> Option<Tree>;

/// The YAML text that the writer gives for a tree, where it gives one.
pub uninterp spec fn yaml_text(tree: Tree) -> Option<Seq<char>>;

/// The tree that a value of `serde_yaml` holds, node for node: a number by
/// the text that `serde_yaml` prints for it, a mapping by its entries in
/// their order. There is none for a tagged value and for a mapping with a
/// key that is no plain string.
#[verifier::external_body]
fn node_of_yaml(y: &serde_yaml::Value) -> Option<Node> {
    Some(match y {
        serde_yaml::Value::Null => Node::Null,
        serde_yaml::Value::Bool(b) => Node::Bool(*b),
        serde_yaml::Value::Number(n) => Node::Number(n.to_string()),
        serde_yaml::Value::String(s) => Node::String(s.clone()),
        serde_yaml::Value::Sequence(items) => Node::Sequence(items.iter().map(node_of_yaml).collect::<Option<_>>()?),
        serde_yaml::Value::Mapping(m) => Node::Mapping(m.iter().map(entry_of_yaml).collect::<Option<_>>()?),
        serde_yaml::Value::Tagged(_) => return None,
    })
}

/// An entry of a mapping of `serde_yaml` as an entry of a tree: its key,
/// which has to be a plain string, and the tree of its value. There is none
/// for any other key, a tagged string among them.
#[verifier::external_body]
fn entry_of_yaml(entry: (&serde_yaml::Value, &serde_yaml::Value)) -> Option<(String, Node)> {
    match entry.0 {
        serde_yaml::Value::String(key) => Some((key.clone(), node_of_yaml(entry.1)?)),
        _ => None,
    }
}

/// The value of `serde_yaml` for a tree, node for node. The text of a number
/// is read by `serde_yaml`'s own `Number::from_str`; a text that it refuses
/// is handed over as a string.
#[verifier::external_body]
fn yaml_of_node(n: &Node) -> serde_yaml::Value {
    match n {
        Node::Null => serde_yaml::Value::Null,
        Node::Bool(b) => serde_yaml::Value::Bool(*b),
        Node::Number(t) => t.parse().map_or_else(|_| serde_yaml::Value::String(t.clone()), serde_yaml::Value::Number),
        Node::String(s) => serde_yaml::Value::String(s.clone()),
        Node::Sequence(items) => serde_yaml::Value::Sequence(items.iter().map(yaml_of_node).collect()),
        Node::Mapping(entries) => serde_yaml::Value::Mapping(
            entries.iter().map(|(k, v)| (serde_yaml::Value::String(k.clone()), yaml_of_node(v))).collect(),
        ),
    }
}

/// `serde_yaml::from_str`, reading a `serde_yaml::Value`: the document that
/// `text` spells, as a tree. The result is `Ok(None)` for a document that
/// holds what a tree does not. A mapping of `serde_yaml` has no key twice,
/// and a tree is made only where every key is a plain string, so that two
/// keys of the tree are two different strings: the tree is well-formed.
#[verifier::external_body]
fn read_yaml(text: &str) -> (r: Result<Option<Node>, serde_yaml::Error>)
    ensures
        match r {
            Ok(Some(n)) => yaml_document(text@) == Some(n@) && well_formed(n@),
            _ => yaml_document(text@) is None,
        },
{
    serde_yaml::from_str::<serde_yaml::Value>(text).map(|y| node_of_yaml(&y))
}

/// `serde_yaml::to_string`, writing the `serde_yaml::Value` of a tree: the
/// YAML text of the tree.
#[verifier::external_body]
fn write_yaml(n: &Node) -> (r: Result<String, serde_yaml::Error>)
    ensures
        match r {
            Ok(text) => yaml_text(n@) == Some(text@),
            Err(_) => yaml_text(n@) is None,
        },
{
    serde_yaml::to_string(&yaml_of_node(n))
}

/// Reads a YAML document.
///
/// The error says why `text` is no document that the library can hold.
pub fn parse_document(text: &str) -> (r: Result<Node, String>)
    ensures
        match r {
            Ok(n) => yaml_document(text@) == Some(n@) && well_formed(n@),
            Err(_) => yaml_document(text@) is None,
        },
{
    match read_yaml(text) {
        Ok(Some(n)) => Ok(n),
        Ok(None) => Err(
            "tagged values and mapping keys that are no strings are not supported".to_owned(),
        ),
        Err(e) => Err(e.to_string()),
    }
}

/// Writes a tree as YAML.
pub fn to_yaml_string(n: &Node) -> (r: Result<String, String>)
    ensures
        match r {
            Ok(text) => yaml_text(n@) == Some(text@),
            Err(_) => yaml_text(n@) is None,
        },
{
    match write_yaml(n) {
        Ok(text) => Ok(text),
        Err(e) => Err(e.to_string()),
    }
}

} // verus!
