//! The YAML documents of the cache file, read and written by yaml-rust, as plain values.
use vstd::prelude::*;
use std::collections::VecDeque;
use yaml_rust::{Yaml, YamlEmitter, YamlLoader};
use crate::build_cache::pairs_view;

verus! {

/// One node of a parsed YAML text, in a flat breadth-first list. Node 0 is a sequence that
/// holds the documents in order; it is its own parent.
#[derive(Debug)]
pub struct YamlNode {
    /// The position of the enclosing sequence or mapping in the list.
    pub parent: usize,
    /// For a value of a mapping, its key when that key is a string.
    pub key: Option<String>,
    /// The text of a string scalar.
    pub text: Option<String>,
    pub is_sequence: bool,
}

/// The nodes of a YAML text's documents, or `None` when it is not well-formed YAML.
pub uninterp spec fn yaml_nodes_of(text: Seq<char>) -> Option<Seq<YamlNode>>;

/// Relies on yaml-rust's `YamlLoader::load_from_str`: the documents of `text` as the items of
/// one sequence, and all nodes under it breadth-first, the items of a sequence or the values of a
/// mapping in their order. Each is copied with its parent's position, `Yaml::as_str` of its
/// key and of itself, and `Yaml::is_array`.
#[verifier::external_body]
pub(crate) fn parse_yaml(text: &str) -> (r: Option<Vec<YamlNode>>)
    ensures
        match r {
            Some(v) => yaml_nodes_of(text@) == Some(v@),
            None => yaml_nodes_of(text@) is None,
        },
{
    let top = Yaml::Array(YamlLoader::load_from_str(text).ok()?);
    let mut nodes = Vec::new();
    let mut todo = VecDeque::from([(0, None, &top)]);
    while let Some((parent, key, y)) = todo.pop_front() {
        todo.extend(y.as_vec().into_iter().flatten().map(|c| (nodes.len(), None, c)));
        todo.extend(y.as_hash().into_iter().flatten().map(|(k, v)| (nodes.len(), k.as_str().map(String::from), v)));
        nodes.push(YamlNode { parent, key, text: y.as_str().map(String::from), is_sequence: y.is_array() });
    }
    Some(nodes)
}

/// A document that maps keys to sequences of string-to-string mappings.
pub type TableDocument = Vec<(String, Vec<Vec<(String, String)>>)>;

/// The plain view of a table document.
pub open spec fn table_document_view(d: Seq<(String, Vec<Vec<(String, String)>>)>) -> Seq<(Seq<char>, Seq<Seq<(Seq<char>, Seq<char>)>>)> {
    d.map_values(
        |e: (String, Vec<Vec<(String, String)>>)|
            (e.0@, e.1@.map_values(|m: Vec<(String, String)>| pairs_view(m@))),
    )
}

/// The text that yaml-rust's emitter writes for a table document.
pub uninterp spec fn yaml_text_of(doc: Seq<(Seq<char>, Seq<Seq<(Seq<char>, Seq<char>)>>)>) -> Seq<char>;

/// Relies on yaml-rust's `YamlEmitter::dump` of the document built from `Yaml::Hash`,
/// `Yaml::Array` and `Yaml::String`. Dumping into a `String` cannot fail: writing to a
/// `String` never errors and the emitter never reports a bad key.
#[verifier::external_body]
pub(crate) fn emit_table_document(doc: &TableDocument) -> (r: String)
    ensures
        r@ == yaml_text_of(table_document_view(doc@)),
{
    let string = |s: &String| Yaml::String(s.clone());
    let table = |m: &Vec<(String, String)>| Yaml::Hash(m.iter().map(|(k, v)| (string(k), string(v))).collect());
    let top = doc.iter().map(|(k, items)| (string(k), Yaml::Array(items.iter().map(table).collect()))).collect();
    let mut out = String::new();
    let _ = YamlEmitter::new(&mut out).dump(&Yaml::Hash(top));
    out
}

} // verus!
