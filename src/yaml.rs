//! YAML documents as plain trees, and reading scalar records out of them.
use vstd::prelude::*;
use crate::text::str_eq;
use crate::value::Scalar;
use yaml_rust::{ScanError, Yaml, YamlLoader};

verus! {

/// A node of a parsed YAML document.
#[derive(Debug)]
pub enum Node {
    Str(String),
    Int(i64),
    /// A real number, kept as the text it was written as.
    Real(String),
    Bool(bool),
    List(Vec<Node>),
    /// The entries of a mapping, in the order they were written.
    Mapping(Vec<(Node, Node)>),
    /// A null, an alias or any node the parser could not type.
    Other,
}

/// A node as the YAML parser builds it; opaque here.
#[verifier::external_type_specification]
#[verifier::external_body]
pub struct ExYaml(Yaml);

/// The parser's error for text that is not well-formed YAML.
#[verifier::external_type_specification]
#[verifier::external_body]
pub struct ExScanError(ScanError);

/// The documents the YAML parser reads from a text, or `None` when the text
/// is not well-formed YAML.
pub uninterp spec fn yaml_docs(text: Seq<char>) -> Option<Seq<Node>>;

/// Relies on `YamlLoader::load_from_str`: parses every document of the text;
/// the documents depend on the text alone. Each `yaml_rust::Yaml` is turned
/// into a `Node` variant by variant.
#[verifier::external_body]
pub(crate) fn load_yaml(text: &str) -> (r: Result<Vec<Node>, ScanError>)
    ensures
        r is Ok <==> yaml_docs(text@) is Some,
        r matches Ok(d) ==> yaml_docs(text@) == Some(d@),
{
    YamlLoader::load_from_str(text).map(|docs| docs.iter().map(node_of).collect())
}

/// Relies on the variants of `yaml_rust::Yaml`: each becomes the `Node`
/// variant of the same name, lists and mappings element by element.
#[verifier::external_body]
fn node_of(y: &Yaml) -> Node {
    match y {
        Yaml::String(s) => Node::Str(s.clone()),
        Yaml::Integer(i) => Node::Int(*i),
        Yaml::Real(r) => Node::Real(r.clone()),
        Yaml::Boolean(b) => Node::Bool(*b),
        Yaml::Array(v) => Node::List(v.iter().map(node_of).collect()),
        Yaml::Hash(h) => Node::Mapping(h.iter().map(|(k, v)| (node_of(k), node_of(v))).collect()),
        _ => Node::Other,
    }
}

/// The scalar a node holds; a list or a mapping is `Other`.
pub open spec fn scalar_of(n: Node) -> Scalar {
    match n {
        Node::Str(s) => Scalar::Str(s),
        Node::Int(i) => Scalar::Int(i),
        Node::Real(r) => Scalar::Real(r),
        Node::Bool(b) => Scalar::Bool(b),
        _ => Scalar::Other,
    }
}

/// The string-keyed entries of a mapping, with their values as scalars.
pub open spec fn map_entries(es: Seq<(Node, Node)>) -> Seq<(String, Scalar)>
    decreases es.len(),
{
    if es.len() == 0 {
        Seq::empty()
    } else {
        let rest = map_entries(es.drop_last());
        match es.last().0 {
            Node::Str(k) => rest.push((k, scalar_of(es.last().1))),
            _ => rest,
        }
    }
}

/// The string-keyed scalar entries of a mapping node; `None` for any other node.
pub open spec fn entries_of(n: Node) -> Option<Seq<(String, Scalar)>> {
    match n {
        Node::Mapping(es) => Some(map_entries(es@)),
        _ => None,
    }
}

/// The value under the string key `key`, the last one written if several.
pub open spec fn lookup_node(es: Seq<(Node, Node)>, key: Seq<char>) -> Option<Node>
    decreases es.len(),
{
    if es.len() == 0 {
        None
    } else if es.last().0 matches Node::Str(k) && k@ == key {
        Some(es.last().1)
    } else {
        lookup_node(es.drop_last(), key)
    }
}

/// The value under a string key of a mapping node; `None` for any other node.
pub open spec fn field(n: Node, key: Seq<char>) -> Option<Node> {
    match n {
        Node::Mapping(es) => lookup_node(es@, key),
        _ => None,
    }
}

/// The scalar a node holds.
pub fn node_scalar(n: &Node) -> (r: Scalar)
    ensures
        r == scalar_of(*n),
{
    match n {
        Node::Str(s) => Scalar::Str(s.clone()),
        Node::Int(i) => Scalar::Int(*i),
        Node::Real(x) => Scalar::Real(x.clone()),
        Node::Bool(b) => Scalar::Bool(*b),
        _ => Scalar::Other,
    }
}

/// The string-keyed entries of a mapping node as scalars, in order; `None`
/// for any other node.
pub fn scalar_entries(n: &Node) -> (r: Option<Vec<(String, Scalar)>>)
    ensures
        match r {
            Some(v) => entries_of(*n) == Some(v@),
            None => entries_of(*n) is None,
        },
{
    match n {
        Node::Mapping(es) => {
            let mut r: Vec<(String, Scalar)> = Vec::new();
            let mut i: usize = 0;
            while i < es.len()
                invariant
                    i <= es@.len(),
                    r@ == map_entries(es@.subrange(0, i as int)),
                decreases es.len() - i,
            {
                if let Node::Str(key) = &es[i].0 {
                    r.push((key.clone(), node_scalar(&es[i].1)));
                }
                proof {
                    let s = es@.subrange(0, i + 1);
                    assert(s.drop_last() =~= es@.subrange(0, i as int));
                    assert(s.last() == es@[i as int]);
                }
                i = i + 1;
            }
            assert(es@.subrange(0, i as int) =~= es@);
            Some(r)
        },
        _ => None,
    }
}

/// The value under a string key of a mapping node.
pub fn node_field<'a>(n: &'a Node, key: &str) -> (r: Option<&'a Node>)
    ensures
        match r {
            Some(v) => field(*n, key@) == Some(*v),
            None => field(*n, key@) is None,
        },
{
    match n {
        Node::Mapping(es) => {
            let mut i: usize = es.len();
            assert(es@.subrange(0, i as int) =~= es@);
            while i > 0
                invariant
                    i <= es@.len(),
                    field(*n, key@) == lookup_node(es@, key@),
                    lookup_node(es@, key@) == lookup_node(es@.subrange(0, i as int), key@),
                decreases i,
            {
                proof {
                    let s = es@.subrange(0, i as int);
                    assert(s.drop_last() =~= es@.subrange(0, i - 1));
                    assert(s.last() == es@[i - 1]);
                }
                if let Node::Str(k) = &es[i - 1].0 {
                    if str_eq(k.as_str(), key) {
                        assert(es@[i - 1].0 == Node::Str(*k));
                        assert(lookup_node(es@.subrange(0, i as int), key@) == Some(es@[i - 1].1));
                        let found = &es[i - 1].1;
                        assert(*found == es@[i - 1].1);
                        return Some(found);
                    }
                }
                i = i - 1;
            }
            None
        },
        _ => None,
    }
}

} // verus!
