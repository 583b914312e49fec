//! The manifest descriptor as a flat list of XML nodes in document order.
use vstd::prelude::*;
use vstd::string::StringExecFns;

verus! {

/// One attribute of an element.
#[derive(Debug)]
pub struct XmlAttribute {
    pub namespace: Option<String>,
    pub name: String,
    pub value: String,
}

/// One node of a document: its identity, its parent's, and what the manifest reads of it.
#[derive(Debug)]
pub struct XmlNode {
    pub id: usize,
    pub parent: Option<usize>,
    pub is_element: bool,
    /// The local name of an element; empty for other nodes.
    pub tag: String,
    /// For an element, the text of its first child when that child is text.
    pub text: Option<String>,
    pub attributes: Vec<XmlAttribute>,
}

/// The nodes of a document in document order, or `None` when the text is not well-formed XML.
pub uninterp spec fn xml_nodes_of(text: Seq<char>) -> Option<Seq<XmlNode>>;

/// Relies on roxmltree's `Document::parse` and `Document::descendants`: every node of the
/// document, the root node first, in document order. Each is copied field by field: `Node::id`
/// and its parent's, `is_element`, the local part of `tag_name`, `text`, and each attribute's
/// namespace, local name and value. The result depends on the text alone.
#[verifier::external_body]
pub(crate) fn parse_xml(text: &str) -> (r: Option<Vec<XmlNode>>)
    ensures
        r is Some <==> xml_nodes_of(text@) is Some,
        r is Some ==> r->0@ == xml_nodes_of(text@)->0,
{
    let doc = roxmltree::Document::parse(text).ok()?;
    Some(doc.descendants().map(|n| XmlNode {
        id: n.id().get_usize(),
        parent: n.parent().map(|p| p.id().get_usize()),
        is_element: n.is_element(),
        tag: n.tag_name().name().to_owned(),
        text: n.text().map(str::to_owned),
        attributes: n.attributes().map(|a| XmlAttribute {
            namespace: a.namespace().map(str::to_owned),
            name: a.name().to_owned(),
            value: a.value().to_owned(),
        }).collect(),
    }).collect())
}

/// An element with local name `tag`, and, when `parent` is given, that parent.
pub open spec fn node_matches(n: XmlNode, tag: Seq<char>, parent: Option<usize>) -> bool {
    &&& n.is_element
    &&& n.tag@ == tag
    &&& (parent is Some ==> n.parent == parent)
}

/// The position of the first node that matches.
pub open spec fn first_match(nodes: Seq<XmlNode>, tag: Seq<char>, parent: Option<usize>) -> Option<int>
    decreases nodes.len(),
{
    if nodes.len() == 0 {
        None
    } else {
        match first_match(nodes.drop_last(), tag, parent) {
            Some(i) => Some(i),
            None => if node_matches(nodes.last(), tag, parent) {
                Some(nodes.len() - 1)
            } else {
                None
            },
        }
    }
}

pub(crate) proof fn lemma_first_match_bounds(nodes: Seq<XmlNode>, tag: Seq<char>, parent: Option<usize>)
    ensures
        first_match(nodes, tag, parent) matches Some(i) ==> 0 <= i < nodes.len() && node_matches(nodes[i], tag, parent),
    decreases nodes.len(),
{
    if nodes.len() > 0 {
        lemma_first_match_bounds(nodes.drop_last(), tag, parent);
    }
}

/// The value of the first attribute without namespace named `name`.
pub open spec fn attribute_value(attrs: Seq<XmlAttribute>, name: Seq<char>) -> Option<Seq<char>>
    decreases attrs.len(),
{
    if attrs.len() == 0 {
        None
    } else {
        match attribute_value(attrs.drop_last(), name) {
            Some(v) => Some(v),
            None => if attrs.last().namespace is None && attrs.last().name@ == name {
                Some(attrs.last().value@)
            } else {
                None
            },
        }
    }
}

/// The position of the first element named `tag` (a child of `parent`, when given).
pub fn find_node(nodes: &Vec<XmlNode>, tag: &str, parent: Option<usize>) -> (r: Option<usize>)
    ensures
        match r {
            Some(i) => first_match(nodes@, tag@, parent) == Some(i as int),
            None => first_match(nodes@, tag@, parent) is None,
        },
{
    let wanted = tag.to_owned();
    let mut i: usize = 0;
    while i < nodes.len()
        invariant
            i <= nodes.len(),
            wanted@ == tag@,
            first_match(nodes@.take(i as int), tag@, parent) is None,
        decreases nodes.len() - i,
    {
        let n = &nodes[i];
        let parent_ok = match parent {
            Some(p) => match n.parent {
                Some(q) => q == p,
                None => false,
            },
            None => true,
        };
        assert(nodes@.take(i as int + 1).drop_last() =~= nodes@.take(i as int));
        if n.is_element && n.tag == wanted && parent_ok {
            assert(first_match(nodes@.take(i as int + 1), tag@, parent) == Some(i as int));
            proof {
                lemma_first_match_prefix(nodes@, tag@, parent, i as int + 1);
            }
            return Some(i);
        }
        i = i + 1;
    }
    assert(nodes@.take(i as int) =~= nodes@);
    None
}

/// A match found in a prefix is the first match of the whole list.
proof fn lemma_first_match_prefix(nodes: Seq<XmlNode>, tag: Seq<char>, parent: Option<usize>, k: int)
    requires
        0 <= k <= nodes.len(),
        first_match(nodes.take(k), tag, parent) is Some,
    ensures
        first_match(nodes, tag, parent) == first_match(nodes.take(k), tag, parent),
    decreases nodes.len() - k,
{
    if k < nodes.len() {
        assert(nodes.take(k + 1).drop_last() =~= nodes.take(k));
        lemma_first_match_prefix(nodes, tag, parent, k + 1);
    } else {
        assert(nodes.take(k) =~= nodes);
    }
}

/// The value of the attribute `name` (without namespace) of a node.
pub fn find_attribute(attrs: &Vec<XmlAttribute>, name: &str) -> (r: Option<String>)
    ensures
        match r {
            Some(v) => attribute_value(attrs@, name@) == Some(v@),
            None => attribute_value(attrs@, name@) is None,
        },
{
    let wanted = name.to_owned();
    let mut i: usize = 0;
    while i < attrs.len()
        invariant
            i <= attrs.len(),
            wanted@ == name@,
            attribute_value(attrs@.take(i as int), name@) is None,
        decreases attrs.len() - i,
    {
        let a = &attrs[i];
        assert(attrs@.take(i as int + 1).drop_last() =~= attrs@.take(i as int));
        if a.namespace.is_none() && a.name == wanted {
            proof {
                lemma_attribute_prefix(attrs@, name@, i as int + 1);
            }
            return Some(a.value.clone());
        }
        i = i + 1;
    }
    assert(attrs@.take(i as int) =~= attrs@);
    None
}

proof fn lemma_attribute_prefix(attrs: Seq<XmlAttribute>, name: Seq<char>, k: int)
    requires
        0 <= k <= attrs.len(),
        attribute_value(attrs.take(k), name) is Some,
    ensures
        attribute_value(attrs, name) == attribute_value(attrs.take(k), name),
    decreases attrs.len() - k,
{
    if k < attrs.len() {
        assert(attrs.take(k + 1).drop_last() =~= attrs.take(k));
        lemma_attribute_prefix(attrs, name, k + 1);
    } else {
        assert(attrs.take(k) =~= attrs);
    }
}

} // verus!
