//! Where the style rules of a document are found: the `link` and `style`
//! elements of its head.

use crate::css::str_eq;
use crate::dom::{ElementData, Node, NodeType};
use vstd::prelude::*;

verus! {

/// A place that style rules come from.
#[derive(Debug, PartialEq, Eq)]
pub enum StyleSource {
    /// A stylesheet of its own, at this address.
    Link(String),
    /// Rules written into the document: this text.
    Inline(String),
}

/// Whether the node is an element with this tag name.
pub open spec fn is_named(node: &Node, name: Seq<char>) -> bool {
    node.node_type matches NodeType::Element(elem) && elem.tag_name@ == name
}

/// The rules that a child of the head brings: a `link` whose `rel` is
/// `stylesheet` brings what its `href` names, a `style` whose first child is
/// text brings that text, and any other node brings nothing.
pub open spec fn source_of(node: &Node) -> Option<StyleSource> {
    match node.node_type {
        NodeType::Element(elem) => if elem.tag_name@ == "link"@ {
            if elem.attributes@.contains_key("rel"@) && elem.attributes@["rel"@]@ == "stylesheet"@
                && elem.attributes@.contains_key("href"@) {
                Some(StyleSource::Link(elem.attributes@["href"@]))
            } else {
                None
            }
        } else if elem.tag_name@ == "style"@ {
            if node.children@.len() > 0 {
                match node.children@[0].node_type {
                    NodeType::Text(text) => Some(StyleSource::Inline(text)),
                    _ => None,
                }
            } else {
                None
            }
        } else {
            None
        },
        NodeType::Text(_) => None,
    }
}

/// What the nodes bring, in their order.
pub open spec fn sources_in(nodes: Seq<Node>) -> Seq<StyleSource>
    decreases nodes.len(),
{
    if nodes.len() == 0 {
        Seq::empty()
    } else {
        match source_of(&nodes.last()) {
            Some(source) => sources_in(nodes.drop_last()).push(source),
            None => sources_in(nodes.drop_last()),
        }
    }
}

/// What the children of those of the nodes bring that are `head` elements,
/// in their order.
pub open spec fn sources_in_heads(nodes: Seq<Node>) -> Seq<StyleSource>
    decreases nodes.len(),
{
    if nodes.len() == 0 {
        Seq::empty()
    } else if is_named(&nodes.last(), "head"@) {
        sources_in_heads(nodes.drop_last()) + sources_in(nodes.last().children@)
    } else {
        sources_in_heads(nodes.drop_last())
    }
}

/// The places that the style rules of the document come from, in the order
/// of the document.  Only the heads directly below a root that is an
/// element are looked at.
pub open spec fn sources(root: &Node) -> Seq<StyleSource> {
    match root.node_type {
        NodeType::Element(_) => sources_in_heads(root.children@),
        NodeType::Text(_) => Seq::empty(),
    }
}

/// The element that the node holds, if it has the tag name `name`.
fn element_named<'a>(node: &'a Node, name: &str) -> (found: Option<&'a ElementData>)
    ensures
        match found {
            Some(elem) => is_named(node, name@) && node.node_type == NodeType::Element(*elem),
            None => !is_named(node, name@),
        },
{
    match &node.node_type {
        NodeType::Element(elem) => if str_eq(elem.tag_name.as_str(), name) {
            Some(elem)
        } else {
            None
        },
        NodeType::Text(_) => None,
    }
}

/// The rules that a child of the head brings.
fn style_source(node: &Node) -> (source: Option<StyleSource>)
    ensures
        source == source_of(node),
{
    if let Some(elem) = element_named(node, "link") {
        match elem.attributes.get("rel") {
            Some(rel) => if str_eq(rel.as_str(), "stylesheet") {
                match elem.attributes.get("href") {
                    Some(href) => Some(StyleSource::Link(href.clone())),
                    None => None,
                }
            } else {
                None
            },
            None => None,
        }
    } else if let Some(_) = element_named(node, "style") {
        if node.children.len() > 0 {
            match &node.children[0].node_type {
                NodeType::Text(text) => Some(StyleSource::Inline(text.clone())),
                _ => None,
            }
        } else {
            None
        }
    } else {
        None
    }
}

/// The places that the style rules of the document come from, in the order
/// of the document.
pub fn stylesheet_sources(root: &Node) -> (found: Vec<StyleSource>)
    ensures
        found@ == sources(root),
{
    let mut found: Vec<StyleSource> = Vec::new();
    if let NodeType::Element(_) = &root.node_type {
        let mut k: usize = 0;
        while k < root.children.len()
            invariant
                k <= root.children@.len(),
                found@ == sources_in_heads(root.children@.take(k as int)),
            decreases root.children@.len() - k,
        {
            let node = &root.children[k];
            assert(root.children@.take(k + 1).drop_last() =~= root.children@.take(k as int));
            if let Some(_) = element_named(node, "head") {
                let ghost before = found@;
                let mut c: usize = 0;
                while c < node.children.len()
                    invariant
                        c <= node.children@.len(),
                        found@ == before + sources_in(node.children@.take(c as int)),
                    decreases node.children@.len() - c,
                {
                    assert(node.children@.take(c + 1).drop_last() =~= node.children@.take(
                        c as int,
                    ));
                    if let Some(source) = style_source(&node.children[c]) {
                        found.push(source);
                    }
                    c = c + 1;
                }
                assert(node.children@.take(c as int) =~= node.children@);
            }
            k = k + 1;
        }
        assert(root.children@.take(k as int) =~= root.children@);
    }
    found
}

} // verus!
