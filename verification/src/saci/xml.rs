//! An XML document as a flat list of its nodes, each as plain values.

use vstd::prelude::*;

verus! {

/// One node of an XML document.
#[derive(Debug)]
pub struct XmlNode {
    /// The node's identity within its document.
    pub id: usize,
    /// The identity of its parent, if any.
    pub parent: Option<usize>,
    /// The local name, when the node is an element.
    pub name: Option<String>,
    /// The element's attributes as (local name, value), in document order.
    pub attributes: Vec<(String, String)>,
    /// All text below the node, depth first.
    pub text: String,
}

/// A node as characters.
pub struct XmlNodeModel {
    pub id: usize,
    pub parent: Option<usize>,
    pub name: Option<Seq<char>>,
    pub attributes: Seq<(Seq<char>, Seq<char>)>,
    pub text: Seq<char>,
}

/// The characters of a list of attribute pairs.
pub open spec fn attr_pair_views(s: Seq<(String, String)>) -> Seq<(Seq<char>, Seq<char>)> {
    s.map_values(|p: (String, String)| (p.0@, p.1@))
}

impl View for XmlNode {
    type V = XmlNodeModel;

    open spec fn view(&self) -> XmlNodeModel {
        XmlNodeModel {
            id: self.id,
            parent: self.parent,
            name: match self.name {
                Some(n) => Some(n@),
                None => None,
            },
            attributes: attr_pair_views(self.attributes@),
            text: self.text@,
        }
    }
}

/// The models of a list of nodes.
pub open spec fn node_views(s: Seq<XmlNode>) -> Seq<XmlNodeModel> {
    s.map_values(|n: XmlNode| n@)
}

/// What uppsala makes of `xml`: its document element followed by every node
/// below it in depth-first pre-order; `None` when the text does not parse or
/// has no document element.
pub uninterp spec fn spec_xml_nodes(xml: Seq<char>) -> Option<Seq<XmlNodeModel>>;

/// What `str::trim` leaves of `s`.
pub uninterp spec fn spec_trim(s: Seq<char>) -> Seq<char>;

/// Calls `uppsala::parse`, `Document::document_element` and
/// `Document::descendants`, and hands each node out as an [`XmlNode`]
/// (`NodeId::index`, `Document::parent`, the element's local name and
/// attributes, `Document::text_content_deep`).
///
/// Claimed: the result is a function of the text alone, named by
/// [`spec_xml_nodes`].
#[verifier::external_body]
pub(crate) fn xml_nodes(xml: &str) -> (r: Option<Vec<XmlNode>>)
    ensures
        match r {
            Some(v) => spec_xml_nodes(xml@) == Some(node_views(v@)),
            None => spec_xml_nodes(xml@) is None,
        },
{
    let doc = uppsala::parse(xml).ok()?;
    let root = doc.document_element()?;
    let mut ids = vec![root];
    ids.extend(doc.descendants(root));
    Some(ids.iter().map(|&id| XmlNode {
        id: id.index(),
        parent: doc.parent(id).map(|p| p.index()),
        name: doc.element(id).map(|e| e.name.local_name.to_string()),
        attributes: doc.element(id).map(|e| e.attributes.iter().map(|a| (a.name.local_name.to_string(), a.value.to_string())).collect()).unwrap_or_default(),
        text: doc.text_content_deep(id),
    }).collect())
}

/// Calls `str::trim`.
///
/// Claimed: the result is a function of `s` alone, named by [`spec_trim`].
#[verifier::external_body]
pub(crate) fn trim(s: &str) -> (r: String)
    ensures
        r@ == spec_trim(s@),
{
    s.trim().to_string()
}

} // verus!
