//! XML documents as plain owned trees, and the adapters that read them from
//! text and write them back.

use crate::error::PatchError;
use vstd::prelude::*;

verus! {

/// An element with everything below it.
#[derive(Debug, PartialEq, Eq)]
pub struct DocumentElement {
    pub prefix: Option<String>,
    pub name: String,
    /// Attribute names and values, in the order in which they are written.
    pub attributes: Vec<(String, String)>,
    pub children: Vec<DocumentNode>,
}

/// A node of a document.
#[derive(Debug, PartialEq, Eq)]
pub enum DocumentNode {
    Element(DocumentElement),
    Comment(String),
    CData(String),
    Text(String),
    ProcessingInstruction(String, Option<String>),
}

/// What a `DocumentElement` stands for.
pub struct DocumentElementModel {
    pub prefix: Option<Seq<char>>,
    pub name: Seq<char>,
    pub attributes: Seq<(Seq<char>, Seq<char>)>,
    pub children: Seq<DocumentNodeModel>,
}

/// What a `DocumentNode` stands for.
pub enum DocumentNodeModel {
    Element(DocumentElementModel),
    Comment(Seq<char>),
    CData(Seq<char>),
    Text(Seq<char>),
    ProcessingInstruction(Seq<char>, Option<Seq<char>>),
}

/// The view of an optional string.
pub open spec fn optional_text(text: Option<String>) -> Option<Seq<char>> {
    match text {
        Some(s) => Some(s@),
        None => None,
    }
}

/// The views of a list of attributes.
pub open spec fn attribute_texts(attributes: Seq<(String, String)>) -> Seq<(Seq<char>, Seq<char>)> {
    Seq::new(attributes.len(), |i: int| (attributes[i].0@, attributes[i].1@))
}

impl View for DocumentElement {
    type V = DocumentElementModel;

    open spec fn view(&self) -> DocumentElementModel
        decreases self,
    {
        DocumentElementModel {
            prefix: optional_text(self.prefix),
            name: self.name@,
            attributes: attribute_texts(self.attributes@),
            children: Seq::new(
                self.children@.len(),
                |i: int|
                    if 0 <= i < self.children@.len() {
                        self.children@[i]@
                    } else {
                        DocumentNodeModel::Text(Seq::empty())
                    },
            ),
        }
    }
}

impl View for DocumentNode {
    type V = DocumentNodeModel;

    open spec fn view(&self) -> DocumentNodeModel
        decreases self,
    {
        match self {
            DocumentNode::Element(e) => DocumentNodeModel::Element(e@),
            DocumentNode::Comment(s) => DocumentNodeModel::Comment(s@),
            DocumentNode::CData(s) => DocumentNodeModel::CData(s@),
            DocumentNode::Text(s) => DocumentNodeModel::Text(s@),
            DocumentNode::ProcessingInstruction(target, data) => {
                DocumentNodeModel::ProcessingInstruction(target@, optional_text(*data))
            },
        }
    }
}

impl DocumentElement {
    /// The view of an element holds the views of its children.
    pub proof fn lemma_view(&self)
        ensures
            self@.prefix == optional_text(self.prefix),
            self@.name == self.name@,
            self@.attributes == attribute_texts(self.attributes@),
            self@.children.len() == self.children@.len(),
            forall|i: int|
                0 <= i < self.children@.len() ==> #[trigger] self@.children[i]
                    == self.children@[i]@,
    {
        reveal_with_fuel(<DocumentElement as View>::view, 2);
        let m = Seq::new(
            self.children@.len(),
            |i: int|
                if 0 <= i < self.children@.len() {
                    self.children@[i]@
                } else {
                    DocumentNodeModel::Text(Seq::empty())
                },
        );
        assert(m.len() == self.children@.len());
        assert(self@.children == m);
    }
}

#[verifier::external_type_specification]
#[verifier::external_body]
pub struct ExOutsideNode(xmltree::XMLNode);

/// The root element that the XML reader finds in `text`; `None` where the
/// text is not a well-formed document.
pub uninterp spec fn xml_document(text: Seq<char>) -> Option<DocumentElementModel>;

/// The text that the XML writer produces for a document whose root is `root`;
/// `None` where `root` is no element or the writer refuses to write it.
pub uninterp spec fn xml_text(root: DocumentNodeModel) -> Option<Seq<char>>;

/// What a node of the XML reader holds; of an element, its prefix, name,
/// attributes and children, without its namespaces.
pub uninterp spec fn outside_node_content(node: xmltree::XMLNode) -> DocumentNodeModel;

/// The text that the XML writer produces for a node of its own as the root of
/// a document; `None` where the node is no element or the writer refuses.
pub uninterp spec fn outside_node_text(node: xmltree::XMLNode) -> Option<Seq<char>>;

/// Trusted: `xmltree::Element::parse` on the bytes of `text`, the element
/// wrapped as a node. What it returns depends on the text alone; the contract
/// gives it a name and says that an error comes exactly where the reader
/// finds no document.
#[verifier::external_body]
fn read_outside_node(text: &str) -> (r: Result<xmltree::XMLNode, String>)
    ensures
        match xml_document(text@) {
            Some(model) => r matches Ok(node) && outside_node_content(node)
                == DocumentNodeModel::Element(model),
            None => r is Err,
        },
{
    xmltree::Element::parse(text.as_bytes()).map(xmltree::XMLNode::Element).map_err(
        |e| e.to_string(),
    )
}

/// Trusted: copies an `xmltree::XMLNode` into a `DocumentNode`, variant by
/// variant; of an element, the public fields `prefix`, `name`, `attributes`
/// and `children`.
#[verifier::external_body]
fn document_of_outside(node: &xmltree::XMLNode) -> (r: DocumentNode)
    ensures
        r@ == outside_node_content(*node),
{
    match node {
        xmltree::XMLNode::Element(e) => DocumentNode::Element(DocumentElement {
            prefix: e.prefix.clone(),
            name: e.name.clone(),
            attributes: e.attributes.iter().map(|(k, v)| (k.clone(), v.clone())).collect(),
            children: e.children.iter().map(document_of_outside).collect(),
        }),
        xmltree::XMLNode::Comment(s) => DocumentNode::Comment(s.clone()),
        xmltree::XMLNode::CData(s) => DocumentNode::CData(s.clone()),
        xmltree::XMLNode::Text(s) => DocumentNode::Text(s.clone()),
        xmltree::XMLNode::ProcessingInstruction(t, d) => DocumentNode::ProcessingInstruction(t.clone(), d.clone()),
    }
}

/// Trusted: builds an `xmltree::XMLNode` from a `DocumentNode`, variant by
/// variant; an element gets the fields of the document's element and no
/// namespace. The text that the writer produces for the result depends on
/// `node` alone and is given a name.
#[verifier::external_body]
fn outside_of_document(node: &DocumentNode) -> (r: xmltree::XMLNode)
    ensures
        outside_node_text(r) == xml_text(node@),
{
    match node {
        DocumentNode::Element(e) => xmltree::XMLNode::Element(xmltree::Element {
            prefix: e.prefix.clone(),
            namespace: None,
            namespaces: None,
            name: e.name.clone(),
            attributes: e.attributes.iter().cloned().collect(),
            children: e.children.iter().map(outside_of_document).collect(),
        }),
        DocumentNode::Comment(s) => xmltree::XMLNode::Comment(s.clone()),
        DocumentNode::CData(s) => xmltree::XMLNode::CData(s.clone()),
        DocumentNode::Text(s) => xmltree::XMLNode::Text(s.clone()),
        DocumentNode::ProcessingInstruction(t, d) => xmltree::XMLNode::ProcessingInstruction(t.clone(), d.clone()),
    }
}

/// Trusted: `xmltree::Element::write` of the element in `node` into a byte
/// buffer, and the buffer as a string. A node that is no element, an error of
/// the writer, or bytes that are no UTF-8 give `Err`.
#[verifier::external_body]
fn write_outside_node(node: &xmltree::XMLNode) -> (r: Result<String, String>)
    ensures
        match outside_node_text(*node) {
            Some(text) => r matches Ok(s) && s@ == text,
            None => r is Err,
        },
{
    let mut bytes = Vec::new();
    let element = node.as_element().ok_or(String::new())?;
    element.write(&mut bytes).map_err(|e| e.to_string())?;
    String::from_utf8(bytes).map_err(|e| e.to_string())
}

/// Reads an XML document and returns its root element.
pub fn parse_document(text: &str) -> (r: Result<DocumentElement, PatchError>)
    ensures
        match xml_document(text@) {
            Some(model) => r matches Ok(root) && root@ == model,
            None => r == Err::<DocumentElement, PatchError>(PatchError::MalformedXml),
        },
{
    match read_outside_node(text) {
        Ok(node) => match document_of_outside(&node) {
            DocumentNode::Element(root) => Ok(root),
            _ => Err(PatchError::MalformedXml),
        },
        Err(_) => Err(PatchError::MalformedXml),
    }
}

/// Writes the document whose root is `root` as text, with the XML declaration
/// in front.
pub fn write_document(root: &DocumentNode) -> (r: Result<String, PatchError>)
    ensures
        match xml_text(root@) {
            Some(text) => r matches Ok(s) && s@ == text,
            None => r == Err::<String, PatchError>(PatchError::UnwritableXml),
        },
{
    let node = outside_of_document(root);
    match write_outside_node(&node) {
        Ok(text) => Ok(text),
        Err(_) => Err(PatchError::UnwritableXml),
    }
}

} // verus!
