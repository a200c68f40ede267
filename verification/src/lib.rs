//! A structural patch engine for XML documents, driven by a declarative patch
//! language written in YAML.

pub mod error;
pub mod input;
pub mod output;
pub mod patch_processor;
pub mod patch_structure;
pub mod text;
pub mod xml_structure;
pub mod yaml;

use crate::error::PatchError;
use crate::patch_processor::semantics::apply_patch;
use crate::patch_processor::PatchProcessor;
use crate::patch_structure::query::parse_patch;
use crate::xml_structure::document::write_document;
use crate::xml_structure::document::xml_document;
use crate::xml_structure::document::xml_text;
use crate::xml_structure::document::DocumentNode;
use crate::xml_structure::document::DocumentNodeModel;
use crate::xml_structure::model::tree_of_document;
use vstd::prelude::*;

verus! {

/// The text that results from applying the patch in `patch` to the document
/// in `xmltree`, or the error on the way. An empty patch leaves the document
/// as it is read and written back.
pub open spec fn patched_text(xmltree: Seq<char>, patch: Seq<char>) -> Result<
    Seq<char>,
    PatchError,
> {
    match xml_document(xmltree) {
        None => Err(PatchError::MalformedXml),
        Some(document) => match parse_patch(patch) {
            Err(e) => Err(e),
            Ok(query) => {
                let tree = tree_of_document(document);
                let patched = match query {
                    Some(query) => apply_patch(tree, 1, query),
                    None => Ok(tree),
                };
                match patched {
                    Err((_, e)) => Err(e),
                    Ok(after) => if !after.is_element(1) {
                        Err(PatchError::NotAnElement)
                    } else {
                        match xml_text(DocumentNodeModel::Element(after.element_value(1))) {
                            Some(text) => Ok(text),
                            None => Err(PatchError::UnwritableXml),
                        }
                    },
                }
            },
        },
    }
}

/// Applies the patch in `patch` to the document in `xmltree` and returns the
/// patched document as text.
pub fn patch_document(xmltree: &str, patch: &String) -> (r: Result<String, PatchError>)
    ensures
        match patched_text(xmltree@, patch@) {
            Ok(text) => r matches Ok(s) && s@ == text,
            Err(e) => r matches Err(f) && f == e,
        },
{
    let mut processor = match PatchProcessor::new(xmltree) {
        Ok(processor) => processor,
        Err(e) => {
            return Err(e);
        },
    };
    match crate::patch_structure::query::parse(patch) {
        Ok(Some(query)) => {
            match processor.apply(&query) {
                Ok(()) => {},
                Err(e) => {
                    return Err(e);
                },
            }
        },
        Ok(None) => {},
        Err(e) => {
            return Err(e);
        },
    }
    let document = match processor.xml_tree.to_xmltree() {
        Ok(document) => document,
        Err(e) => {
            return Err(e);
        },
    };
    write_document(&DocumentNode::Element(document))
}

/// Applies the patch in `patch` to the document in `xmltree` and returns the
/// patched document as text. An error comes back as a message.
pub fn patch_xml(xmltree: String, patch: String) -> (r: Result<String, String>)
    ensures
        match patched_text(xmltree@, patch@) {
            Ok(text) => r matches Ok(s) && s@ == text,
            Err(e) => r matches Err(message) && message@ == e.message_text(),
        },
{
    match patch_document(xmltree.as_str(), &patch) {
        Ok(text) => Ok(text),
        Err(e) => Err(e.message()),
    }
}

} // verus!
