//! The XML side of the engine: plain documents, and the parent-linked tree
//! that patches are applied to.

pub mod bidirectional_xml_tree;
pub mod document;
pub mod laws;
pub mod model;
pub mod xml_path;
