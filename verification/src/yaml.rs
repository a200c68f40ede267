//! YAML values as the patch language sees them, and the reader that produces
//! them from text.

use crate::error::PatchError;
use serde::__private229::de::{Content, ContentVisitor};
use serde::de::DeserializeSeed;
use serde_yaml::Deserializer;
use vstd::prelude::*;

verus! {

/// A YAML value. A mapping keeps its entries in the order in which they were
/// written and may hold a key several times.
#[derive(Debug, PartialEq, Eq)]
pub enum YamlNode {
    Null,
    Bool(bool),
    Unsigned(u64),
    Signed(i64),
    /// A number with a fractional part or an exponent, as its shortest decimal
    /// text.
    Float(String),
    String(String),
    Sequence(Vec<YamlNode>),
    Mapping(Vec<(YamlNode, YamlNode)>),
}

/// What a `YamlNode` stands for.
pub enum YamlModel {
    Null,
    Bool(bool),
    Unsigned(u64),
    Signed(i64),
    Float(Seq<char>),
    Text(Seq<char>),
    Sequence(Seq<YamlModel>),
    Mapping(Seq<(YamlModel, YamlModel)>),
}

impl View for YamlNode {
    type V = YamlModel;

    open spec fn view(&self) -> YamlModel
        decreases self,
    {
        match self {
            YamlNode::Null => YamlModel::Null,
            YamlNode::Bool(b) => YamlModel::Bool(*b),
            YamlNode::Unsigned(n) => YamlModel::Unsigned(*n),
            YamlNode::Signed(n) => YamlModel::Signed(*n),
            YamlNode::Float(s) => YamlModel::Float(s@),
            YamlNode::String(s) => YamlModel::Text(s@),
            YamlNode::Sequence(items) => YamlModel::Sequence(
                Seq::new(
                    items@.len(),
                    |i: int|
                        if 0 <= i < items@.len() {
                            items@[i]@
                        } else {
                            YamlModel::Null
                        },
                ),
            ),
            YamlNode::Mapping(entries) => YamlModel::Mapping(
                Seq::new(
                    entries@.len(),
                    |i: int|
                        if 0 <= i < entries@.len() {
                            (entries@[i].0@, entries@[i].1@)
                        } else {
                            (YamlModel::Null, YamlModel::Null)
                        },
                ),
            ),
        }
    }
}

impl YamlNode {
    /// The view of a sequence or a mapping holds the views of its members.
    pub proof fn lemma_view(&self)
        ensures
            self matches YamlNode::Sequence(items) ==> self@ is Sequence
                && self@->Sequence_0.len() == items@.len() && forall|i: int|
                0 <= i < items@.len() ==> #[trigger] self@->Sequence_0[i] == items@[i]@,
            self matches YamlNode::Mapping(entries) ==> self@ is Mapping
                && self@->Mapping_0.len() == entries@.len() && forall|i: int|
                0 <= i < entries@.len() ==> #[trigger] self@->Mapping_0[i] == (
                    entries@[i].0@,
                    entries@[i].1@,
                ),
    {
        reveal_with_fuel(<YamlNode as View>::view, 2);
        match self {
            YamlNode::Sequence(items) => {
                let m = Seq::new(
                    items@.len(),
                    |i: int|
                        if 0 <= i < items@.len() {
                            items@[i]@
                        } else {
                            YamlModel::Null
                        },
                );
                assert(m.len() == items@.len());
                assert(self@->Sequence_0 == m);
            },
            YamlNode::Mapping(entries) => {
                let m = Seq::new(
                    entries@.len(),
                    |i: int|
                        if 0 <= i < entries@.len() {
                            (entries@[i].0@, entries@[i].1@)
                        } else {
                            (YamlModel::Null, YamlModel::Null)
                        },
                );
                assert(m.len() == entries@.len());
                assert(self@->Mapping_0 == m);
            },
            _ => {},
        }
    }
}

/// serde's buffer for a value of any shape, as a reader hands it over. It is
/// the buffer that serde's derived code uses, and it stands in a module that
/// serde names after its own version.
#[verifier::external_type_specification]
#[verifier::external_body]
pub struct ExYamlContent<'de>(serde::__private229::de::Content<'de>);

/// The value that the YAML reader finds in `text`; `None` where the text is
/// not a YAML document.
pub uninterp spec fn yaml_document(text: Seq<char>) -> Option<YamlModel>;

/// What a value handed over by the YAML reader holds.
pub uninterp spec fn yaml_content(content: Content<'_>) -> YamlModel;

/// Trusted: `serde_yaml::Deserializer::from_str`, read by serde's
/// `ContentVisitor`. The visitor records every value that the reader hands
/// over as it comes: each entry of a mapping in the order of the text, a key
/// that occurs twice included. What comes back depends on the text alone; the
/// contract gives it a name and says that an error comes exactly where the
/// reader finds no document.
#[verifier::external_body]
fn read_yaml_content(text: &str) -> (r: Result<Content<'_>, String>)
    ensures
        match yaml_document(text@) {
            Some(model) => r matches Ok(content) && yaml_content(content) == model,
            None => r is Err,
        },
{
    ContentVisitor::new().deserialize(Deserializer::from_str(text)).map_err(|e| e.to_string())
}

/// Trusted: copies a `Content` into a `YamlNode`, variant by variant. The
/// reader hands over `Unit` for a null, `Bool`, `U64`, `I64`, `F64` (kept as
/// the text that std prints for it), `String`, `Seq` and `Map`; the variants
/// that it never makes stand for a null.
#[verifier::external_body]
fn node_of_yaml_content(content: &Content<'_>) -> (r: YamlNode)
    ensures
        r@ == yaml_content(*content),
{
    match content {
        Content::Bool(b) => YamlNode::Bool(*b),
        Content::U64(n) => YamlNode::Unsigned(*n),
        Content::I64(n) => YamlNode::Signed(*n),
        Content::F64(x) => YamlNode::Float(x.to_string()),
        Content::String(s) => YamlNode::String(s.clone()),
        Content::Seq(v) => YamlNode::Sequence(v.iter().map(node_of_yaml_content).collect()),
        Content::Map(m) => YamlNode::Mapping(
            m.iter().map(|(k, v)| (node_of_yaml_content(k), node_of_yaml_content(v))).collect(),
        ),
        _ => YamlNode::Null,
    }
}

/// Reads one YAML document.
pub fn parse_yaml(text: &str) -> (r: Result<YamlNode, PatchError>)
    ensures
        match yaml_document(text@) {
            Some(model) => r matches Ok(node) && node@ == model,
            None => r == Err::<YamlNode, PatchError>(PatchError::MalformedYaml),
        },
{
    match read_yaml_content(text) {
        Ok(content) => Ok(node_of_yaml_content(&content)),
        Err(_) => Err(PatchError::MalformedYaml),
    }
}

} // verus!
