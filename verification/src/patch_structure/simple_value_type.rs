//! Scalar values of the patch language.

use crate::error::PatchError;
use crate::patch_structure::reference_expression::eval_expression;
use crate::patch_structure::reference_expression::parse_expression;
use crate::patch_structure::reference_expression::ReferenceExpression;
use crate::patch_structure::refex_segment::SegmentModel;
use crate::text::bool_to_string;
use crate::text::i64_to_string;
use crate::text::render_bool;
use crate::text::render_decimal;
use crate::text::render_signed;
use crate::text::u64_to_string;
use crate::xml_structure::bidirectional_xml_tree::XmlNodeData;
use crate::xml_structure::bidirectional_xml_tree::XmlTree;
use crate::xml_structure::model::DataModel;
use crate::xml_structure::model::TreeModel;
use crate::yaml::YamlModel;
use crate::yaml::YamlNode;
use vstd::prelude::*;

verus! {

/// A scalar: a template, a typed constant, or the request to remove.
#[derive(Debug, Clone, PartialEq, Eq)]
pub enum SimpleValueType {
    Pattern(ReferenceExpression),
    Boolean(bool),
    UnsignedInteger(u64),
    SignedInteger(i64),
    /// A number with a fractional part or an exponent, kept as its shortest
    /// decimal text.
    Float(String),
    Remove,
}

/// What a `SimpleValueType` stands for.
pub enum SimpleValueModel {
    Pattern(Seq<SegmentModel>),
    Boolean(bool),
    UnsignedInteger(u64),
    SignedInteger(i64),
    Float(Seq<char>),
    Remove,
}

impl View for SimpleValueType {
    type V = SimpleValueModel;

    open spec fn view(&self) -> SimpleValueModel {
        match self {
            SimpleValueType::Pattern(p) => SimpleValueModel::Pattern(p@),
            SimpleValueType::Boolean(b) => SimpleValueModel::Boolean(*b),
            SimpleValueType::UnsignedInteger(n) => SimpleValueModel::UnsignedInteger(*n),
            SimpleValueType::SignedInteger(n) => SimpleValueModel::SignedInteger(*n),
            SimpleValueType::Float(text) => SimpleValueModel::Float(text@),
            SimpleValueType::Remove => SimpleValueModel::Remove,
        }
    }
}

/// The text that a value stands for at `node`; `None` for the request to
/// remove.
pub open spec fn eval_value(tree: TreeModel, node: usize, value: SimpleValueModel) -> Result<
    Option<Seq<char>>,
    PatchError,
> {
    match value {
        SimpleValueModel::Pattern(segments) => match eval_expression(tree, node, segments) {
            Ok(text) => Ok(Some(text)),
            Err(e) => Err(e),
        },
        SimpleValueModel::Boolean(b) => Ok(Some(render_bool(b))),
        SimpleValueModel::UnsignedInteger(n) => Ok(Some(render_decimal(n as nat))),
        SimpleValueModel::SignedInteger(n) => Ok(Some(render_signed(n as int))),
        SimpleValueModel::Float(text) => Ok(Some(text)),
        SimpleValueModel::Remove => Ok(None),
    }
}

/// The scalar that a YAML value stands for: a string is a template, `null`
/// asks for removal, and a sequence or a mapping is no scalar.
pub open spec fn decode_simple(value: YamlModel) -> Result<SimpleValueModel, PatchError> {
    match value {
        YamlModel::Null => Ok(SimpleValueModel::Remove),
        YamlModel::Bool(b) => Ok(SimpleValueModel::Boolean(b)),
        YamlModel::Unsigned(n) => Ok(SimpleValueModel::UnsignedInteger(n)),
        YamlModel::Signed(n) => if n >= 0 {
            Ok(SimpleValueModel::UnsignedInteger(n as u64))
        } else {
            Ok(SimpleValueModel::SignedInteger(n))
        },
        YamlModel::Float(text) => Ok(SimpleValueModel::Float(text)),
        YamlModel::Text(text) => match parse_expression(text) {
            Ok(segments) => Ok(SimpleValueModel::Pattern(segments)),
            Err(e) => Err(e),
        },
        YamlModel::Sequence(_) => Err(PatchError::UnexpectedShape),
        YamlModel::Mapping(_) => Err(PatchError::UnexpectedShape),
    }
}

impl SimpleValueType {
    /// Reads a scalar from a YAML value.
    pub fn from_yaml(value: &YamlNode) -> (r: Result<SimpleValueType, PatchError>)
        ensures
            match decode_simple(value@) {
                Ok(model) => r matches Ok(v) && v@ == model,
                Err(e) => r matches Err(f) && f == e,
            },
    {
        match value {
            YamlNode::Null => Ok(SimpleValueType::Remove),
            YamlNode::Bool(b) => Ok(SimpleValueType::Boolean(*b)),
            YamlNode::Unsigned(n) => Ok(SimpleValueType::UnsignedInteger(*n)),
            YamlNode::Signed(n) => if *n >= 0 {
                Ok(SimpleValueType::UnsignedInteger(*n as u64))
            } else {
                Ok(SimpleValueType::SignedInteger(*n))
            },
            YamlNode::Float(text) => Ok(SimpleValueType::Float(text.clone())),
            YamlNode::String(text) => match ReferenceExpression::parse(text.as_str()) {
                Ok(expression) => Ok(SimpleValueType::Pattern(expression)),
                Err(e) => Err(e),
            },
            YamlNode::Sequence(_) => Err(PatchError::UnexpectedShape),
            YamlNode::Mapping(_) => Err(PatchError::UnexpectedShape),
        }
    }

    /// The text that the value stands for at the node `current`; `None` for
    /// the request to remove.
    pub fn eval_to_string(&self, tree: &XmlTree, current: usize) -> (r: Result<
        Option<String>,
        PatchError,
    >)
        requires
            tree.wf(),
            current < tree.nodes.len(),
        ensures
            match eval_value(tree@, current, self@) {
                Ok(Some(text)) => r matches Ok(Some(s)) && s@ == text,
                Ok(None) => r == Ok::<Option<String>, PatchError>(None),
                Err(e) => r == Err::<Option<String>, PatchError>(e),
            },
    {
        match self {
            SimpleValueType::Pattern(p) => match p.evaluate(tree, current) {
                Ok(text) => Ok(Some(text)),
                Err(e) => Err(e),
            },
            SimpleValueType::Boolean(b) => Ok(Some(bool_to_string(*b))),
            SimpleValueType::UnsignedInteger(ui) => Ok(Some(u64_to_string(*ui))),
            SimpleValueType::SignedInteger(si) => Ok(Some(i64_to_string(*si))),
            SimpleValueType::Float(fl) => Ok(Some(fl.clone())),
            SimpleValueType::Remove => Ok(None),
        }
    }

    /// The text node that the value stands for at the node `current`; `None`
    /// for the request to remove.
    pub fn to_xml_node(&self, tree: &XmlTree, current: usize) -> (r: Result<
        Option<XmlNodeData>,
        PatchError,
    >)
        requires
            tree.wf(),
            current < tree.nodes.len(),
        ensures
            match eval_value(tree@, current, self@) {
                Ok(Some(text)) => r matches Ok(Some(data)) && data@ == DataModel::Text(text),
                Ok(None) => r matches Ok(None),
                Err(e) => r matches Err(f) && f == e,
            },
    {
        match self.eval_to_string(tree, current) {
            Ok(Some(text)) => Ok(Some(XmlNodeData::Text(text))),
            Ok(None) => Ok(None),
            Err(e) => Err(e),
        }
    }
}

} // verus!
