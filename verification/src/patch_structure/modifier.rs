//! What a mapping may ask of the element it stands for, besides its
//! subqueries: a filter, a move and a copy.

use crate::error::PatchError;
use crate::patch_structure::filter::decode_filter;
use crate::patch_structure::filter::Filter;
use crate::patch_structure::filter::FilterVariant;
use crate::patch_structure::reference_expression::parse_expression;
use crate::text::same_text;
use crate::yaml::YamlModel;
use crate::yaml::YamlNode;
use crate::patch_structure::filter::FilterModel;
use crate::patch_structure::reference_expression::ReferenceExpression;
use crate::patch_structure::refex_segment::SegmentModel;
use vstd::prelude::*;

verus! {

/// The reserved keys `$if`, `$move` and `$copy` of a mapping.
#[derive(Debug, PartialEq, Eq)]
pub struct Modifier {
    pub filter: Option<Filter>,
    pub move_to: Option<ReferenceExpression>,
    pub copy: Option<ReferenceExpression>,
}

/// What a `Modifier` stands for.
pub struct ModifierModel {
    pub filter: Option<FilterModel>,
    pub move_to: Option<Seq<SegmentModel>>,
    pub copy: Option<Seq<SegmentModel>>,
}

/// The view of an optional template.
pub open spec fn optional_expression(expression: Option<ReferenceExpression>) -> Option<
    Seq<SegmentModel>,
> {
    match expression {
        Some(e) => Some(e@),
        None => None,
    }
}

impl View for Modifier {
    type V = ModifierModel;

    open spec fn view(&self) -> ModifierModel {
        ModifierModel {
            filter: match self.filter {
                Some(f) => Some(f@),
                None => None,
            },
            move_to: optional_expression(self.move_to),
            copy: optional_expression(self.copy),
        }
    }
}

impl Modifier {
    /// A modifier that asks nothing.
    pub fn new() -> (r: Modifier)
        ensures
            r@ == (ModifierModel { filter: None, move_to: None, copy: None }),
    {
        Modifier { filter: None, move_to: None, copy: None }
    }
}

/// The reserved keys of a mapping that have been read so far. A key that was
/// read with the value `null` has been read, and holds nothing.
pub struct ModifierDraft {
    pub filter: Option<Option<FilterModel>>,
    pub move_to: Option<Option<Seq<SegmentModel>>>,
    pub copy: Option<Option<Seq<SegmentModel>>>,
}

/// The state before any key is read.
pub open spec fn empty_modifier_draft() -> ModifierDraft {
    ModifierDraft { filter: None, move_to: None, copy: None }
}

/// Whether `key` is one of `$if`, `$move` and `$copy`.
pub open spec fn is_modifier_key(key: Seq<char>) -> bool {
    key == "$if"@ || key == "$move"@ || key == "$copy"@
}

/// The template that the value of `$move` or `$copy` stands for; none for
/// `null`.
pub open spec fn decode_optional_expression(value: YamlModel) -> Result<
    Option<Seq<SegmentModel>>,
    PatchError,
> {
    match value {
        YamlModel::Null => Ok(None),
        YamlModel::Text(text) => match parse_expression(text) {
            Ok(segments) => Ok(Some(segments)),
            Err(e) => Err(e),
        },
        _ => Err(PatchError::UnexpectedShape),
    }
}

/// The filter that the value of `$if` stands for; none for `null`.
pub open spec fn decode_optional_filter(value: YamlModel) -> Result<
    Option<FilterModel>,
    PatchError,
> {
    match value {
        YamlModel::Null => Ok(None),
        _ => match decode_filter(value, FilterVariant::And) {
            Ok(filter) => Ok(Some(filter)),
            Err(e) => Err(e),
        },
    }
}

/// The draft after the reserved key `key` was read with `value`. A key that
/// was read before is an error.
pub open spec fn decode_modifier_entry(draft: ModifierDraft, key: Seq<char>, value: YamlModel)
    -> Result<ModifierDraft, PatchError> {
    if key == "$if"@ {
        if draft.filter is Some {
            Err(PatchError::DuplicateKey)
        } else {
            match decode_optional_filter(value) {
                Ok(filter) => Ok(ModifierDraft { filter: Some(filter), ..draft }),
                Err(e) => Err(e),
            }
        }
    } else if key == "$move"@ {
        if draft.move_to is Some {
            Err(PatchError::DuplicateKey)
        } else {
            match decode_optional_expression(value) {
                Ok(expression) => Ok(ModifierDraft { move_to: Some(expression), ..draft }),
                Err(e) => Err(e),
            }
        }
    } else {
        if draft.copy is Some {
            Err(PatchError::DuplicateKey)
        } else {
            match decode_optional_expression(value) {
                Ok(expression) => Ok(ModifierDraft { copy: Some(expression), ..draft }),
                Err(e) => Err(e),
            }
        }
    }
}

/// The modifier that a draft comes to.
pub open spec fn finish_modifier(draft: ModifierDraft) -> ModifierModel {
    ModifierModel {
        filter: match draft.filter {
            Some(filter) => filter,
            None => None,
        },
        move_to: match draft.move_to {
            Some(expression) => expression,
            None => None,
        },
        copy: match draft.copy {
            Some(expression) => expression,
            None => None,
        },
    }
}

/// The reserved keys of a mapping while it is being read.
pub struct ModifierBuilder {
    pub filter_seen: bool,
    pub move_seen: bool,
    pub copy_seen: bool,
    pub modifier: Modifier,
}

impl View for ModifierBuilder {
    type V = ModifierDraft;

    open spec fn view(&self) -> ModifierDraft {
        ModifierDraft {
            filter: if self.filter_seen {
                Some(self.modifier@.filter)
            } else {
                None
            },
            move_to: if self.move_seen {
                Some(self.modifier@.move_to)
            } else {
                None
            },
            copy: if self.copy_seen {
                Some(self.modifier@.copy)
            } else {
                None
            },
        }
    }
}

/// Reads the value of `$move` or `$copy`.
pub fn optional_expression_from_yaml(value: &YamlNode) -> (r: Result<
    Option<ReferenceExpression>,
    PatchError,
>)
    ensures
        match decode_optional_expression(value@) {
            Ok(model) => r matches Ok(expression) && optional_expression(expression) == model,
            Err(e) => r matches Err(f) && f == e,
        },
{
    match value {
        YamlNode::Null => Ok(None),
        YamlNode::String(text) => match ReferenceExpression::parse(text.as_str()) {
            Ok(expression) => Ok(Some(expression)),
            Err(e) => Err(e),
        },
        _ => Err(PatchError::UnexpectedShape),
    }
}

impl ModifierBuilder {
    /// Whether nothing is held for a key that was not read.
    pub open spec fn wf(&self) -> bool {
        &&& !self.filter_seen ==> self.modifier.filter is None
        &&& !self.move_seen ==> self.modifier.move_to is None
        &&& !self.copy_seen ==> self.modifier.copy is None
    }

    /// The state before any key is read.
    pub fn new() -> (r: ModifierBuilder)
        ensures
            r.wf(),
            r@ == empty_modifier_draft(),
    {
        ModifierBuilder {
            filter_seen: false,
            move_seen: false,
            copy_seen: false,
            modifier: Modifier::new(),
        }
    }

    /// Whether `key` is one of `$if`, `$move` and `$copy`.
    pub fn is_key(key: &str) -> (r: bool)
        ensures
            r == is_modifier_key(key@),
    {
        same_text(key, "$if") || same_text(key, "$move") || same_text(key, "$copy")
    }

    /// Reads the reserved key `key` with `value`. A key that was read before
    /// is an error, and an error leaves the builder as it was.
    pub fn read(&mut self, key: &str, value: &YamlNode) -> (r: Result<(), PatchError>)
        requires
            old(self).wf(),
            is_modifier_key(key@),
        ensures
            match decode_modifier_entry(old(self)@, key@, value@) {
                Ok(draft) => r is Ok && final(self)@ == draft && final(self).wf(),
                Err(e) => r == Err::<(), PatchError>(e) && final(self)@ == old(self)@
                    && final(self).wf(),
            },
    {
        if same_text(key, "$if") {
            if self.filter_seen {
                return Err(PatchError::DuplicateKey);
            }
            let filter = match value {
                YamlNode::Null => None,
                _ => match Filter::from_yaml(value, FilterVariant::And) {
                    Ok(filter) => Some(filter),
                    Err(e) => {
                        return Err(e);
                    },
                },
            };
            self.modifier.filter = filter;
            self.filter_seen = true;
            Ok(())
        } else if same_text(key, "$move") {
            if self.move_seen {
                return Err(PatchError::DuplicateKey);
            }
            match optional_expression_from_yaml(value) {
                Ok(expression) => {
                    self.modifier.move_to = expression;
                    self.move_seen = true;
                    Ok(())
                },
                Err(e) => Err(e),
            }
        } else {
            if self.copy_seen {
                return Err(PatchError::DuplicateKey);
            }
            match optional_expression_from_yaml(value) {
                Ok(expression) => {
                    self.modifier.copy = expression;
                    self.copy_seen = true;
                    Ok(())
                },
                Err(e) => Err(e),
            }
        }
    }

    /// The modifier that was read.
    pub fn finish(self) -> (r: Modifier)
        requires
            self.wf(),
        ensures
            r@ == finish_modifier(self@),
    {
        self.modifier
    }
}

} // verus!
