//! The keys of a modification value: the name of a child, and what is to be
//! done where a child of that name exists already.

use crate::error::PatchError;
use crate::patch_structure::reference_expression::parse_expression;
use crate::patch_structure::reference_expression::render_expression;
use crate::patch_structure::reference_expression::ReferenceExpression;
use crate::patch_structure::refex_segment::SegmentModel;
use crate::text::chars_of;
use crate::text::push_char;
use crate::text::push_text;
use crate::text::string_of_range;
use vstd::prelude::*;

verus! {

/// What is done with a child that a modification value names.
#[derive(Debug, Clone, Copy, PartialEq, Eq, Structural)]
pub enum ModificationType {
    /// Change the children of that name; make one where there is none.
    Modify,
    /// Leave a child of that name alone; make one where there is none.
    Replace,
    /// Make a new child in any case.
    Add,
}

impl ModificationType {
    pub fn is_modify(&self) -> (r: bool)
        ensures
            r == (*self == ModificationType::Modify),
    {
        match self {
            ModificationType::Modify => true,
            _ => false,
        }
    }

    pub fn is_replace(&self) -> (r: bool)
        ensures
            r == (*self == ModificationType::Replace),
    {
        match self {
            ModificationType::Replace => true,
            _ => false,
        }
    }
}

/// A key of a modification value.
#[derive(Debug, Clone, PartialEq, Eq)]
pub struct ModificationIdentifier {
    pub mod_type: ModificationType,
    /// The template of the child's name.
    pub identifier: ReferenceExpression,
}

/// What a `ModificationIdentifier` stands for.
pub struct ModificationIdentifierModel {
    pub mod_type: ModificationType,
    pub identifier: Seq<SegmentModel>,
}

impl View for ModificationIdentifier {
    type V = ModificationIdentifierModel;

    open spec fn view(&self) -> ModificationIdentifierModel {
        ModificationIdentifierModel { mod_type: self.mod_type, identifier: self.identifier@ }
    }
}

/// The mode that the first character of a key selects.
pub open spec fn mode_of(text: Seq<char>) -> ModificationType {
    if text.len() > 0 && text[0] == '~' {
        ModificationType::Replace
    } else if text.len() > 0 && text[0] == '+' {
        ModificationType::Add
    } else {
        ModificationType::Modify
    }
}

/// The part of a key that is the template of the name: all of it for
/// `Modify`, all but the first character otherwise.
pub open spec fn name_part(text: Seq<char>) -> Seq<char> {
    if mode_of(text) == ModificationType::Modify {
        text
    } else {
        text.subrange(1, text.len() as int)
    }
}

/// The key that `text` stands for: `~name` replaces, `+name` adds, and a
/// plain `name` modifies.
pub open spec fn parse_identifier(text: Seq<char>) -> Result<
    ModificationIdentifierModel,
    PatchError,
> {
    match parse_expression(name_part(text)) {
        Ok(identifier) => Ok(ModificationIdentifierModel { mod_type: mode_of(text), identifier }),
        Err(e) => Err(e),
    }
}

/// The name of a mode, as `to_string` writes it.
pub open spec fn mode_name(mod_type: ModificationType) -> Seq<char> {
    match mod_type {
        ModificationType::Modify => seq!['M', 'o', 'd', 'i', 'f', 'y'],
        ModificationType::Replace => seq!['R', 'e', 'p', 'l', 'a', 'c', 'e'],
        ModificationType::Add => seq!['A', 'd', 'd'],
    }
}

/// The text of a key: the name of its mode, and its template in brackets.
pub open spec fn render_identifier(identifier: ModificationIdentifierModel) -> Seq<char> {
    mode_name(identifier.mod_type) + seq!['['] + render_expression(identifier.identifier) + seq![
        ']',
    ]
}

impl ModificationIdentifier {
    /// Reads a key: `~name` replaces, `+name` adds, and a plain `name`
    /// modifies.
    pub fn from(modification_string: &str) -> (r: Result<ModificationIdentifier, PatchError>)
        ensures
            match parse_identifier(modification_string@) {
                Ok(model) => r matches Ok(identifier) && identifier@ == model,
                Err(e) => r == Err::<ModificationIdentifier, PatchError>(e),
            },
    {
        let chars = chars_of(modification_string);
        let mod_type = if chars.len() > 0 && chars[0] == '~' {
            ModificationType::Replace
        } else if chars.len() > 0 && chars[0] == '+' {
            ModificationType::Add
        } else {
            ModificationType::Modify
        };
        let start: usize = if mod_type.is_modify() {
            0
        } else {
            1
        };
        let pattern = string_of_range(&chars, start, chars.len());
        assert(pattern@ =~= name_part(modification_string@));
        match ReferenceExpression::from(pattern.as_str()) {
            Ok(identifier) => Ok(ModificationIdentifier { mod_type, identifier }),
            Err(e) => Err(e),
        }
    }

    /// The name of the mode, and the template in brackets.
    pub fn to_string(&self) -> (s: String)
        ensures
            s@ == render_identifier(self@),
    {
        let mut s = String::new();
        match self.mod_type {
            ModificationType::Modify => {
                push_char(&mut s, 'M');
                push_char(&mut s, 'o');
                push_char(&mut s, 'd');
                push_char(&mut s, 'i');
                push_char(&mut s, 'f');
                push_char(&mut s, 'y');
            },
            ModificationType::Replace => {
                push_char(&mut s, 'R');
                push_char(&mut s, 'e');
                push_char(&mut s, 'p');
                push_char(&mut s, 'l');
                push_char(&mut s, 'a');
                push_char(&mut s, 'c');
                push_char(&mut s, 'e');
            },
            ModificationType::Add => {
                push_char(&mut s, 'A');
                push_char(&mut s, 'd');
                push_char(&mut s, 'd');
            },
        }
        assert(s@ =~= mode_name(self.mod_type));
        push_char(&mut s, '[');
        let inner = self.identifier.to_string();
        push_text(&mut s, inner.as_str());
        push_char(&mut s, ']');
        assert(s@ =~= render_identifier(self@));
        s
    }
}

} // verus!
