//! Bit fields of a register.

use crate::output::basic_types::parse_constant;
use crate::output::basic_types::AccessType;
use crate::output::basic_types::DimArrayIndex;
use crate::output::basic_types::EnumeratedValue;
use crate::output::basic_types::EnumeratedValuesUsage;
use crate::output::basic_types::ModifiedWriteValues;
use crate::output::basic_types::ReadAction;
use crate::output::basic_types::SvdConstant;
use crate::output::basic_types::WriteConstraint;
use crate::patch_structure::regex::regex_compiles;
use crate::patch_structure::regex::regex_named_group_texts;
use crate::patch_structure::regex::Regex;
use crate::text::push_text;
use vstd::prelude::*;

verus! {

/// A bit field of a register. Its position is given either by offset and
/// width, or by its least and most significant bit, or by a text of the form
/// `[msb:lsb]`.
#[derive(Debug, Eq, PartialEq, Clone)]
pub struct Field {
    pub derived_from: Option<String>,
    pub dim: Option<SvdConstant>,
    pub dim_increment: Option<SvdConstant>,
    pub dim_index: Option<SvdConstant>,
    pub dim_name: Option<String>,
    pub dim_array_index: Option<DimArrayIndex>,
    pub name: String,
    pub description: Option<String>,
    pub bit_offset: Option<SvdConstant>,
    pub bit_width: Option<SvdConstant>,
    pub lsb: Option<SvdConstant>,
    pub msb: Option<SvdConstant>,
    pub bit_range: Option<String>,
    pub access: Option<AccessType>,
    pub modified_write_values: Option<ModifiedWriteValues>,
    pub write_constraint: Option<WriteConstraint>,
    pub read_action: Option<ReadAction>,
    pub enumerated_values: Option<Vec<EnumeratedValues>>,
}

/// The position of a field in its register.
#[derive(Debug, Eq, PartialEq, Clone, Copy, Structural)]
pub enum FieldMask {
    OffsetWidth { offset: SvdConstant, width: Option<SvdConstant> },
    LsbMsb { lsb: SvdConstant, msb: SvdConstant },
    Unset,
}

/// Names for the values of a field.
#[derive(Debug, Eq, PartialEq, Clone)]
pub struct EnumeratedValues {
    pub derived_from: Option<String>,
    pub name: Option<String>,
    pub header_enum_name: Option<String>,
    pub usage: Option<EnumeratedValuesUsage>,
    pub enumerated_value: Vec<EnumeratedValue>,
}

/// Why the position of a field is not understood.
#[derive(Debug, Eq, PartialEq, Clone, Copy, Structural)]
pub enum MaskError {
    /// The text of the bit range has not the form `[msb:lsb]`.
    NoMatch,
    /// One of the two bounds of the bit range is no number.
    InvalidBounds,
    /// The position is given in more than one way, or in part only.
    InvalidSetup,
}

/// The regular expression that a bit range has to match.
pub open spec fn bit_range_pattern() -> Seq<char> {
    "\\[(?P<msb>(.+)):(?P<lsb>(.+))]"@
}

/// The position that the text of a bit range stands for: the two bounds are
/// the groups `msb` and `lsb` of the first match of the pattern.
pub open spec fn mask_of_range(range: Seq<char>) -> Result<FieldMask, MaskError> {
    let msbs = regex_named_group_texts(bit_range_pattern(), range, "msb"@);
    let lsbs = regex_named_group_texts(bit_range_pattern(), range, "lsb"@);
    if !regex_compiles(bit_range_pattern()) || msbs.len() == 0 || lsbs.len() == 0 {
        Err(MaskError::NoMatch)
    } else {
        match (msbs[0], lsbs[0]) {
            (Some(msb), Some(lsb)) => match (parse_constant(msb), parse_constant(lsb)) {
                (Ok(msb), Ok(lsb)) => Ok(
                    FieldMask::LsbMsb {
                        lsb: SvdConstant { value: lsb as u32 },
                        msb: SvdConstant { value: msb as u32 },
                    },
                ),
                _ => Err(MaskError::InvalidBounds),
            },
            _ => Err(MaskError::InvalidBounds),
        }
    }
}

/// The position of a field, from whichever of the three descriptions is
/// given; an error where more than one is given, or one in part only.
pub open spec fn mask_of(field: Field) -> Result<FieldMask, MaskError> {
    match (field.bit_offset, field.bit_width, field.lsb, field.msb, field.bit_range) {
        (Some(offset), width, None, None, None) => Ok(FieldMask::OffsetWidth { offset, width }),
        (None, None, Some(lsb), Some(msb), None) => Ok(FieldMask::LsbMsb { lsb, msb }),
        (None, None, None, None, Some(range)) => mask_of_range(range@),
        (None, None, None, None, None) => Ok(FieldMask::Unset),
        _ => Err(MaskError::InvalidSetup),
    }
}

/// The message for a bit range that has not the form `[msb:lsb]`.
pub open spec fn no_match_message(range: Seq<char>) -> Seq<char> {
    "Invalid format for bit range pattern: Could not match regular expression: "@ + range
}

/// The message for a bit range whose bounds are no numbers.
pub open spec fn invalid_bounds_message(range: Seq<char>) -> Seq<char> {
    "Invalid format for bit range pattern: Could not convert msb or lsb in SvdConstant: "@ + range
}

/// The message for a position that is given in more than one way.
pub open spec fn invalid_setup_message() -> Seq<char> {
    "Invalid mask setup: the position of a field is given by bit_offset and bit_width, or by lsb and msb, or by bit_range, and in one of these ways only"@
}

/// The message of an error on the field `field`.
pub open spec fn mask_error_message(field: Field, error: MaskError) -> Seq<char> {
    match error {
        MaskError::NoMatch => no_match_message(field.bit_range->Some_0@),
        MaskError::InvalidBounds => invalid_bounds_message(field.bit_range->Some_0@),
        MaskError::InvalidSetup => invalid_setup_message(),
    }
}

/// A message, made of what it begins with and the bit range.
fn range_message(head: &str, range: &str) -> (s: String)
    ensures
        s@ == head@ + range@,
{
    let mut s = String::new();
    push_text(&mut s, head);
    push_text(&mut s, range);
    assert(s@ =~= head@ + range@);
    s
}

/// Reads the position that the text of a bit range stands for.
fn read_range(range: &str) -> (r: Result<FieldMask, MaskError>)
    ensures
        r == mask_of_range(range@),
{
    let re = match Regex::unanchored("\\[(?P<msb>(.+)):(?P<lsb>(.+))]") {
        Ok(re) => re,
        Err(_) => {
            return Err(MaskError::NoMatch);
        },
    };
    let msbs = re.named_group_texts(range, "msb");
    let lsbs = re.named_group_texts(range, "lsb");
    if msbs.len() == 0 || lsbs.len() == 0 {
        return Err(MaskError::NoMatch);
    }
    let ghost msb_texts = crate::patch_structure::regex::optional_texts(msbs@);
    let ghost lsb_texts = crate::patch_structure::regex::optional_texts(lsbs@);
    assert(msb_texts[0] == (match msbs@[0] {
        Some(s) => Some(s@),
        None => None,
    }));
    assert(lsb_texts[0] == (match lsbs@[0] {
        Some(s) => Some(s@),
        None => None,
    }));
    match (&msbs[0], &lsbs[0]) {
        (Some(msb), Some(lsb)) => {
            let msb = SvdConstant::from_string(msb.clone());
            let lsb = SvdConstant::from_string(lsb.clone());
            match (msb, lsb) {
                (Ok(msb), Ok(lsb)) => Ok(FieldMask::LsbMsb { lsb, msb }),
                _ => Err(MaskError::InvalidBounds),
            }
        },
        _ => Err(MaskError::InvalidBounds),
    }
}

impl Field {
    /// The position of the field, or why it is not understood.
    pub fn find_mask(&self) -> (r: Result<FieldMask, MaskError>)
        ensures
            r == mask_of(*self),
    {
        match (&self.bit_offset, &self.bit_width, &self.lsb, &self.msb, &self.bit_range) {
            (Some(offset), width, None, None, None) => Ok(
                FieldMask::OffsetWidth { offset: *offset, width: *width },
            ),
            (None, None, Some(lsb), Some(msb), None) => Ok(
                FieldMask::LsbMsb { lsb: *lsb, msb: *msb },
            ),
            (None, None, None, None, Some(pattern)) => read_range(pattern.as_str()),
            (None, None, None, None, None) => Ok(FieldMask::Unset),
            _ => Err(MaskError::InvalidSetup),
        }
    }

    /// The position of the field, or a message that says why it is not
    /// understood.
    pub fn try_to_get_mask(&self) -> (r: Result<FieldMask, String>)
        ensures
            match mask_of(*self) {
                Ok(mask) => r == Ok::<FieldMask, String>(mask),
                Err(e) => r matches Err(message) && message@ == mask_error_message(*self, e),
            },
    {
        match self.find_mask() {
            Ok(mask) => Ok(mask),
            Err(MaskError::InvalidSetup) => {
                let mut s = String::new();
                push_text(
                    &mut s,
                    "Invalid mask setup: the position of a field is given by bit_offset and bit_width, or by lsb and msb, or by bit_range, and in one of these ways only",
                );
                assert(s@ =~= invalid_setup_message());
                Err(s)
            },
            Err(e) => {
                let range = match &self.bit_range {
                    Some(range) => range.as_str(),
                    None => "",
                };
                match e {
                    MaskError::NoMatch => Err(
                        range_message(
                            "Invalid format for bit range pattern: Could not match regular expression: ",
                            range,
                        ),
                    ),
                    _ => Err(
                        range_message(
                            "Invalid format for bit range pattern: Could not convert msb or lsb in SvdConstant: ",
                            range,
                        ),
                    ),
                }
            },
        }
    }

    /// The position of a field whose position is understood.
    pub fn get_mask(&self) -> (r: FieldMask)
        requires
            mask_of(*self) is Ok,
        ensures
            Ok::<FieldMask, MaskError>(r) == mask_of(*self),
    {
        match self.find_mask() {
            Ok(mask) => mask,
            Err(_) => FieldMask::Unset,
        }
    }

    /// The position of the field; `None` where it is not understood.
    pub fn checked_mask(&self) -> (r: Option<FieldMask>)
        ensures
            match mask_of(*self) {
                Ok(mask) => r == Some(mask),
                Err(_) => r is None,
            },
    {
        if self.post_check().is_ok() {
            Some(self.get_mask())
        } else {
            None
        }
    }

    /// Checks what reading a description cannot check: that the position of
    /// the field is described in one of the ways that are understood.
    pub fn post_check(&self) -> (r: Result<(), String>)
        ensures
            r is Ok <==> mask_of(*self) is Ok,
            r matches Err(message) ==> message@ == mask_error_message(
                *self,
                mask_of(*self)->Err_0,
            ),
    {
        match self.try_to_get_mask() {
            Ok(_) => Ok(()),
            Err(message) => Err(message),
        }
    }
}

} // verus!
