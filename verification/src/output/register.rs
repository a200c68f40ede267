//! Registers.

use crate::output::basic_types::AccessType;
use crate::output::basic_types::DataType;
use crate::output::basic_types::DimArrayIndex;
use crate::output::basic_types::ModifiedWriteValues;
use crate::output::basic_types::Protection;
use crate::output::basic_types::ReadAction;
use crate::output::basic_types::SvdConstant;
use crate::output::basic_types::WriteConstraint;
use crate::output::field::mask_error_message;
use crate::output::field::mask_of;
use crate::output::field::Field;
use vstd::prelude::*;

verus! {

/// A register of a peripheral.
#[derive(Debug, Clone, Eq, PartialEq)]
pub struct Register {
    pub derived_from: Option<String>,
    pub dim: Option<SvdConstant>,
    pub dim_increment: Option<SvdConstant>,
    pub dim_index: Option<SvdConstant>,
    pub dim_name: Option<String>,
    pub dim_array_index: Option<DimArrayIndex>,
    pub name: String,
    pub display_name: String,
    pub description: String,
    pub alternate_group: Option<String>,
    pub alternate_register: Option<String>,
    pub address_offset: SvdConstant,
    pub size: Option<SvdConstant>,
    pub access: Option<AccessType>,
    pub protection: Option<Protection>,
    pub reset_value: Option<SvdConstant>,
    pub reset_mask: Option<SvdConstant>,
    pub data_type: Option<DataType>,
    pub modified_write_values: Option<ModifiedWriteValues>,
    pub write_constraint: Option<WriteConstraint>,
    pub read_action: Option<ReadAction>,
    pub fields: Option<Fields>,
}

/// The fields of a register.
#[derive(Debug, Clone, Eq, PartialEq)]
pub struct Fields {
    pub field: Vec<Field>,
}

/// Whether the position of each of `fields[..count]` is described in one of
/// the ways that are understood.
pub open spec fn masks_are_valid(fields: Seq<Field>, count: int) -> bool {
    forall|i: int| 0 <= i < count && i < fields.len() ==> mask_of(#[trigger] fields[i]) is Ok
}

/// Whether `fields[i]` is the first field whose position is not understood,
/// and `message` says why.
pub open spec fn is_first_failure(fields: Seq<Field>, i: int, message: Seq<char>) -> bool {
    &&& masks_are_valid(fields, i)
    &&& mask_of(fields[i]) matches Err(e) && message == mask_error_message(fields[i], e)
}

impl Register {
    /// Checks what reading a description cannot check: that the position of
    /// every field is described in one of the ways that are understood. The
    /// error is the message of the first field that fails.
    pub fn post_check(&self) -> (r: Result<(), String>)
        ensures
            r is Ok <==> (self.fields matches Some(f) ==> masks_are_valid(
                f.field@,
                f.field@.len() as int,
            )),
            r matches Err(message) ==> exists|i: int|
                0 <= i < self.fields->Some_0.field@.len() && is_first_failure(
                    self.fields->Some_0.field@,
                    i,
                    message@,
                ),
    {
        match &self.fields {
            None => {},
            Some(f) => {
                let mut i: usize = 0;
                while i < f.field.len()
                    invariant
                        i <= f.field.len(),
                        self.fields is Some,
                        self.fields->Some_0 == *f,
                        masks_are_valid(f.field@, i as int),
                    decreases f.field.len() - i,
                {
                    match f.field[i].post_check() {
                        Ok(()) => {},
                        Err(message) => {
                            proof {
                                assert(mask_of(f.field@[i as int]) is Err);
                                assert(!masks_are_valid(f.field@, f.field@.len() as int));
                                assert(is_first_failure(f.field@, i as int, message@));
                            }
                            return Err(message);
                        },
                    }
                    i += 1;
                }
            },
        }
        Ok(())
    }
}

} // verus!
