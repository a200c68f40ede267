//! Patches on a device description, and how they are merged into it.

use crate::input::common::AccessType;
use crate::input::common::EnumeratedValuesUsage;
use crate::input::common::ModifiedWriteValues;
use crate::input::common::PatchType;
use crate::input::common::ReadAction;
use crate::input::common::RegExStruct;
use crate::input::common::WriteConstraint;
use crate::input::svd;
use crate::input::svd::field_models;
use crate::input::svd::optional_values;
use crate::input::svd::peripheral_models;
use crate::input::svd::register_models;
use crate::input::svd::EnumeratedValuesModel;
use crate::input::svd::FieldModel;
use crate::input::svd::PeripheralModel;
use crate::input::svd::RegisterModel;
use crate::input::svd::Svd;
use crate::patch_structure::regex::regex_matches;
use vstd::prelude::*;

verus! {

/// A patch on a device description: where the description lies, and what is
/// to be changed in it.
#[derive(Debug, Eq, PartialEq)]
pub struct Config {
    pub svd: String,
    pub device: Device,
}

/// Patches on the peripherals of a device, by selector, in the order in
/// which they are written.
#[derive(Debug, Eq, PartialEq)]
pub struct Device {
    pub peripherals: Vec<(RegExStruct, Peripheral)>,
}

/// A patch on a peripheral.
#[derive(Debug, Eq, PartialEq)]
pub struct Peripheral {
    pub patch_type: Option<PatchType>,
    pub derived_from: Option<String>,
    pub version: Option<String>,
    pub description: Option<String>,
    pub group_name: Option<String>,
    pub prepend_to_name: Option<String>,
    pub append_to_name: Option<String>,
    pub disable_condition: Option<String>,
    pub registers: Vec<(RegExStruct, Register)>,
}

/// A patch on a register.
#[derive(Debug, Eq, PartialEq)]
pub struct Register {
    pub patch_type: Option<PatchType>,
    pub derived_from: Option<String>,
    pub display_name: Option<String>,
    pub description: Option<String>,
    pub access: Option<AccessType>,
    pub alternate_group: Option<String>,
    pub address_offset: Option<u32>,
    pub modified_write_values: Option<ModifiedWriteValues>,
    pub write_constraint: Option<WriteConstraint>,
    pub read_action: Option<ReadAction>,
    pub fields: Vec<(RegExStruct, Field)>,
}

/// A patch on a field.
#[derive(Debug, Eq, PartialEq)]
pub struct Field {
    pub patch_type: Option<PatchType>,
    pub derived_from: Option<String>,
    pub description: Option<String>,
    pub access: Option<AccessType>,
    pub modified_write_values: Option<ModifiedWriteValues>,
    pub write_constraint: Option<WriteConstraint>,
    pub read_action: Option<ReadAction>,
    pub enumerated_values: Option<EnumeratedValues>,
    pub enumerated_values2: Option<EnumeratedValues>,
}

/// A patch on the names for the values of a field.
#[derive(Debug, Eq, PartialEq)]
pub struct EnumeratedValues {
    pub _patch_type: Option<PatchType>,
    pub name: Option<String>,
    pub derived_from: Option<String>,
    pub usage: Option<EnumeratedValuesUsage>,
    pub enumerated_value: Vec<(RegExStruct, EnumeratedValue)>,
}

/// A patch on the name for one value.
#[derive(Debug, Eq, PartialEq)]
pub enum EnumeratedValue {
    Value(u32),
    ValueDescription(u32, String),
    DefaultDescription(String),
    Default,
}

/// The property after a patch: what the patch holds, or, where it holds
/// nothing, what was there.
pub open spec fn picked<T>(patch: Option<T>, target: Option<T>) -> Option<T> {
    if patch is Some {
        patch
    } else {
        target
    }
}

/// The property after a patch: what the patch holds, or, where it holds
/// nothing, what was there.
pub open spec fn picked_value<T>(patch: Option<T>, target: T) -> T {
    match patch {
        Some(v) => v,
        None => target,
    }
}

/// A copy of an optional string.
fn copy_text(text: &Option<String>) -> (r: Option<String>)
    ensures
        r == *text,
{
    match text {
        Some(s) => Some(s.clone()),
        None => None,
    }
}

/// The name for a value after a patch: a patch with a value names that
/// value, a patch without names all values that have no name; a description
/// in the patch is taken over.
pub open spec fn merged_enum_value(patch: EnumeratedValue, target: svd::EnumeratedValue)
    -> svd::EnumeratedValue {
    match patch {
        EnumeratedValue::Value(v) => svd::EnumeratedValue {
            value: Some(v),
            is_default: Some(false),
            ..target
        },
        EnumeratedValue::ValueDescription(v, d) => svd::EnumeratedValue {
            value: Some(v),
            description: Some(d),
            is_default: Some(false),
            ..target
        },
        EnumeratedValue::DefaultDescription(d) => svd::EnumeratedValue {
            description: Some(d),
            is_default: Some(true),
            ..target
        },
        EnumeratedValue::Default => svd::EnumeratedValue { is_default: Some(true), ..target },
    }
}

/// A list as it is; the view of a list of names for values.
pub open spec fn enum_value_models(values: Seq<svd::EnumeratedValue>) -> Seq<svd::EnumeratedValue> {
    Seq::new(values.len(), |i: int| values[i])
}

/// The targets after `patch` was merged into those whose name `selector`
/// matches.
pub open spec fn merge_enum_value_entry(selector: Seq<char>, patch: EnumeratedValue, targets: Seq<svd::EnumeratedValue>) -> Seq<svd::EnumeratedValue> {
    Seq::new(
        targets.len(),
        |j: int|
            if regex_matches(selector, targets[j].name@) {
                merged_enum_value(patch, targets[j])
            } else {
                targets[j]
            },
    )
}

/// The targets after the patches `entries[from..]` were merged into them, in
/// order.
pub open spec fn merge_enum_value_entries(entries: Seq<(RegExStruct, EnumeratedValue)>, targets: Seq<svd::EnumeratedValue>, from: int)
    -> Seq<svd::EnumeratedValue>
    decreases entries.len() - from,
{
    if from < 0 || from >= entries.len() {
        targets
    } else {
        merge_enum_value_entries(
            entries,
            merge_enum_value_entry(entries[from].0.regex@, entries[from].1, targets),
            from + 1,
        )
    }
}

/// No names for values.
pub open spec fn no_values() -> EnumeratedValuesModel {
    EnumeratedValuesModel {
        name: None,
        derived_from: None,
        usage: None,
        enumerated_value: Seq::empty(),
    }
}

/// The names for the values of a field after a patch.
pub open spec fn merged_enum_values(patch: EnumeratedValues, target: EnumeratedValuesModel)
    -> EnumeratedValuesModel {
    EnumeratedValuesModel {
        name: picked(patch.name, target.name),
        derived_from: picked(patch.derived_from, target.derived_from),
        usage: picked(patch.usage, target.usage),
        enumerated_value: merge_enum_value_entries(
            patch.enumerated_value@,
            target.enumerated_value,
            0,
        ),
    }
}

/// The optional names for values after an optional patch: a patch on names
/// that are not there makes them.
pub open spec fn merged_optional_values(
    patch: Option<EnumeratedValues>,
    target: Option<EnumeratedValuesModel>,
) -> Option<EnumeratedValuesModel> {
    match patch {
        Some(p) => Some(
            merged_enum_values(
                p,
                match target {
                    Some(t) => t,
                    None => no_values(),
                },
            ),
        ),
        None => target,
    }
}

/// The field after a patch.
pub open spec fn merged_field(patch: Field, target: FieldModel) -> FieldModel {
    FieldModel {
        derived_from: picked(patch.derived_from, target.derived_from),
        description: picked(patch.description, target.description),
        access: picked(patch.access, target.access),
        modified_write_values: picked(patch.modified_write_values, target.modified_write_values),
        write_constraint: picked(patch.write_constraint, target.write_constraint),
        read_action: picked(patch.read_action, target.read_action),
        enumerated_values: merged_optional_values(
            patch.enumerated_values,
            target.enumerated_values,
        ),
        enumerated_values2: merged_optional_values(
            patch.enumerated_values2,
            target.enumerated_values2,
        ),
        ..target
    }
}

/// The targets after `patch` was merged into those whose name `selector`
/// matches.
pub open spec fn merge_field_entry(selector: Seq<char>, patch: Field, targets: Seq<FieldModel>) -> Seq<FieldModel> {
    Seq::new(
        targets.len(),
        |j: int|
            if regex_matches(selector, targets[j].name@) {
                merged_field(patch, targets[j])
            } else {
                targets[j]
            },
    )
}

/// The targets after the patches `entries[from..]` were merged into them, in
/// order.
pub open spec fn merge_field_entries(entries: Seq<(RegExStruct, Field)>, targets: Seq<FieldModel>, from: int)
    -> Seq<FieldModel>
    decreases entries.len() - from,
{
    if from < 0 || from >= entries.len() {
        targets
    } else {
        merge_field_entries(
            entries,
            merge_field_entry(entries[from].0.regex@, entries[from].1, targets),
            from + 1,
        )
    }
}

/// The register after a patch.
pub open spec fn merged_register(patch: Register, target: RegisterModel) -> RegisterModel {
    RegisterModel {
        display_name: picked_value(patch.display_name, target.display_name),
        description: picked_value(patch.description, target.description),
        access: picked(patch.access, target.access),
        derived_from: picked(patch.derived_from, target.derived_from),
        alternate_group: picked(patch.alternate_group, target.alternate_group),
        address_offset: picked_value(patch.address_offset, target.address_offset),
        modified_write_values: picked(patch.modified_write_values, target.modified_write_values),
        write_constraint: picked(patch.write_constraint, target.write_constraint),
        read_action: picked(patch.read_action, target.read_action),
        fields: merge_field_entries(patch.fields@, target.fields, 0),
        ..target
    }
}

/// The targets after `patch` was merged into those whose name `selector`
/// matches.
pub open spec fn merge_register_entry(selector: Seq<char>, patch: Register, targets: Seq<RegisterModel>) -> Seq<RegisterModel> {
    Seq::new(
        targets.len(),
        |j: int|
            if regex_matches(selector, targets[j].name@) {
                merged_register(patch, targets[j])
            } else {
                targets[j]
            },
    )
}

/// The targets after the patches `entries[from..]` were merged into them, in
/// order.
pub open spec fn merge_register_entries(entries: Seq<(RegExStruct, Register)>, targets: Seq<RegisterModel>, from: int)
    -> Seq<RegisterModel>
    decreases entries.len() - from,
{
    if from < 0 || from >= entries.len() {
        targets
    } else {
        merge_register_entries(
            entries,
            merge_register_entry(entries[from].0.regex@, entries[from].1, targets),
            from + 1,
        )
    }
}

/// The peripheral after a patch. A peripheral without registers gets none.
pub open spec fn merged_peripheral(patch: Peripheral, target: PeripheralModel) -> PeripheralModel {
    PeripheralModel {
        derived_from: picked(patch.derived_from, target.derived_from),
        version: picked(patch.version, target.version),
        description: picked(patch.description, target.description),
        group_name: picked(patch.group_name, target.group_name),
        prepend_to_name: picked(patch.prepend_to_name, target.prepend_to_name),
        append_to_name: picked(patch.append_to_name, target.append_to_name),
        disable_condition: picked(patch.disable_condition, target.disable_condition),
        registers: match target.registers {
            Some(registers) => Some(merge_register_entries(patch.registers@, registers, 0)),
            None => None,
        },
        ..target
    }
}

/// The targets after `patch` was merged into those whose name `selector`
/// matches.
pub open spec fn merge_peripheral_entry(selector: Seq<char>, patch: Peripheral, targets: Seq<PeripheralModel>) -> Seq<PeripheralModel> {
    Seq::new(
        targets.len(),
        |j: int|
            if regex_matches(selector, targets[j].name@) {
                merged_peripheral(patch, targets[j])
            } else {
                targets[j]
            },
    )
}

/// The targets after the patches `entries[from..]` were merged into them, in
/// order.
pub open spec fn merge_peripheral_entries(entries: Seq<(RegExStruct, Peripheral)>, targets: Seq<PeripheralModel>, from: int)
    -> Seq<PeripheralModel>
    decreases entries.len() - from,
{
    if from < 0 || from >= entries.len() {
        targets
    } else {
        merge_peripheral_entries(
            entries,
            merge_peripheral_entry(entries[from].0.regex@, entries[from].1, targets),
            from + 1,
        )
    }
}

impl EnumeratedValue {
    /// Merges the patch into the name for a value.
    pub fn merge_into(&self, svd_enum_value: &mut svd::EnumeratedValue)
        ensures
            *final(svd_enum_value) == merged_enum_value(*self, *old(svd_enum_value)),
    {
        match self {
            EnumeratedValue::Value(v) => {
                svd_enum_value.value = Some(*v);
                svd_enum_value.is_default = Some(false);
            },
            EnumeratedValue::ValueDescription(v, d) => {
                svd_enum_value.value = Some(*v);
                svd_enum_value.description = Some(d.clone());
                svd_enum_value.is_default = Some(false);
            },
            EnumeratedValue::DefaultDescription(d) => {
                svd_enum_value.description = Some(d.clone());
                svd_enum_value.is_default = Some(true);
            },
            EnumeratedValue::Default => {
                svd_enum_value.is_default = Some(true);
            },
        }
    }
}

/// Merges every patch of `entries` into those of `targets` whose name its
/// selector matches, patch by patch in the order in which they are written.
pub fn merge_enum_values_into(entries: &Vec<(RegExStruct, EnumeratedValue)>, targets: &mut Vec<svd::EnumeratedValue>)
    ensures
        enum_value_models(final(targets)@) == merge_enum_value_entries(entries@, enum_value_models(old(targets)@), 0),
{
    let mut i: usize = 0;
    while i < entries.len()
        invariant
            i <= entries.len(),
            merge_enum_value_entries(entries@, enum_value_models(targets@), i as int) == merge_enum_value_entries(
                entries@,
                enum_value_models(old(targets)@),
                0,
            ),
        decreases entries.len() - i,
    {
        let ghost before = enum_value_models(targets@);
        let ghost selector = entries@[i as int].0.regex@;
        let ghost patch = entries@[i as int].1;
        let mut j: usize = 0;
        while j < targets.len()
            invariant
                j <= targets.len(),
                i < entries.len(),
                selector == entries@[i as int].0.regex@,
                patch == entries@[i as int].1,
                targets@.len() == before.len(),
                forall|x: int|
                    0 <= x < j ==> (#[trigger] enum_value_models(targets@)[x]) == merge_enum_value_entry(
                        selector,
                        patch,
                        before,
                    )[x],
                forall|x: int| j <= x < targets.len() ==> (#[trigger] enum_value_models(targets@)[x]) == before[x],
            decreases targets.len() - j,
        {
            let ghost earlier = enum_value_models(targets@);
            proof {
                assert(earlier[j as int] == before[j as int]);
            }
            let matched = entries[i].0.regex.is_match(targets[j].name.as_str());
            proof {
                assert(matched == regex_matches(selector, before[j as int].name@));
            }
            if matched {
                entries[i].1.merge_into(&mut targets[j]);
            }
            proof {
                assert forall|x: int| 0 <= x < targets.len() && x != j implies (
                #[trigger] enum_value_models(targets@)[x]) == earlier[x] by {}
                assert(enum_value_models(targets@)[j as int] == merge_enum_value_entry(selector, patch, before)[j as int]);
            }
            j += 1;
        }
        proof {
            assert(enum_value_models(targets@) =~= merge_enum_value_entry(selector, patch, before));
        }
        i += 1;
    }
}

impl EnumeratedValues {
    /// Merges the patch into the names for the values of a field.
    pub fn merge_into(&self, svd_enum_values: &mut svd::EnumeratedValues)
        ensures
            final(svd_enum_values)@ == merged_enum_values(*self, old(svd_enum_values)@),
    {
        if self.name.is_some() {
            svd_enum_values.name = copy_text(&self.name);
        }
        if self.derived_from.is_some() {
            svd_enum_values.derived_from = copy_text(&self.derived_from);
        }
        if self.usage.is_some() {
            svd_enum_values.usage = self.usage;
        }
        let ghost before = svd_enum_values.enumerated_value@;
        merge_enum_values_into(&self.enumerated_value, &mut svd_enum_values.enumerated_value);
        proof {
            assert(enum_value_models(before) =~= before);
            assert(enum_value_models(svd_enum_values.enumerated_value@)
                =~= svd_enum_values.enumerated_value@);
        }
    }
}

/// Merges an optional patch into optional names for values: a patch on names
/// that are not there makes them.
fn merge_optional_values(patch: &Option<EnumeratedValues>, target: &mut Option<svd::EnumeratedValues>)
    ensures
        optional_values(*final(target)) == merged_optional_values(
            *patch,
            optional_values(*old(target)),
        ),
{
    match patch {
        None => {},
        Some(p) => {
            if target.is_none() {
                *target = Some(svd::EnumeratedValues::new());
            }
            match target {
                Some(values) => {
                    p.merge_into(values);
                },
                None => {},
            }
        },
    }
}

impl Field {
    /// Merges the patch into a field.
    pub fn merge_into(&self, svd_field: &mut svd::Field)
        ensures
            final(svd_field)@ == merged_field(*self, old(svd_field)@),
    {
        if self.derived_from.is_some() {
            svd_field.derived_from = copy_text(&self.derived_from);
        }
        if self.description.is_some() {
            svd_field.description = copy_text(&self.description);
        }
        if self.access.is_some() {
            svd_field.access = self.access;
        }
        if self.modified_write_values.is_some() {
            svd_field.modified_write_values = self.modified_write_values;
        }
        if self.write_constraint.is_some() {
            svd_field.write_constraint = self.write_constraint;
        }
        if self.read_action.is_some() {
            svd_field.read_action = self.read_action;
        }
        merge_optional_values(&self.enumerated_values, &mut svd_field.enumerated_values);
        merge_optional_values(&self.enumerated_values2, &mut svd_field.enumerated_values2);
    }
}

/// Merges every patch of `entries` into those of `targets` whose name its
/// selector matches, patch by patch in the order in which they are written.
pub fn merge_fields_into(entries: &Vec<(RegExStruct, Field)>, targets: &mut Vec<svd::Field>)
    ensures
        field_models(final(targets)@) == merge_field_entries(entries@, field_models(old(targets)@), 0),
{
    let mut i: usize = 0;
    while i < entries.len()
        invariant
            i <= entries.len(),
            merge_field_entries(entries@, field_models(targets@), i as int) == merge_field_entries(
                entries@,
                field_models(old(targets)@),
                0,
            ),
        decreases entries.len() - i,
    {
        let ghost before = field_models(targets@);
        let ghost selector = entries@[i as int].0.regex@;
        let ghost patch = entries@[i as int].1;
        let mut j: usize = 0;
        while j < targets.len()
            invariant
                j <= targets.len(),
                i < entries.len(),
                selector == entries@[i as int].0.regex@,
                patch == entries@[i as int].1,
                targets@.len() == before.len(),
                forall|x: int|
                    0 <= x < j ==> (#[trigger] field_models(targets@)[x]) == merge_field_entry(
                        selector,
                        patch,
                        before,
                    )[x],
                forall|x: int| j <= x < targets.len() ==> (#[trigger] field_models(targets@)[x]) == before[x],
            decreases targets.len() - j,
        {
            let ghost earlier = field_models(targets@);
            proof {
                assert(earlier[j as int] == before[j as int]);
            }
            let matched = entries[i].0.regex.is_match(targets[j].name.as_str());
            proof {
                assert(matched == regex_matches(selector, before[j as int].name@));
            }
            if matched {
                entries[i].1.merge_into(&mut targets[j]);
            }
            proof {
                assert forall|x: int| 0 <= x < targets.len() && x != j implies (
                #[trigger] field_models(targets@)[x]) == earlier[x] by {}
                assert(field_models(targets@)[j as int] == merge_field_entry(selector, patch, before)[j as int]);
            }
            j += 1;
        }
        proof {
            assert(field_models(targets@) =~= merge_field_entry(selector, patch, before));
        }
        i += 1;
    }
}

impl Register {
    /// Merges the patch into a register.
    pub fn merge_into(&self, svd_register: &mut svd::Register)
        ensures
            final(svd_register)@ == merged_register(*self, old(svd_register)@),
    {
        match &self.display_name {
            Some(name) => {
                svd_register.display_name = name.clone();
            },
            None => {},
        }
        match &self.description {
            Some(description) => {
                svd_register.description = description.clone();
            },
            None => {},
        }
        if self.access.is_some() {
            svd_register.access = self.access;
        }
        if self.derived_from.is_some() {
            svd_register.derived_from = copy_text(&self.derived_from);
        }
        if self.alternate_group.is_some() {
            svd_register.alternate_group = copy_text(&self.alternate_group);
        }
        match self.address_offset {
            Some(offset) => {
                svd_register.address_offset = offset;
            },
            None => {},
        }
        if self.modified_write_values.is_some() {
            svd_register.modified_write_values = self.modified_write_values;
        }
        if self.write_constraint.is_some() {
            svd_register.write_constraint = self.write_constraint;
        }
        if self.read_action.is_some() {
            svd_register.read_action = self.read_action;
        }
        merge_fields_into(&self.fields, &mut svd_register.fields.field);
    }
}

/// Merges every patch of `entries` into those of `targets` whose name its
/// selector matches, patch by patch in the order in which they are written.
pub fn merge_registers_into(entries: &Vec<(RegExStruct, Register)>, targets: &mut Vec<svd::Register>)
    ensures
        register_models(final(targets)@) == merge_register_entries(entries@, register_models(old(targets)@), 0),
{
    let mut i: usize = 0;
    while i < entries.len()
        invariant
            i <= entries.len(),
            merge_register_entries(entries@, register_models(targets@), i as int) == merge_register_entries(
                entries@,
                register_models(old(targets)@),
                0,
            ),
        decreases entries.len() - i,
    {
        let ghost before = register_models(targets@);
        let ghost selector = entries@[i as int].0.regex@;
        let ghost patch = entries@[i as int].1;
        let mut j: usize = 0;
        while j < targets.len()
            invariant
                j <= targets.len(),
                i < entries.len(),
                selector == entries@[i as int].0.regex@,
                patch == entries@[i as int].1,
                targets@.len() == before.len(),
                forall|x: int|
                    0 <= x < j ==> (#[trigger] register_models(targets@)[x]) == merge_register_entry(
                        selector,
                        patch,
                        before,
                    )[x],
                forall|x: int| j <= x < targets.len() ==> (#[trigger] register_models(targets@)[x]) == before[x],
            decreases targets.len() - j,
        {
            let ghost earlier = register_models(targets@);
            proof {
                assert(earlier[j as int] == before[j as int]);
            }
            let matched = entries[i].0.regex.is_match(targets[j].name.as_str());
            proof {
                assert(matched == regex_matches(selector, before[j as int].name@));
            }
            if matched {
                entries[i].1.merge_into(&mut targets[j]);
            }
            proof {
                assert forall|x: int| 0 <= x < targets.len() && x != j implies (
                #[trigger] register_models(targets@)[x]) == earlier[x] by {}
                assert(register_models(targets@)[j as int] == merge_register_entry(selector, patch, before)[j as int]);
            }
            j += 1;
        }
        proof {
            assert(register_models(targets@) =~= merge_register_entry(selector, patch, before));
        }
        i += 1;
    }
}

impl Peripheral {
    /// Merges the patch into a peripheral.
    pub fn merge_into(&self, svd_peripheral: &mut svd::Peripheral)
        ensures
            final(svd_peripheral)@ == merged_peripheral(*self, old(svd_peripheral)@),
    {
        if self.derived_from.is_some() {
            svd_peripheral.derived_from = copy_text(&self.derived_from);
        }
        if self.version.is_some() {
            svd_peripheral.version = copy_text(&self.version);
        }
        if self.description.is_some() {
            svd_peripheral.description = copy_text(&self.description);
        }
        if self.group_name.is_some() {
            svd_peripheral.group_name = copy_text(&self.group_name);
        }
        if self.prepend_to_name.is_some() {
            svd_peripheral.prepend_to_name = copy_text(&self.prepend_to_name);
        }
        if self.append_to_name.is_some() {
            svd_peripheral.append_to_name = copy_text(&self.append_to_name);
        }
        if self.disable_condition.is_some() {
            svd_peripheral.disable_condition = copy_text(&self.disable_condition);
        }
        match &mut svd_peripheral.registers {
            Some(registers) => {
                merge_registers_into(&self.registers, &mut registers.register);
            },
            None => {},
        }
    }
}

/// Merges every patch of `entries` into those of `targets` whose name its
/// selector matches, patch by patch in the order in which they are written.
pub fn merge_peripherals_into(entries: &Vec<(RegExStruct, Peripheral)>, targets: &mut Vec<svd::Peripheral>)
    ensures
        peripheral_models(final(targets)@) == merge_peripheral_entries(entries@, peripheral_models(old(targets)@), 0),
{
    let mut i: usize = 0;
    while i < entries.len()
        invariant
            i <= entries.len(),
            merge_peripheral_entries(entries@, peripheral_models(targets@), i as int) == merge_peripheral_entries(
                entries@,
                peripheral_models(old(targets)@),
                0,
            ),
        decreases entries.len() - i,
    {
        let ghost before = peripheral_models(targets@);
        let ghost selector = entries@[i as int].0.regex@;
        let ghost patch = entries@[i as int].1;
        let mut j: usize = 0;
        while j < targets.len()
            invariant
                j <= targets.len(),
                i < entries.len(),
                selector == entries@[i as int].0.regex@,
                patch == entries@[i as int].1,
                targets@.len() == before.len(),
                forall|x: int|
                    0 <= x < j ==> (#[trigger] peripheral_models(targets@)[x]) == merge_peripheral_entry(
                        selector,
                        patch,
                        before,
                    )[x],
                forall|x: int| j <= x < targets.len() ==> (#[trigger] peripheral_models(targets@)[x]) == before[x],
            decreases targets.len() - j,
        {
            let ghost earlier = peripheral_models(targets@);
            proof {
                assert(earlier[j as int] == before[j as int]);
            }
            let matched = entries[i].0.regex.is_match(targets[j].name.as_str());
            proof {
                assert(matched == regex_matches(selector, before[j as int].name@));
            }
            if matched {
                entries[i].1.merge_into(&mut targets[j]);
            }
            proof {
                assert forall|x: int| 0 <= x < targets.len() && x != j implies (
                #[trigger] peripheral_models(targets@)[x]) == earlier[x] by {}
                assert(peripheral_models(targets@)[j as int] == merge_peripheral_entry(selector, patch, before)[j as int]);
            }
            j += 1;
        }
        proof {
            assert(peripheral_models(targets@) =~= merge_peripheral_entry(selector, patch, before));
        }
        i += 1;
    }
}

impl Config {
    /// Merges the patch into a device description: every patch on
    /// peripherals into the peripherals whose name its selector matches.
    /// Nothing but the peripherals changes.
    pub fn merge_into(&self, svd: &mut Svd)
        ensures
            peripheral_models(final(svd).device.peripherals.peripheral@)
                == merge_peripheral_entries(
                self.device.peripherals@,
                peripheral_models(old(svd).device.peripherals.peripheral@),
                0,
            ),
            final(svd).device.vendor == old(svd).device.vendor,
            final(svd).device.vendor_id == old(svd).device.vendor_id,
            final(svd).device.name == old(svd).device.name,
            final(svd).device.series == old(svd).device.series,
            final(svd).device.version == old(svd).device.version,
            final(svd).device.description == old(svd).device.description,
            final(svd).device.license_text == old(svd).device.license_text,
            final(svd).device.cpu == old(svd).device.cpu,
            final(svd).device.header_system_filename == old(svd).device.header_system_filename,
            final(svd).device.header_definition_prefix == old(svd).device.header_definition_prefix,
            final(svd).device.address_unit_bits == old(svd).device.address_unit_bits,
            final(svd).device.width == old(svd).device.width,
            final(svd).device.register_properties == old(svd).device.register_properties,
    {
        merge_peripherals_into(&self.device.peripherals, &mut svd.device.peripherals.peripheral);
    }
}

} // verus!
