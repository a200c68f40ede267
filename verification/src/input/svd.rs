//! The description of a device as it is read, before any patch.

use crate::input::common::AccessType;
use crate::input::common::EnumeratedValuesUsage;
use crate::input::common::ModifiedWriteValues;
use crate::input::common::ReadAction;
use crate::input::common::WriteConstraint;
use crate::output::basic_types::EndianType;
use crate::output::basic_types::Interrupt;
use crate::output::basic_types::Protection;
use vstd::prelude::*;

verus! {

/// A device description.
#[derive(Debug, Eq, PartialEq, Clone)]
pub struct Svd {
    pub device: Device,
}

/// What registers have in common unless they say otherwise.
#[derive(Debug, Eq, PartialEq, Clone)]
pub struct RegisterPropertiesGroup {
    pub size: Option<NestedSvdConstant>,
    pub access: Option<AccessType>,
    pub protection: Option<Protection>,
    pub reset_value: Option<NestedSvdConstant>,
    pub reset_mask: Option<NestedSvdConstant>,
}

/// One region of the secure attribution unit.
#[derive(Debug, Eq, PartialEq, Clone)]
pub struct SauRegionsConfigType {
    pub enabled: Option<bool>,
    pub name: Option<String>,
    pub base: u32,
    pub limit: u32,
    pub access: String,
}

/// A device: its processor and its peripherals.
#[derive(Debug, Eq, PartialEq, Clone)]
pub struct Device {
    pub vendor: Option<String>,
    pub vendor_id: Option<String>,
    pub name: String,
    pub series: Option<String>,
    pub version: String,
    pub description: String,
    pub license_text: Option<String>,
    pub cpu: Cpu,
    pub header_system_filename: Option<String>,
    pub header_definition_prefix: Option<String>,
    pub address_unit_bits: u32,
    pub width: u32,
    pub register_properties: RegisterPropertiesGroup,
    pub peripherals: Peripherals,
}

/// The processor of a device.
#[derive(Debug, Eq, PartialEq, Clone)]
pub struct Cpu {
    pub name: String,
    pub revision: String,
    pub endian: EndianType,
    pub mpu_present: bool,
    pub fpu_present: bool,
    pub fpu_d_p: Option<bool>,
    pub dsp_present: Option<bool>,
    pub icache_present: Option<bool>,
    pub dcache_present: Option<bool>,
    pub itcm_present: Option<bool>,
    pub dtcm_present: Option<bool>,
    pub vtor_present: Option<bool>,
    pub nvic_prio_bits: u32,
    pub vendor_systick_config: bool,
    pub device_num_interrupts: Option<NestedSvdConstant>,
    pub sau_num_regions: Option<NestedSvdConstant>,
    pub sau_regions_config: Option<SauRegionsConfigType>,
}

/// The peripherals of a device.
#[derive(Debug, Eq, PartialEq, Clone)]
pub struct Peripherals {
    pub peripheral: Vec<Peripheral>,
}

/// A peripheral of a device.
#[derive(Debug, Eq, PartialEq, Clone)]
pub struct Peripheral {
    pub derived_from: Option<String>,
    pub dim_element: Option<DimElementGroup>,
    pub name: String,
    pub version: Option<String>,
    pub description: Option<String>,
    pub alternate_peripheral: Option<String>,
    pub group_name: Option<String>,
    pub prepend_to_name: Option<String>,
    pub append_to_name: Option<String>,
    pub header_struct_name: Option<String>,
    pub disable_condition: Option<String>,
    pub base_address: u32,
    pub register_properties: RegisterPropertiesGroup,
    pub address_block: Option<AddressBlock>,
    pub interrupts: Vec<Interrupt>,
    pub registers: Option<Registers>,
}

/// How an element is repeated.
#[derive(Debug, Eq, PartialEq, Clone)]
pub struct DimElementGroup {
    pub dim: Option<NestedSvdConstant>,
    pub dim_increment: Option<NestedSvdConstant>,
    pub dim_index: Option<NestedSvdConstant>,
    pub dim_name: Option<String>,
    pub dim_array_index: Option<NestedSvdConstant>,
}

/// A range of addresses that belongs to one peripheral alone.
#[derive(Debug, Eq, PartialEq, Clone)]
pub struct AddressBlock {
    pub offset: u32,
    pub size: u32,
    pub usage: String,
}

/// A member of a structure that all peripherals share.
#[derive(Debug, Eq, PartialEq, Clone)]
pub struct GlobalStructItem {
    pub name: String,
    pub size: String,
}

/// The registers of a peripheral.
#[derive(Debug, Eq, PartialEq, Clone)]
pub struct Registers {
    pub register: Vec<Register>,
}

/// A register of a peripheral.
#[derive(Debug, Eq, PartialEq, Clone)]
pub struct Register {
    pub name: String,
    pub size: u32,
    pub reset_value: u32,
    pub display_name: String,
    pub description: String,
    pub access: Option<AccessType>,
    pub derived_from: Option<String>,
    pub alternate_group: Option<String>,
    pub address_offset: u32,
    pub modified_write_values: Option<ModifiedWriteValues>,
    pub write_constraint: Option<WriteConstraint>,
    pub read_action: Option<ReadAction>,
    pub fields: Fields,
}

/// The fields of a register.
#[derive(Debug, Eq, PartialEq, Clone)]
pub struct Fields {
    pub field: Vec<Field>,
}

/// A bit field of a register.
#[derive(Debug, Eq, PartialEq, Clone)]
pub struct Field {
    pub name: String,
    pub bit_offset: u32,
    pub bit_width: u32,
    pub derived_from: Option<String>,
    pub description: Option<String>,
    pub access: Option<AccessType>,
    pub modified_write_values: Option<ModifiedWriteValues>,
    pub write_constraint: Option<WriteConstraint>,
    pub read_action: Option<ReadAction>,
    pub enumerated_values: Option<EnumeratedValues>,
    pub enumerated_values2: Option<EnumeratedValues>,
}

/// Names for the values of a field.
#[derive(Debug, Eq, PartialEq, Clone)]
pub struct EnumeratedValues {
    pub name: Option<String>,
    pub derived_from: Option<String>,
    pub usage: Option<EnumeratedValuesUsage>,
    pub enumerated_value: Vec<EnumeratedValue>,
}

/// A name for one value of a field, or for all values that have no name.
#[derive(Debug, Eq, PartialEq, Clone)]
pub struct EnumeratedValue {
    pub name: String,
    pub description: Option<String>,
    pub value: Option<u32>,
    pub is_default: Option<bool>,
}

/// A number that is nested in an element of its own.
#[derive(Debug, Eq, PartialEq, Clone, Copy)]
pub struct NestedSvdConstant {
    pub value: u32,
}

/// Where a field lies in its register.
#[derive(Debug, Eq, PartialEq, Clone)]
pub enum BitRange {
    OffsetWidthStyle { bit_offset: u32, bit_width: Option<u32> },
    LsbMsbStyle { lsb: u32, msb: u32 },
    BitRangePattern { bit_range: Option<String> },
}

/// What `EnumeratedValues` stands for.
pub struct EnumeratedValuesModel {
    pub name: Option<String>,
    pub derived_from: Option<String>,
    pub usage: Option<EnumeratedValuesUsage>,
    pub enumerated_value: Seq<EnumeratedValue>,
}

/// What a `Field` stands for.
pub struct FieldModel {
    pub name: String,
    pub bit_offset: u32,
    pub bit_width: u32,
    pub derived_from: Option<String>,
    pub description: Option<String>,
    pub access: Option<AccessType>,
    pub modified_write_values: Option<ModifiedWriteValues>,
    pub write_constraint: Option<WriteConstraint>,
    pub read_action: Option<ReadAction>,
    pub enumerated_values: Option<EnumeratedValuesModel>,
    pub enumerated_values2: Option<EnumeratedValuesModel>,
}

/// What a `Register` stands for.
pub struct RegisterModel {
    pub name: String,
    pub size: u32,
    pub reset_value: u32,
    pub display_name: String,
    pub description: String,
    pub access: Option<AccessType>,
    pub derived_from: Option<String>,
    pub alternate_group: Option<String>,
    pub address_offset: u32,
    pub modified_write_values: Option<ModifiedWriteValues>,
    pub write_constraint: Option<WriteConstraint>,
    pub read_action: Option<ReadAction>,
    pub fields: Seq<FieldModel>,
}

/// What a `Peripheral` stands for.
pub struct PeripheralModel {
    pub derived_from: Option<String>,
    pub dim_element: Option<DimElementGroup>,
    pub name: String,
    pub version: Option<String>,
    pub description: Option<String>,
    pub alternate_peripheral: Option<String>,
    pub group_name: Option<String>,
    pub prepend_to_name: Option<String>,
    pub append_to_name: Option<String>,
    pub header_struct_name: Option<String>,
    pub disable_condition: Option<String>,
    pub base_address: u32,
    pub register_properties: RegisterPropertiesGroup,
    pub address_block: Option<AddressBlock>,
    pub interrupts: Vec<Interrupt>,
    pub registers: Option<Seq<RegisterModel>>,
}

/// The views of a list of fields.
pub open spec fn field_models(fields: Seq<Field>) -> Seq<FieldModel> {
    Seq::new(fields.len(), |i: int| fields[i]@)
}

/// The views of a list of registers.
pub open spec fn register_models(registers: Seq<Register>) -> Seq<RegisterModel> {
    Seq::new(registers.len(), |i: int| registers[i]@)
}

/// The views of a list of peripherals.
pub open spec fn peripheral_models(peripherals: Seq<Peripheral>) -> Seq<PeripheralModel> {
    Seq::new(peripherals.len(), |i: int| peripherals[i]@)
}

/// The view of optional names for values.
pub open spec fn optional_values(values: Option<EnumeratedValues>) -> Option<
    EnumeratedValuesModel,
> {
    match values {
        Some(v) => Some(v@),
        None => None,
    }
}

impl View for EnumeratedValues {
    type V = EnumeratedValuesModel;

    open spec fn view(&self) -> EnumeratedValuesModel {
        EnumeratedValuesModel {
            name: self.name,
            derived_from: self.derived_from,
            usage: self.usage,
            enumerated_value: self.enumerated_value@,
        }
    }
}

impl View for Field {
    type V = FieldModel;

    open spec fn view(&self) -> FieldModel {
        FieldModel {
            name: self.name,
            bit_offset: self.bit_offset,
            bit_width: self.bit_width,
            derived_from: self.derived_from,
            description: self.description,
            access: self.access,
            modified_write_values: self.modified_write_values,
            write_constraint: self.write_constraint,
            read_action: self.read_action,
            enumerated_values: optional_values(self.enumerated_values),
            enumerated_values2: optional_values(self.enumerated_values2),
        }
    }
}

impl View for Register {
    type V = RegisterModel;

    open spec fn view(&self) -> RegisterModel {
        RegisterModel {
            name: self.name,
            size: self.size,
            reset_value: self.reset_value,
            display_name: self.display_name,
            description: self.description,
            access: self.access,
            derived_from: self.derived_from,
            alternate_group: self.alternate_group,
            address_offset: self.address_offset,
            modified_write_values: self.modified_write_values,
            write_constraint: self.write_constraint,
            read_action: self.read_action,
            fields: field_models(self.fields.field@),
        }
    }
}

impl View for Peripheral {
    type V = PeripheralModel;

    open spec fn view(&self) -> PeripheralModel {
        PeripheralModel {
            derived_from: self.derived_from,
            dim_element: self.dim_element,
            name: self.name,
            version: self.version,
            description: self.description,
            alternate_peripheral: self.alternate_peripheral,
            group_name: self.group_name,
            prepend_to_name: self.prepend_to_name,
            append_to_name: self.append_to_name,
            header_struct_name: self.header_struct_name,
            disable_condition: self.disable_condition,
            base_address: self.base_address,
            register_properties: self.register_properties,
            address_block: self.address_block,
            interrupts: self.interrupts,
            registers: match self.registers {
                Some(r) => Some(register_models(r.register@)),
                None => None,
            },
        }
    }
}

impl EnumeratedValues {
    /// Names for no value at all.
    pub fn new() -> (r: EnumeratedValues)
        ensures
            r@ == (EnumeratedValuesModel {
                name: None,
                derived_from: None,
                usage: None,
                enumerated_value: Seq::empty(),
            }),
    {
        EnumeratedValues { name: None, derived_from: None, usage: None, enumerated_value: Vec::new() }
    }
}

/// The mask with `width` bits set from the bit `offset` on, cut to 32 bits.
pub open spec fn bit_mask(offset: u32, width: u32) -> u32 {
    (((((1u64 << (width as u64)) - 1) as u64) << (offset as u64)) & 0xFFFF_FFFFu64) as u32
}

/// The lowest bit and the number of bits of a range. A range that is given
/// by its two ends begins at the lower end and has as many bits as the ends
/// are apart.
pub open spec fn range_bounds(range: BitRange) -> (u32, u32) {
    match range {
        BitRange::OffsetWidthStyle { bit_offset, bit_width } => (
            bit_offset,
            match bit_width {
                None => (32 - bit_offset) as u32,
                Some(width) => width,
            },
        ),
        BitRange::LsbMsbStyle { lsb, msb } => if lsb < msb {
            (lsb, (msb - lsb) as u32)
        } else {
            (msb, (lsb - msb) as u32)
        },
        BitRange::BitRangePattern { .. } => (0, 0),
    }
}

impl BitRange {
    /// The mask of the bits of the range. A range that is given as a text has
    /// no mask, and neither has one that reaches beyond 64 bits.
    pub fn to_mask(&self) -> (r: u32)
        requires
            !(self is BitRangePattern),
            self matches BitRange::OffsetWidthStyle { bit_offset, bit_width } ==> bit_width is None
                ==> bit_offset <= 32,
            range_bounds(*self).0 < 64,
            range_bounds(*self).1 < 64,
        ensures
            r == bit_mask(range_bounds(*self).0, range_bounds(*self).1),
    {
        let (bit_offset, bit_width): (u32, u32) = match self {
            BitRange::OffsetWidthStyle { bit_offset, bit_width } => (
                *bit_offset,
                match bit_width {
                    None => 32 - *bit_offset,
                    Some(bit_width) => *bit_width,
                },
            ),
            BitRange::LsbMsbStyle { lsb, msb } => {
                if *lsb < *msb {
                    (*lsb, *msb - *lsb)
                } else {
                    (*msb, *lsb - *msb)
                }
            },
            BitRange::BitRangePattern { .. } => (0, 0),
        };
        let width = bit_width as u64;
        let offset = bit_offset as u64;
        assert((1u64 << width) >= 1) by (bit_vector)
            requires
                width < 64,
        ;
        let shifted: u64 = ((1u64 << width) - 1) << offset;
        assert(shifted & 0xFFFF_FFFFu64 <= 0xFFFF_FFFFu64) by (bit_vector);
        (shifted & 0xFFFF_FFFFu64) as u32
    }
}

} // verus!
