//! The device and its processor.

use crate::output::basic_types::AccessType;
use crate::output::basic_types::CpuNameType;
use crate::output::basic_types::EndianType;
use crate::output::basic_types::Protection;
use crate::output::basic_types::SvdConstant;
use crate::output::peripheral::Peripheral;
use vstd::prelude::*;

verus! {

/// A device: its processor and its peripherals.
#[derive(Debug, Eq, PartialEq)]
pub struct Device {
    pub schema_version: String,
    pub vendor: Option<String>,
    pub vendor_id: Option<String>,
    pub name: String,
    pub series: Option<String>,
    pub version: String,
    pub description: String,
    pub license_text: Option<String>,
    pub cpu: Cpu,
    pub header_system_filename: Option<String>,
    pub header_definitions_prefix: Option<String>,
    pub address_unit_bits: SvdConstant,
    pub width: SvdConstant,
    pub size: Option<SvdConstant>,
    pub access: Option<AccessType>,
    pub protection: Option<Protection>,
    pub reset_value: Option<SvdConstant>,
    pub reset_mask: Option<SvdConstant>,
    pub peripherals: Peripherals,
}

/// The processor of a device.
#[derive(Debug, Eq, PartialEq, Clone)]
pub struct Cpu {
    pub name: CpuNameType,
    pub revision: String,
    pub endian: EndianType,
    pub mpu_present: bool,
    pub fpu_present: bool,
    pub fpu_d_p: Option<bool>,
    pub dsp_present: Option<bool>,
    pub icache_present: Option<bool>,
    pub dcache_present: Option<bool>,
    pub itcm_present: Option<bool>,
    pub dtcm_present: Option<bool>,
    pub vtor_present: Option<bool>,
    pub nvic_prio_bits: SvdConstant,
    pub vendor_systick_config: bool,
    pub device_num_interrupts: Option<SvdConstant>,
    pub sau_num_regions: Option<SvdConstant>,
    pub sau_regions_config: Option<SauRegionsConfigType>,
}

/// The regions of the secure attribution unit.
#[derive(Debug, Eq, PartialEq, Clone)]
pub struct SauRegionsConfigType {
    pub enabled: Option<bool>,
    pub protection_when_disabled: Option<Protection>,
    pub region: Option<Vec<SauRegionType>>,
}

/// One region of the secure attribution unit.
#[derive(Debug, Eq, PartialEq, Clone)]
pub struct SauRegionType {
    pub enabled: Option<bool>,
    pub name: Option<String>,
    pub base: SvdConstant,
    pub limit: SvdConstant,
    pub access: SauRegionAccessType,
}

/// Who may access a region.
#[derive(Debug, Eq, PartialEq, Clone, Copy)]
pub enum SauRegionAccessType {
    NonSecure,
    SecureCallable,
}

/// The peripherals of a device.
#[derive(Debug, Eq, PartialEq)]
pub struct Peripherals {
    pub peripheral: Vec<Peripheral>,
}

} // verus!
