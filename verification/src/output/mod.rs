//! The typed description of a device: what a patched document is read into.

pub mod basic_types;
pub mod cluster;
pub mod device;
pub mod field;
pub mod peripheral;
pub mod register;
pub mod svd;

pub use basic_types::AccessType;
pub use basic_types::AddressBlock;
pub use basic_types::AddressBlockUsage;
pub use basic_types::CpuNameType;
pub use basic_types::DataType;
pub use basic_types::DimArrayIndex;
pub use basic_types::EndianType;
pub use basic_types::EnumValue;
pub use basic_types::EnumeratedValue;
pub use basic_types::EnumeratedValuesUsage;
pub use basic_types::Interrupt;
pub use basic_types::ModifiedWriteValues;
pub use basic_types::ParseConstantError;
pub use basic_types::Protection;
pub use basic_types::ReadAction;
pub use basic_types::SvdConstant;
pub use basic_types::WriteConstraint;
pub use cluster::Cluster;
pub use device::Cpu;
pub use device::Device;
pub use device::Peripherals;
pub use device::SauRegionAccessType;
pub use device::SauRegionType;
pub use device::SauRegionsConfigType;
pub use field::EnumeratedValues;
pub use field::Field;
pub use field::FieldMask;
pub use field::MaskError;
pub use peripheral::Peripheral;
pub use peripheral::Registers;
pub use register::Fields;
pub use register::Register;
pub use svd::Svd;
