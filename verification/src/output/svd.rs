//! The description of a device as a whole.

use crate::output::device::Device;
use vstd::prelude::*;

verus! {

/// A device description.
#[derive(Debug, Eq, PartialEq)]
pub struct Svd {
    pub device: Device,
}

} // verus!
