//! Patches on device descriptions, as they are written, and the descriptions
//! that they are merged into.

pub mod common;
pub mod config;
pub mod svd;
