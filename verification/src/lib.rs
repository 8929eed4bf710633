//! Parsing and replay of firmware measurement logs.
//!
//! Firmware appends one record to a byte buffer for every boot component it
//! measures. This crate decodes such a buffer into its entries and folds the
//! entries back into the values that the measurement registers must hold.

pub mod bios_eventlog;
pub mod bytes;
pub mod ccel;
pub mod display;
pub mod eventlog;
pub mod hash;
pub mod parser;
pub mod registry;
pub mod replay;
pub mod text;
pub mod truncation;
