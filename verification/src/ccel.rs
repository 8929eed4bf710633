//! The ACPI description of the confidential-computing event log: where in
//! guest memory the log lies.
//!
//! The description is 56 bytes: a header of 36 bytes that starts with a
//! signature and the length of the whole description, a reserved field of
//! four bytes, the length of the log and the address of the log.

use crate::bytes::{le_u32_at, le_u64_at, read_u32, read_u64};
use vstd::prelude::*;

verus! {

/// The signature `CCEL`, read as a little-endian number.
pub const CCEL_SIGNATURE: u32 = 0x4C45_4343;

/// The number of bytes of a description.
pub const DESCRIPTION_LEN: usize = 56;

/// Where the log lies.
#[derive(Clone, Copy, Debug, PartialEq, Eq, Structural)]
pub struct CcelLocation {
    /// The number of bytes of the log.
    pub laml: u64,
    /// The address of the first byte of the log.
    pub lasa: u64,
}

/// Why a description does not locate a log.
#[derive(Clone, Copy, Debug, PartialEq, Eq, Structural)]
pub enum CcelError {
    /// The description has fewer bytes than a description has.
    TooShort,
    /// The signature is not `CCEL`.
    WrongSignature,
    /// The reserved field is not zero.
    ReservedNotZero,
    /// The length in the header is not the length of the description.
    LengthMismatch,
}

/// The location that a description gives, or the first check that it
/// fails: its size, its signature, its reserved field, its length.
pub open spec fn ccel_location(description: Seq<u8>) -> Result<CcelLocation, CcelError> {
    if description.len() < DESCRIPTION_LEN {
        Err(CcelError::TooShort)
    } else if le_u32_at(description, 0) != CCEL_SIGNATURE {
        Err(CcelError::WrongSignature)
    } else if le_u32_at(description, 36) != 0 {
        Err(CcelError::ReservedNotZero)
    } else if le_u32_at(description, 4) != description.len() {
        Err(CcelError::LengthMismatch)
    } else {
        Ok(CcelLocation { laml: le_u64_at(description, 40), lasa: le_u64_at(description, 48) })
    }
}

/// Checks a description and gives the location of the log.
pub fn locate_ccel(description: &[u8]) -> (r: Result<CcelLocation, CcelError>)
    ensures
        r == ccel_location(description@),
{
    if description.len() < DESCRIPTION_LEN {
        return Err(CcelError::TooShort);
    }
    match (
        read_u32(description, 0),
        read_u32(description, 4),
        read_u32(description, 36),
        read_u64(description, 40),
        read_u64(description, 48),
    ) {
        (Some(signature), Some(length), Some(rsv), Some(laml), Some(lasa)) => {
            if signature != CCEL_SIGNATURE {
                Err(CcelError::WrongSignature)
            } else if rsv != 0 {
                Err(CcelError::ReservedNotZero)
            } else if length as usize != description.len() {
                Err(CcelError::LengthMismatch)
            } else {
                Ok(CcelLocation { laml, lasa })
            }
        },
        _ => Err(CcelError::TooShort),
    }
}

} // verus!
