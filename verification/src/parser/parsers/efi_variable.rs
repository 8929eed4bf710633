//! EFI variables: a header of 32 bytes with the count of two-byte units of
//! the name at offset 16, and the name.

use crate::bytes::{fits, le_u64_at, read_u64};
use crate::parser::{
    or_hex, parsed_as, read_text, text_field, text_or_hex, DescriptionError, DescriptionParser,
};
use vstd::prelude::*;

verus! {

/// The parser for EFI variables.
pub struct EvEfiVariableParser;

/// The text of an EFI variable: the bytes from offset 32 on, two for each
/// unit that the eight-byte count at offset 16 says.
pub open spec fn efi_variable_text(data: Seq<u8>) -> Result<Seq<char>, DescriptionError> {
    if !fits(data, 16, 8) {
        Err(DescriptionError::TooShort)
    } else {
        text_field(data, 32, 2 * le_u64_at(data, 16))
    }
}

impl EvEfiVariableParser {
    /// Reads the text of an EFI variable.
    pub fn parse(data: &[u8]) -> (r: Result<String, DescriptionError>)
        ensures
            parsed_as(r, efi_variable_text(data@)),
    {
        let units = match read_u64(data, 16) {
            Some(units) => units,
            None => {
                return Err(DescriptionError::TooShort);
            },
        };
        if data.len() < 32 || units > ((data.len() - 32) / 2) as u64 {
            return Err(DescriptionError::TooShort);
        }
        read_text(data, 32, 2 * (units as usize))
    }
}

impl DescriptionParser for EvEfiVariableParser {
    open spec fn description(&self, data: Seq<u8>) -> Seq<char> {
        or_hex(efi_variable_text(data), data)
    }

    fn parse_description(&self, data: Vec<u8>) -> (text: String) {
        text_or_hex(EvEfiVariableParser::parse(data.as_slice()), data.as_slice())
    }
}

} // verus!
