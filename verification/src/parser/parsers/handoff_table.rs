//! Hand-off tables and firmware blobs: a length of one byte, and the text.

use crate::bytes::fits;
use crate::bytes::read_u8;
use crate::parser::{
    or_hex, parsed_as, read_text, text_field, text_or_hex, DescriptionError, DescriptionParser,
};
use vstd::prelude::*;

verus! {

/// The parser for hand-off tables and firmware blobs.
pub struct EvHandoffTableParser;

/// The text of a hand-off table: the bytes from offset 1 on, as many as the
/// byte at offset 0 says.
pub open spec fn handoff_table_text(data: Seq<u8>) -> Result<Seq<char>, DescriptionError> {
    if !fits(data, 0, 1) {
        Err(DescriptionError::TooShort)
    } else {
        text_field(data, 1, data[0] as int)
    }
}

impl EvHandoffTableParser {
    /// Reads the text of a hand-off table.
    pub fn parse(data: &[u8]) -> (r: Result<String, DescriptionError>)
        ensures
            parsed_as(r, handoff_table_text(data@)),
    {
        match read_u8(data, 0) {
            Some(length) => read_text(data, 1, length as usize),
            None => Err(DescriptionError::TooShort),
        }
    }
}

impl DescriptionParser for EvHandoffTableParser {
    open spec fn description(&self, data: Seq<u8>) -> Seq<char> {
        or_hex(handoff_table_text(data), data)
    }

    fn parse_description(&self, data: Vec<u8>) -> (text: String) {
        text_or_hex(EvHandoffTableParser::parse(data.as_slice()), data.as_slice())
    }
}

} // verus!
