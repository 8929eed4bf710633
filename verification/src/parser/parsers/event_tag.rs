//! Tagged events: a tag of four bytes, a length of four bytes, and the text.

use crate::bytes::{fits, le_u32_at, read_u32};
use crate::parser::{
    or_hex, parsed_as, read_text, text_field, text_or_hex, DescriptionError, DescriptionParser,
};
use vstd::prelude::*;

verus! {

/// The parser for tagged events.
pub struct EvEventTagParser;

/// The text of a tagged event: the bytes from offset 8 on, as many as the
/// four-byte length at offset 4 says.
pub open spec fn event_tag_text(data: Seq<u8>) -> Result<Seq<char>, DescriptionError> {
    if !fits(data, 4, 4) {
        Err(DescriptionError::TooShort)
    } else {
        text_field(data, 8, le_u32_at(data, 4) as int)
    }
}

impl EvEventTagParser {
    /// Reads the text of a tagged event.
    pub fn parse(data: &[u8]) -> (r: Result<String, DescriptionError>)
        ensures
            parsed_as(r, event_tag_text(data@)),
    {
        match read_u32(data, 4) {
            Some(length) => read_text(data, 8, length as usize),
            None => Err(DescriptionError::TooShort),
        }
    }
}

impl DescriptionParser for EvEventTagParser {
    open spec fn description(&self, data: Seq<u8>) -> Seq<char> {
        or_hex(event_tag_text(data), data)
    }

    fn parse_description(&self, data: Vec<u8>) -> (text: String) {
        text_or_hex(EvEventTagParser::parse(data.as_slice()), data.as_slice())
    }
}

} // verus!
