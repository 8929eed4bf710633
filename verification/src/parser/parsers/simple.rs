//! Descriptions that are text as they stand.

use crate::parser::DescriptionParser;
use crate::text::{display_text, to_display_text};
use vstd::prelude::*;

verus! {

/// The parser for descriptions that are text as they stand.
pub struct EvSimpleParser;

impl DescriptionParser for EvSimpleParser {
    open spec fn description(&self, data: Seq<u8>) -> Seq<char> {
        display_text(data)
    }

    fn parse_description(&self, data: Vec<u8>) -> (text: String) {
        to_display_text(data.as_slice())
    }
}

} // verus!
