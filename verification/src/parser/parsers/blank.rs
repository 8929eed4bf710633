//! Descriptions that show as nothing.

use crate::parser::DescriptionParser;
use vstd::prelude::*;

verus! {

/// The parser for descriptions that show as nothing.
pub struct EvBlankParser;

impl DescriptionParser for EvBlankParser {
    open spec fn description(&self, data: Seq<u8>) -> Seq<char> {
        Seq::empty()
    }

    fn parse_description(&self, data: Vec<u8>) -> (text: String) {
        String::new()
    }
}

} // verus!
