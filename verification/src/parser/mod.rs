//! Turning the description of an entry into text for display.
//!
//! Each event type that has a layout of its own has a parser. A parser never
//! fails: where the description is cut short, carries a length that cannot
//! be, or holds text that is not valid UTF-8, the text is the hexadecimal
//! form of the whole description.

pub mod parsers;

use crate::bytes::fits;
use crate::text::{
    display_text, hex_encode, hex_text, same_text, string_from_utf8, to_display_text, without, without_char,
};
use parsers::{
    EvBlankParser, EvBootServicesAppParser, EvEfiVariableParser, EvEventTagParser,
    EvHandoffTableParser, EvSimpleParser,
};
use vstd::prelude::*;
use vstd::slice::{slice_subrange, slice_to_vec};
use vstd::utf8::{decode_utf8, valid_utf8};

verus! {

/// Why a description does not have the layout of its event type.
#[derive(Clone, Copy, Debug, PartialEq, Eq, Structural)]
pub enum DescriptionError {
    /// The description ends before the end of a field.
    TooShort,
    /// A length is smaller than the header it counts, or odd where it
    /// counts two-byte units.
    InvalidLength,
    /// The text is not valid UTF-8.
    InvalidText,
}

/// A formatter for the descriptions of one layout.
pub trait DescriptionParser: Sync + Send {
    /// The text that stands for the description `data`.
    spec fn description(&self, data: Seq<u8>) -> Seq<char>;

    /// Gives the text that stands for the description `data`.
    fn parse_description(&self, data: Vec<u8>) -> (text: String)
        ensures
            text@ == self.description(data@),
    ;
}

/// The text of the `width` bytes at `at`: their characters without the zero
/// characters.
pub open spec fn text_field(data: Seq<u8>, at: int, width: int) -> Result<
    Seq<char>,
    DescriptionError,
> {
    if !fits(data, at, width) {
        Err(DescriptionError::TooShort)
    } else if !valid_utf8(data.subrange(at, at + width)) {
        Err(DescriptionError::InvalidText)
    } else {
        Ok(without(decode_utf8(data.subrange(at, at + width)), 0u8 as char))
    }
}

/// The text of a layout, or the hexadecimal form of the whole description
/// where the layout does not hold.
pub open spec fn or_hex(parsed: Result<Seq<char>, DescriptionError>, data: Seq<u8>) -> Seq<char> {
    match parsed {
        Ok(text) => text,
        Err(_) => hex_text(data),
    }
}

/// Whether `r` is `model`, the strings taken by their characters.
pub open spec fn parsed_as(
    r: Result<String, DescriptionError>,
    model: Result<Seq<char>, DescriptionError>,
) -> bool {
    match model {
        Ok(text) => r matches Ok(s) && s@ == text,
        Err(e) => r matches Err(err) && err == e,
    }
}

/// Reads the text of the `width` bytes at `at`.
pub fn read_text(data: &[u8], at: usize, width: usize) -> (r: Result<String, DescriptionError>)
    ensures
        parsed_as(r, text_field(data@, at as int, width as int)),
{
    if at > data.len() || data.len() - at < width {
        return Err(DescriptionError::TooShort);
    }
    let bytes = slice_to_vec(slice_subrange(data, at, at + width));
    match string_from_utf8(bytes) {
        Some(text) => Ok(without_char(text.as_str(), 0u8 as char)),
        None => Err(DescriptionError::InvalidText),
    }
}

/// Gives the text of a layout, or the hexadecimal form of the whole
/// description where the layout does not hold.
pub fn text_or_hex(parsed: Result<String, DescriptionError>, data: &[u8]) -> (text: String)
    ensures
        text@ == (match parsed {
            Ok(s) => s@,
            Err(_) => hex_text(data@),
        }),
{
    match parsed {
        Ok(text) => text,
        Err(_) => hex_encode(data),
    }
}

/// The layouts that have a parser.
#[derive(Clone, Copy, Debug, PartialEq, Eq, Structural)]
pub enum ParserKind {
    EventTag,
    Blank,
    EfiVariable,
    HandoffTable,
    BootServicesApp,
    Simple,
}

/// The layout of the descriptions of the event type named `event_type`,
/// where the type has one.
pub open spec fn parser_kind(event_type: Seq<char>) -> Option<ParserKind> {
    if event_type == "EV_EVENT_TAG"@ {
        Some(ParserKind::EventTag)
    } else if event_type == "EV_SEPARATOR"@ {
        Some(ParserKind::Blank)
    } else if event_type == "EV_EFI_VARIABLE_DRIVER_CONFIG"@ {
        Some(ParserKind::EfiVariable)
    } else if event_type == "EV_EFI_VARIABLE_BOOT"@ {
        Some(ParserKind::EfiVariable)
    } else if event_type == "EV_EFI_VARIABLE_AUTHORITY"@ {
        Some(ParserKind::EfiVariable)
    } else if event_type == "EV_EFI_VARIABLE_BOOT2"@ {
        Some(ParserKind::EfiVariable)
    } else if event_type == "EV_EFI_HANDOFF_TABLES2"@ {
        Some(ParserKind::HandoffTable)
    } else if event_type == "EV_EFI_PLATFORM_FIRMWARE_BLOB2"@ {
        Some(ParserKind::HandoffTable)
    } else if event_type == "EV_EFI_BOOT_SERVICES_APPLICATION"@ {
        Some(ParserKind::BootServicesApp)
    } else if event_type == "EV_EFI_ACTION"@ {
        Some(ParserKind::Simple)
    } else if event_type == "EV_IPL"@ {
        Some(ParserKind::Simple)
    } else if event_type == "EV_POST_CODE"@ {
        Some(ParserKind::Simple)
    } else if event_type == "EV_ACTION"@ {
        Some(ParserKind::Simple)
    } else if event_type == "EV_PLATFORM_CONFIG_FLAGS"@ {
        Some(ParserKind::Simple)
    } else if event_type == "EV_COMPACT_HASH"@ {
        Some(ParserKind::Simple)
    } else if event_type == "EV_OMIT_BOOT_DEVICE_EVENTS"@ {
        Some(ParserKind::Simple)
    } else if event_type == "EV_EFI_HCRTM_EVENT"@ {
        Some(ParserKind::Simple)
    } else {
        None
    }
}

/// The text that stands for the description `data` of an event of the type
/// named `event_type`: what the parser of the type gives, and for a type
/// without a parser the characters of `data` where it is valid UTF-8 and its
/// hexadecimal form where it is not.
pub open spec fn described(event_type: Seq<char>, data: Seq<u8>) -> Seq<char> {
    match parser_kind(event_type) {
        Some(ParserKind::EventTag) => EvEventTagParser.description(data),
        Some(ParserKind::Blank) => EvBlankParser.description(data),
        Some(ParserKind::EfiVariable) => EvEfiVariableParser.description(data),
        Some(ParserKind::HandoffTable) => EvHandoffTableParser.description(data),
        Some(ParserKind::BootServicesApp) => EvBootServicesAppParser.description(data),
        Some(ParserKind::Simple) => EvSimpleParser.description(data),
        None => display_text(data),
    }
}

/// Finds the layout of the descriptions of the event type named
/// `event_type`.
pub fn parser_for(event_type: &str) -> (kind: Option<ParserKind>)
    ensures
        kind == parser_kind(event_type@),
{
    if same_text(event_type, "EV_EVENT_TAG") {
        Some(ParserKind::EventTag)
    } else if same_text(event_type, "EV_SEPARATOR") {
        Some(ParserKind::Blank)
    } else if same_text(event_type, "EV_EFI_VARIABLE_DRIVER_CONFIG") {
        Some(ParserKind::EfiVariable)
    } else if same_text(event_type, "EV_EFI_VARIABLE_BOOT") {
        Some(ParserKind::EfiVariable)
    } else if same_text(event_type, "EV_EFI_VARIABLE_AUTHORITY") {
        Some(ParserKind::EfiVariable)
    } else if same_text(event_type, "EV_EFI_VARIABLE_BOOT2") {
        Some(ParserKind::EfiVariable)
    } else if same_text(event_type, "EV_EFI_HANDOFF_TABLES2") {
        Some(ParserKind::HandoffTable)
    } else if same_text(event_type, "EV_EFI_PLATFORM_FIRMWARE_BLOB2") {
        Some(ParserKind::HandoffTable)
    } else if same_text(event_type, "EV_EFI_BOOT_SERVICES_APPLICATION") {
        Some(ParserKind::BootServicesApp)
    } else if same_text(event_type, "EV_EFI_ACTION") {
        Some(ParserKind::Simple)
    } else if same_text(event_type, "EV_IPL") {
        Some(ParserKind::Simple)
    } else if same_text(event_type, "EV_POST_CODE") {
        Some(ParserKind::Simple)
    } else if same_text(event_type, "EV_ACTION") {
        Some(ParserKind::Simple)
    } else if same_text(event_type, "EV_PLATFORM_CONFIG_FLAGS") {
        Some(ParserKind::Simple)
    } else if same_text(event_type, "EV_COMPACT_HASH") {
        Some(ParserKind::Simple)
    } else if same_text(event_type, "EV_OMIT_BOOT_DEVICE_EVENTS") {
        Some(ParserKind::Simple)
    } else if same_text(event_type, "EV_EFI_HCRTM_EVENT") {
        Some(ParserKind::Simple)
    } else {
        None
    }
}

/// Gives the text that stands for the description `data` of an event of the
/// type named `event_type`.
pub fn describe(event_type: &str, data: Vec<u8>) -> (text: String)
    ensures
        text@ == described(event_type@, data@),
{
    match parser_for(event_type) {
        Some(ParserKind::EventTag) => EvEventTagParser.parse_description(data),
        Some(ParserKind::Blank) => EvBlankParser.parse_description(data),
        Some(ParserKind::EfiVariable) => EvEfiVariableParser.parse_description(data),
        Some(ParserKind::HandoffTable) => EvHandoffTableParser.parse_description(data),
        Some(ParserKind::BootServicesApp) => EvBootServicesAppParser.parse_description(data),
        Some(ParserKind::Simple) => EvSimpleParser.parse_description(data),
        None => to_display_text(data.as_slice()),
    }
}

} // verus!
