//! Boot-services applications: an image record of 32 bytes with the length
//! of the device path at offset 24, and the device path.
//!
//! A device path is a run of nodes. A node is one byte of type, one byte of
//! sub-type, two bytes with the length of the whole node, and its data. The
//! text of the record comes from the last node before the end node.

use crate::bytes::{fits, le_u16_at, le_u64_at, read_u16, read_u64};
use crate::parser::{or_hex, parsed_as, text_or_hex, DescriptionError, DescriptionParser};
use crate::text::{hex_encode, hex_text, recover_string, units_text};
use vstd::prelude::*;
use vstd::slice::slice_subrange;

verus! {

/// The number of bytes before the device path.
pub const DEVICE_PATH_START: usize = 32;

/// The number of bytes of the header of a node; the end node is a header
/// and nothing else.
pub const NODE_HEADER_LEN: usize = 4;

/// The type of a media node.
pub const MEDIA_DEVICE_PATH: u8 = 4;

/// The sub-type of a media node that holds vendor data.
pub const MEDIA_VENDOR: u8 = 3;

/// The sub-type of a media node that holds a file path.
pub const MEDIA_FILE_PATH: u8 = 4;

/// The parser for boot-services applications.
pub struct EvBootServicesAppParser;

/// The last node of the path `path`, reached from the node at `at`: its
/// type, its sub-type and its data.
pub open spec fn last_node(path: Seq<u8>, at: int) -> Result<(u8, u8, Seq<u8>), DescriptionError>
    decreases path.len() - at,
{
    if !fits(path, at, NODE_HEADER_LEN as int) {
        Err(DescriptionError::TooShort)
    } else if le_u16_at(path, at + 2) < NODE_HEADER_LEN {
        Err(DescriptionError::InvalidLength)
    } else if !fits(path, at, le_u16_at(path, at + 2) as int) {
        Err(DescriptionError::TooShort)
    } else if at + le_u16_at(path, at + 2) == path.len() {
        Ok((path[at], path[at + 1], path.subrange(at + 4, at + le_u16_at(path, at + 2))))
    } else {
        last_node(path, at + le_u16_at(path, at + 2))
    }
}

/// The text of a node: the hexadecimal form of vendor data, the characters
/// of a file path, and nothing for a node of another kind.
pub open spec fn node_text(kind: u8, sub_kind: u8, raw: Seq<u8>) -> Result<
    Option<Seq<char>>,
    DescriptionError,
> {
    if kind == MEDIA_DEVICE_PATH && sub_kind == MEDIA_VENDOR {
        Ok(Some(hex_text(raw)))
    } else if kind == MEDIA_DEVICE_PATH && sub_kind == MEDIA_FILE_PATH {
        if raw.len() % 2 == 0 {
            Ok(Some(units_text(raw)))
        } else {
            Err(DescriptionError::InvalidLength)
        }
    } else {
        Ok(None)
    }
}

/// The text of the last node of the path `path`.
pub open spec fn nested_data(path: Seq<u8>) -> Result<Option<Seq<char>>, DescriptionError> {
    match last_node(path, 0) {
        Err(e) => Err(e),
        Ok((kind, sub_kind, raw)) => node_text(kind, sub_kind, raw),
    }
}

/// The device path of an image record, without its end node: the bytes
/// from offset 32 on, four fewer than the eight-byte length at offset 24
/// says.
pub open spec fn device_path(data: Seq<u8>) -> Result<Seq<u8>, DescriptionError> {
    if !fits(data, 24, 8) {
        Err(DescriptionError::TooShort)
    } else if le_u64_at(data, 24) < NODE_HEADER_LEN {
        Err(DescriptionError::InvalidLength)
    } else if !fits(data, DEVICE_PATH_START as int, le_u64_at(data, 24) - NODE_HEADER_LEN) {
        Err(DescriptionError::TooShort)
    } else {
        Ok(
            data.subrange(
                DEVICE_PATH_START as int,
                DEVICE_PATH_START + le_u64_at(data, 24) - NODE_HEADER_LEN,
            ),
        )
    }
}

/// The text of a boot-services application: the text of the last node of
/// its device path, and no text where that node has none.
pub open spec fn boot_services_app_text(data: Seq<u8>) -> Result<Seq<char>, DescriptionError> {
    match device_path(data) {
        Err(e) => Err(e),
        Ok(path) => match nested_data(path) {
            Err(e) => Err(e),
            Ok(Some(text)) => Ok(text),
            Ok(None) => Ok(Seq::empty()),
        },
    }
}

/// Whether `r` is `model`, the strings taken by their characters.
pub open spec fn nested_as(
    r: Result<Option<String>, DescriptionError>,
    model: Result<Option<Seq<char>>, DescriptionError>,
) -> bool {
    match model {
        Ok(Some(text)) => r matches Ok(Some(s)) && s@ == text,
        Ok(None) => r matches Ok(None),
        Err(e) => r matches Err(err) && err == e,
    }
}

/// Walks the nodes of a device path and gives the text of the last one.
pub fn get_nested_data(device_path_bytes: &[u8]) -> (r: Result<Option<String>, DescriptionError>)
    ensures
        nested_as(r, nested_data(device_path_bytes@)),
{
    let mut at: usize = 0;
    loop
        invariant
            at <= device_path_bytes.len(),
            last_node(device_path_bytes@, 0) == last_node(device_path_bytes@, at as int),
        decreases device_path_bytes.len() - at,
    {
        if device_path_bytes.len() - at < NODE_HEADER_LEN {
            return Err(DescriptionError::TooShort);
        }
        let kind = device_path_bytes[at];
        let sub_kind = device_path_bytes[at + 1];
        let length = match read_u16(device_path_bytes, at + 2) {
            Some(length) => length as usize,
            None => {
                return Err(DescriptionError::TooShort);
            },
        };
        if length < NODE_HEADER_LEN {
            return Err(DescriptionError::InvalidLength);
        }
        if device_path_bytes.len() - at < length {
            return Err(DescriptionError::TooShort);
        }
        if at + length == device_path_bytes.len() {
            let raw = slice_subrange(device_path_bytes, at + NODE_HEADER_LEN, at + length);
            if kind == MEDIA_DEVICE_PATH && sub_kind == MEDIA_VENDOR {
                return Ok(Some(hex_encode(raw)));
            } else if kind == MEDIA_DEVICE_PATH && sub_kind == MEDIA_FILE_PATH {
                if raw.len() % 2 != 0 {
                    return Err(DescriptionError::InvalidLength);
                }
                return Ok(Some(recover_string(raw)));
            } else {
                return Ok(None);
            }
        }
        at = at + length;
    }
}

impl EvBootServicesAppParser {
    /// Reads the text of a boot-services application.
    pub fn parse(data: &[u8]) -> (r: Result<String, DescriptionError>)
        ensures
            parsed_as(r, boot_services_app_text(data@)),
    {
        let length = match read_u64(data, 24) {
            Some(length) => length,
            None => {
                return Err(DescriptionError::TooShort);
            },
        };
        if length < NODE_HEADER_LEN as u64 {
            return Err(DescriptionError::InvalidLength);
        }
        if length - NODE_HEADER_LEN as u64 > (data.len() - DEVICE_PATH_START) as u64 {
            return Err(DescriptionError::TooShort);
        }
        let end = DEVICE_PATH_START + (length - NODE_HEADER_LEN as u64) as usize;
        match get_nested_data(slice_subrange(data, DEVICE_PATH_START, end)) {
            Ok(Some(text)) => Ok(text),
            Ok(None) => Ok(String::new()),
            Err(e) => Err(e),
        }
    }
}

impl DescriptionParser for EvBootServicesAppParser {
    open spec fn description(&self, data: Seq<u8>) -> Seq<char> {
        or_hex(boot_services_app_text(data), data)
    }

    fn parse_description(&self, data: Vec<u8>) -> (text: String) {
        text_or_hex(EvBootServicesAppParser::parse(data.as_slice()), data.as_slice())
    }
}

} // verus!
