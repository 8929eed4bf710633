use eventlog_rs::parser::parsers::boot_services_app::get_nested_data;
use eventlog_rs::parser::parsers::{
    EvBlankParser, EvBootServicesAppParser, EvEfiVariableParser, EvEventTagParser,
    EvHandoffTableParser, EvSimpleParser,
};
use eventlog_rs::parser::{describe, parser_for, read_text, DescriptionError};
use eventlog_rs::parser::{DescriptionParser, ParserKind};

fn node(kind: u8, sub_kind: u8, data: &[u8]) -> Vec<u8> {
    let mut out = vec![kind, sub_kind];
    out.extend_from_slice(&((data.len() + 4) as u16).to_le_bytes());
    out.extend_from_slice(data);
    out
}

fn image(path: &[u8]) -> Vec<u8> {
    let mut out = vec![0u8; 24];
    out.extend_from_slice(&((path.len() + 4) as u64).to_le_bytes());
    out.extend_from_slice(path);
    out.extend_from_slice(&[0x7F, 0xFF, 4, 0]);
    out
}

#[test]
fn simple_text() {
    assert_eq!(EvSimpleParser.parse_description(b"Calling EFI Application".to_vec()), "Calling EFI Application");
    assert_eq!(EvSimpleParser.parse_description(vec![0xFF, 0x01]), "ff01");
}

#[test]
fn blank_text() {
    assert_eq!(EvBlankParser.parse_description(vec![1, 2, 3]), "");
}

#[test]
fn event_tag_text() {
    let mut data = vec![9, 9, 9, 9];
    data.extend_from_slice(&5u32.to_le_bytes());
    data.extend_from_slice(b"td\0hob-ignored");
    assert_eq!(EvEventTagParser.parse_description(data.clone()), "tdho");
    assert_eq!(EvEventTagParser::parse(&data), Ok(String::from("tdho")));
}

#[test]
fn event_tag_too_short_falls_back_to_hex() {
    assert_eq!(EvEventTagParser::parse(&[1, 2, 3]), Err(DescriptionError::TooShort));
    assert_eq!(EvEventTagParser.parse_description(vec![1, 2, 0xAB]), "0102ab");
    let mut data = vec![0, 0, 0, 0];
    data.extend_from_slice(&3u32.to_le_bytes());
    data.extend_from_slice(b"ab");
    assert_eq!(EvEventTagParser::parse(&data), Err(DescriptionError::TooShort));
    assert_eq!(EvEventTagParser.parse_description(data), "00000000030000006162");
}

#[test]
fn event_tag_invalid_text_falls_back_to_hex() {
    let mut data = vec![0, 0, 0, 0];
    data.extend_from_slice(&1u32.to_le_bytes());
    data.push(0xFF);
    assert_eq!(EvEventTagParser::parse(&data), Err(DescriptionError::InvalidText));
    assert_eq!(EvEventTagParser.parse_description(data), "0000000001000000ff");
}

#[test]
fn handoff_table_text() {
    let mut data = vec![3];
    data.extend_from_slice(b"abcdef");
    assert_eq!(EvHandoffTableParser.parse_description(data), "abc");
    assert_eq!(EvHandoffTableParser::parse(&[]), Err(DescriptionError::TooShort));
    assert_eq!(EvHandoffTableParser::parse(&[2, b'a']), Err(DescriptionError::TooShort));
    assert_eq!(EvHandoffTableParser.parse_description(vec![2, b'a']), "0261");
    assert_eq!(EvHandoffTableParser::parse(&[0]), Ok(String::new()));
}

#[test]
fn efi_variable_text() {
    let mut data = vec![0u8; 16];
    data.extend_from_slice(&2u64.to_le_bytes());
    data.extend_from_slice(&[7u8; 8]);
    data.extend_from_slice(&[b'd', 0, b'b', 0]);
    data.extend_from_slice(&[1, 2, 3]);
    assert_eq!(EvEfiVariableParser.parse_description(data.clone()), "db");
    data[16] = 200;
    assert_eq!(EvEfiVariableParser::parse(&data), Err(DescriptionError::TooShort));
    data[23] = 0xFF;
    assert_eq!(EvEfiVariableParser::parse(&data), Err(DescriptionError::TooShort));
    assert_eq!(EvEfiVariableParser::parse(&[0u8; 23]), Err(DescriptionError::TooShort));
    assert_eq!(EvEfiVariableParser::parse(&[0u8; 24]), Err(DescriptionError::TooShort));
    assert_eq!(EvEfiVariableParser::parse(&[0u8; 32]), Ok(String::new()));
}

#[test]
fn text_field_reads() {
    assert_eq!(read_text(b"xxhello", 2, 5), Ok(String::from("hello")));
    assert_eq!(read_text(b"xxhello", 2, 6), Err(DescriptionError::TooShort));
    assert_eq!(read_text(b"xxhello", 8, 0), Err(DescriptionError::TooShort));
    assert_eq!(read_text(b"xxhello", 7, 0), Ok(String::new()));
    assert_eq!(read_text(&[0x80], 0, 1), Err(DescriptionError::InvalidText));
}

#[test]
fn nested_file_path() {
    let mut path = node(2, 1, &[1, 2, 3, 4]);
    path.extend(node(4, 4, &[b'\\', 0, b'E', 0, b'F', 0, b'I', 0]));
    assert_eq!(get_nested_data(&path), Ok(Some(String::from("\\EFI"))));
    assert_eq!(EvBootServicesAppParser.parse_description(image(&path)), "\\EFI");
}

#[test]
fn nested_vendor_data() {
    let path = node(4, 3, &[0xDE, 0xAD, 0x01]);
    assert_eq!(get_nested_data(&path), Ok(Some(String::from("dead01"))));
    assert_eq!(EvBootServicesAppParser.parse_description(image(&path)), "dead01");
}

#[test]
fn nested_other_node_has_no_text() {
    let mut path = node(4, 4, &[b'a', 0]);
    path.extend(node(1, 1, &[5]));
    assert_eq!(get_nested_data(&path), Ok(None));
    assert_eq!(EvBootServicesAppParser.parse_description(image(&path)), "");
}

#[test]
fn nested_malformed_paths() {
    assert_eq!(get_nested_data(&[]), Err(DescriptionError::TooShort));
    assert_eq!(get_nested_data(&[4, 3, 4]), Err(DescriptionError::TooShort));
    assert_eq!(get_nested_data(&[4, 3, 3, 0]), Err(DescriptionError::InvalidLength));
    assert_eq!(get_nested_data(&[4, 3, 9, 0, 1]), Err(DescriptionError::TooShort));
    assert_eq!(get_nested_data(&node(4, 4, &[b'a', 0, b'b'])), Err(DescriptionError::InvalidLength));
    let mut path = node(4, 3, &[1]);
    path.extend_from_slice(&[1, 2]);
    assert_eq!(get_nested_data(&path), Err(DescriptionError::TooShort));
}

#[test]
fn boot_services_app_malformed_falls_back_to_hex() {
    assert_eq!(EvBootServicesAppParser::parse(&[0u8; 31]), Err(DescriptionError::TooShort));
    assert_eq!(EvBootServicesAppParser.parse_description(vec![0xAB; 3]), "ababab");
    let mut short = vec![0u8; 24];
    short.extend_from_slice(&3u64.to_le_bytes());
    assert_eq!(EvBootServicesAppParser::parse(&short), Err(DescriptionError::InvalidLength));
    let mut long = vec![0u8; 24];
    long.extend_from_slice(&100u64.to_le_bytes());
    long.extend_from_slice(&[4, 3, 4, 0]);
    assert_eq!(EvBootServicesAppParser::parse(&long), Err(DescriptionError::TooShort));
    let mut empty = vec![0u8; 24];
    empty.extend_from_slice(&4u64.to_le_bytes());
    assert_eq!(EvBootServicesAppParser::parse(&empty), Err(DescriptionError::TooShort));
}

#[test]
fn parsers_by_event_type() {
    assert_eq!(parser_for("EV_EVENT_TAG"), Some(ParserKind::EventTag));
    assert_eq!(parser_for("EV_SEPARATOR"), Some(ParserKind::Blank));
    assert_eq!(parser_for("EV_EFI_VARIABLE_DRIVER_CONFIG"), Some(ParserKind::EfiVariable));
    assert_eq!(parser_for("EV_EFI_VARIABLE_BOOT"), Some(ParserKind::EfiVariable));
    assert_eq!(parser_for("EV_EFI_VARIABLE_AUTHORITY"), Some(ParserKind::EfiVariable));
    assert_eq!(parser_for("EV_EFI_VARIABLE_BOOT2"), Some(ParserKind::EfiVariable));
    assert_eq!(parser_for("EV_EFI_HANDOFF_TABLES2"), Some(ParserKind::HandoffTable));
    assert_eq!(parser_for("EV_EFI_PLATFORM_FIRMWARE_BLOB2"), Some(ParserKind::HandoffTable));
    assert_eq!(parser_for("EV_EFI_BOOT_SERVICES_APPLICATION"), Some(ParserKind::BootServicesApp));
    assert_eq!(parser_for("EV_EFI_ACTION"), Some(ParserKind::Simple));
    assert_eq!(parser_for("EV_IPL"), Some(ParserKind::Simple));
    assert_eq!(parser_for("EV_POST_CODE"), Some(ParserKind::Simple));
    assert_eq!(parser_for("EV_ACTION"), Some(ParserKind::Simple));
    assert_eq!(parser_for("EV_PLATFORM_CONFIG_FLAGS"), Some(ParserKind::Simple));
    assert_eq!(parser_for("EV_COMPACT_HASH"), Some(ParserKind::Simple));
    assert_eq!(parser_for("EV_OMIT_BOOT_DEVICE_EVENTS"), Some(ParserKind::Simple));
    assert_eq!(parser_for("EV_EFI_HCRTM_EVENT"), Some(ParserKind::Simple));
    assert_eq!(parser_for("EV_NO_ACTION"), None);
    assert_eq!(parser_for("UNKNOWN_TYPE: 13"), None);
    assert_eq!(parser_for(""), None);
}

#[test]
fn describe_dispatches_and_falls_back() {
    assert_eq!(describe("EV_SEPARATOR", vec![0, 0, 0, 0]), "");
    assert_eq!(describe("EV_EFI_HANDOFF_TABLES2", vec![2, b'o', b'k', b'!']), "ok");
    assert_eq!(describe("EV_IPL", b"grub_cmd".to_vec()), "grub_cmd");
    assert_eq!(describe("UNKNOWN_TYPE: 13", b"text".to_vec()), "text");
    assert_eq!(describe("UNKNOWN_TYPE: 13", vec![0xFE, 0x01]), "fe01");
}
