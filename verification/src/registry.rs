//! The names of event types and digest algorithms.
//!
//! A name only labels an entry. An identifier without a name gets a
//! placeholder made of a fixed prefix and the identifier in hexadecimal, so
//! that resolution never fails.

use crate::text::{lower_hex, push_lower_hex};
use vstd::prelude::*;
use vstd::string::StringExecFns;

verus! {

/// The event type whose entry declares digest algorithms and their lengths.
pub const EV_NO_ACTION: u32 = 0x3;

/// The name of the event type `id`, where it has one.
pub open spec fn known_event_type(id: u32) -> Option<Seq<char>> {
    if id == 0x0 {
        Some("EV_PREBOOT_CERT"@)
    } else if id == 0x1 {
        Some("EV_POST_CODE"@)
    } else if id == 0x2 {
        Some("EV_UNUSED"@)
    } else if id == 0x3 {
        Some("EV_NO_ACTION"@)
    } else if id == 0x4 {
        Some("EV_SEPARATOR"@)
    } else if id == 0x5 {
        Some("EV_ACTION"@)
    } else if id == 0x6 {
        Some("EV_EVENT_TAG"@)
    } else if id == 0x7 {
        Some("EV_S_CRTM_CONTENTS"@)
    } else if id == 0x8 {
        Some("EV_S_CRTM_VERSION"@)
    } else if id == 0x9 {
        Some("EV_CPU_MICROCODE"@)
    } else if id == 0xa {
        Some("EV_PLATFORM_CONFIG_FLAGS"@)
    } else if id == 0xb {
        Some("EV_TABLE_OF_DEVICES"@)
    } else if id == 0xc {
        Some("EV_COMPACT_HASH"@)
    } else if id == 0xd {
        Some("EV_IPL"@)
    } else if id == 0xe {
        Some("EV_IPL_PARTITION_DATA"@)
    } else if id == 0xf {
        Some("EV_NONHOST_CODE"@)
    } else if id == 0x10 {
        Some("EV_NONHOST_CONFIG"@)
    } else if id == 0x11 {
        Some("EV_NONHOST_INFO"@)
    } else if id == 0x12 {
        Some("EV_OMIT_BOOT_DEVICE_EVENTS"@)
    } else if id == 0x8000_0000 {
        Some("EV_EFI_EVENT_BASE"@)
    } else if id == 0x8000_0001 {
        Some("EV_EFI_VARIABLE_DRIVER_CONFIG"@)
    } else if id == 0x8000_0002 {
        Some("EV_EFI_VARIABLE_BOOT"@)
    } else if id == 0x8000_0003 {
        Some("EV_EFI_BOOT_SERVICES_APPLICATION"@)
    } else if id == 0x8000_0004 {
        Some("EV_EFI_BOOT_SERVICES_DRIVER"@)
    } else if id == 0x8000_0005 {
        Some("EV_EFI_RUNTIME_SERVICES_DRIVER"@)
    } else if id == 0x8000_0006 {
        Some("EV_EFI_GPT_EVENT"@)
    } else if id == 0x8000_0007 {
        Some("EV_EFI_ACTION"@)
    } else if id == 0x8000_0008 {
        Some("EV_EFI_PLATFORM_FIRMWARE_BLOB"@)
    } else if id == 0x8000_0009 {
        Some("EV_EFI_HANDOFF_TABLES"@)
    } else if id == 0x8000_000a {
        Some("EV_EFI_PLATFORM_FIRMWARE_BLOB2"@)
    } else if id == 0x8000_000b {
        Some("EV_EFI_HANDOFF_TABLES2"@)
    } else if id == 0x8000_00e0 {
        Some("EV_EFI_VARIABLE_AUTHORITY"@)
    } else {
        None
    }
}

/// The name of the digest algorithm `id`, where it has one.
pub open spec fn known_algorithm(id: u16) -> Option<Seq<char>> {
    if id == 0x1 {
        Some("TPM_ALG_RSA"@)
    } else if id == 0x3 {
        Some("TPM_ALG_TDES"@)
    } else if id == 0xB {
        Some("TPM_ALG_SHA256"@)
    } else if id == 0xC {
        Some("TPM_ALG_SHA384"@)
    } else if id == 0xD {
        Some("TPM_ALG_SHA512"@)
    } else {
        None
    }
}

/// The label of the event type `id`: its name, or the placeholder.
pub open spec fn event_type_label(id: u32) -> Seq<char> {
    match known_event_type(id) {
        Some(name) => name,
        None => "UNKNOWN_TYPE: "@ + lower_hex(id as nat),
    }
}

/// The label of the digest algorithm `id`: its name, or the placeholder.
pub open spec fn algorithm_label(id: u16) -> Seq<char> {
    match known_algorithm(id) {
        Some(name) => name,
        None => "UNKNOWN_ALGORITHM: "@ + lower_hex(id as nat),
    }
}

/// Looks up the name of the event type `id`.
pub fn lookup_event_type(id: u32) -> (r: Option<&'static str>)
    ensures
        match r {
            Some(name) => known_event_type(id) == Some(name@),
            None => known_event_type(id) is None,
        },
{
    match id {
        0x0 => Some("EV_PREBOOT_CERT"),
        0x1 => Some("EV_POST_CODE"),
        0x2 => Some("EV_UNUSED"),
        0x3 => Some("EV_NO_ACTION"),
        0x4 => Some("EV_SEPARATOR"),
        0x5 => Some("EV_ACTION"),
        0x6 => Some("EV_EVENT_TAG"),
        0x7 => Some("EV_S_CRTM_CONTENTS"),
        0x8 => Some("EV_S_CRTM_VERSION"),
        0x9 => Some("EV_CPU_MICROCODE"),
        0xa => Some("EV_PLATFORM_CONFIG_FLAGS"),
        0xb => Some("EV_TABLE_OF_DEVICES"),
        0xc => Some("EV_COMPACT_HASH"),
        0xd => Some("EV_IPL"),
        0xe => Some("EV_IPL_PARTITION_DATA"),
        0xf => Some("EV_NONHOST_CODE"),
        0x10 => Some("EV_NONHOST_CONFIG"),
        0x11 => Some("EV_NONHOST_INFO"),
        0x12 => Some("EV_OMIT_BOOT_DEVICE_EVENTS"),
        0x8000_0000 => Some("EV_EFI_EVENT_BASE"),
        0x8000_0001 => Some("EV_EFI_VARIABLE_DRIVER_CONFIG"),
        0x8000_0002 => Some("EV_EFI_VARIABLE_BOOT"),
        0x8000_0003 => Some("EV_EFI_BOOT_SERVICES_APPLICATION"),
        0x8000_0004 => Some("EV_EFI_BOOT_SERVICES_DRIVER"),
        0x8000_0005 => Some("EV_EFI_RUNTIME_SERVICES_DRIVER"),
        0x8000_0006 => Some("EV_EFI_GPT_EVENT"),
        0x8000_0007 => Some("EV_EFI_ACTION"),
        0x8000_0008 => Some("EV_EFI_PLATFORM_FIRMWARE_BLOB"),
        0x8000_0009 => Some("EV_EFI_HANDOFF_TABLES"),
        0x8000_000a => Some("EV_EFI_PLATFORM_FIRMWARE_BLOB2"),
        0x8000_000b => Some("EV_EFI_HANDOFF_TABLES2"),
        0x8000_00e0 => Some("EV_EFI_VARIABLE_AUTHORITY"),
        _ => None,
    }
}

/// Looks up the name of the digest algorithm `id`.
pub fn lookup_algorithm(id: u16) -> (r: Option<&'static str>)
    ensures
        match r {
            Some(name) => known_algorithm(id) == Some(name@),
            None => known_algorithm(id) is None,
        },
{
    match id {
        0x1 => Some("TPM_ALG_RSA"),
        0x3 => Some("TPM_ALG_TDES"),
        0xB => Some("TPM_ALG_SHA256"),
        0xC => Some("TPM_ALG_SHA384"),
        0xD => Some("TPM_ALG_SHA512"),
        _ => None,
    }
}

/// Resolves the event type `id` to its label. The same identifier gives the
/// same label on every call, whether it has a name or not.
pub fn event_type_name(id: u32) -> (label: String)
    ensures
        label@ == event_type_label(id),
{
    match lookup_event_type(id) {
        Some(name) => String::from_str(name),
        None => {
            let mut label = String::from_str("UNKNOWN_TYPE: ");
            push_lower_hex(&mut label, id);
            label
        },
    }
}

/// Resolves the digest algorithm `id` to its label. The same identifier
/// gives the same label on every call, whether it has a name or not.
pub fn algorithm_name(id: u16) -> (label: String)
    ensures
        label@ == algorithm_label(id),
{
    match lookup_algorithm(id) {
        Some(name) => String::from_str(name),
        None => {
            let mut label = String::from_str("UNKNOWN_ALGORITHM: ");
            push_lower_hex(&mut label, id as u32);
            label
        },
    }
}

/// An event type without a name resolves to the placeholder: the fixed
/// prefix and then the identifier in hexadecimal.
pub proof fn lemma_unknown_event_type(id: u32)
    requires
        known_event_type(id) is None,
    ensures
        event_type_label(id) == "UNKNOWN_TYPE: "@ + lower_hex(id as nat),
{
}

/// Resolution is a function of the identifier: two resolutions of one
/// identifier give the same label, whether the identifier has a name or not.
pub proof fn lemma_resolution_repeats(id: u32, first: String, second: String)
    requires
        first@ == event_type_label(id),
        second@ == event_type_label(id),
    ensures
        first@ == second@,
{
}

} // verus!
