use eventlog_rs::bios_eventlog::{BiosEventlog, BiosEventlogEntry};
use eventlog_rs::ccel::{locate_ccel, CcelError, CcelLocation};
use eventlog_rs::eventlog::{DecodeError, ElDigest, Eventlog, EventlogEntry};

fn record(pcr: u32, event_type: u32, digest: [u8; 20], data: &[u8]) -> Vec<u8> {
    let mut out = Vec::new();
    out.extend_from_slice(&pcr.to_le_bytes());
    out.extend_from_slice(&event_type.to_le_bytes());
    out.extend_from_slice(&digest);
    out.extend_from_slice(&(data.len() as u32).to_le_bytes());
    out.extend_from_slice(data);
    out
}

#[test]
fn bios_log_decodes() {
    let mut data = record(1, 0x8, [0xAA; 20], b"v1");
    data.extend(record(0, 0x4, [0xBB; 20], &[]));
    data.extend(record(2, 0x99, [0xCC; 20], &[1]));
    data.extend_from_slice(&[0xFF; 8]);
    data.extend_from_slice(&[7, 7]);
    let log = BiosEventlog::try_from(data).unwrap();
    assert_eq!(log.log.len(), 3);
    assert_eq!(log.log[0].pcr_index, 1);
    assert_eq!(log.log[0].event_type, "EV_S_CRTM_VERSION");
    assert_eq!(log.log[0].digest, vec![0xAA; 20]);
    assert_eq!(log.log[0].event_data, b"v1".to_vec());
    assert_eq!(log.log[1].event_type, "EV_SEPARATOR");
    assert_eq!(log.log[2].event_type, "UNKNOWN_TYPE: 99");
    assert_eq!(log.log[2].event_data, vec![1]);
}

#[test]
fn bios_log_ends_at_a_stop_flag_or_the_end() {
    assert_eq!(BiosEventlog::try_from(Vec::new()).unwrap().log.len(), 0);
    assert_eq!(BiosEventlog::try_from(vec![0xFF; 8]).unwrap().log.len(), 0);
    assert_eq!(BiosEventlog::try_from(vec![0; 40]).unwrap().log.len(), 0);
    assert_eq!(BiosEventlog::decode(&record(1, 1, [0; 20], b"abc")).unwrap().log.len(), 1);
}

#[test]
fn bios_log_cut_inside_a_record_is_truncated() {
    let data = record(1, 0x8, [0xAA; 20], b"v1");
    for cut in 1..data.len() {
        let r = BiosEventlog::try_from(data[..cut].to_vec());
        assert!(matches!(r, Err(DecodeError::Truncated { .. })), "cut at {}", cut);
    }
    assert_eq!(
        BiosEventlog::try_from(data[..7].to_vec()).err(),
        Some(DecodeError::Truncated { offset: 0 })
    );
    assert_eq!(
        BiosEventlog::try_from(data[..27].to_vec()).err(),
        Some(DecodeError::Truncated { offset: 8 })
    );
    assert_eq!(
        BiosEventlog::try_from(data[..30].to_vec()).err(),
        Some(DecodeError::Truncated { offset: 28 })
    );
    assert_eq!(
        BiosEventlog::try_from(data[..33].to_vec()).err(),
        Some(DecodeError::Truncated { offset: 32 })
    );
}

#[test]
fn bios_log_as_text() {
    let log = BiosEventlog {
        log: vec![
            BiosEventlogEntry {
                pcr_index: 4,
                event_type: String::from("EV_IPL"),
                digest: vec![0x01, 0xAB],
                event_data: b"boot".to_vec(),
            },
            BiosEventlogEntry {
                pcr_index: 10,
                event_type: String::from("EV_ACTION"),
                digest: vec![],
                event_data: vec![0xFF],
            },
        ],
    };
    assert_eq!(
        log.to_text(),
        "\nEvent Entry:\n\tPCR: 4\n\tEvent Type: EV_IPL\n\tDigest: 01ab\n\tEvent Data: boot\n\
         \nEvent Entry:\n\tPCR: 10\n\tEvent Type: EV_ACTION\n\tDigest: \n\tEvent Data: ff\n"
    );
    assert_eq!(BiosEventlog { log: Vec::new() }.to_text(), "");
}

#[test]
fn log_as_text() {
    let log = Eventlog {
        log: vec![EventlogEntry {
            target_measurement_registry: 1,
            event_type_id: 0x8000_0001,
            event_type: String::from("EV_EFI_VARIABLE_DRIVER_CONFIG"),
            digests: vec![
                ElDigest { algorithm: String::from("TPM_ALG_SHA384"), digest: vec![0x0F, 0xF0] },
                ElDigest { algorithm: String::from("TPM_ALG_SHA256"), digest: vec![0x11] },
            ],
            event_desc: vec![0x80, 0x01],
        }],
    };
    assert_eq!(
        log.to_text(),
        "\nEvent Entry:\n\tPCR: 1\n\tEvent Type id: 0x80000001\n\
         \tEvent Type: EV_EFI_VARIABLE_DRIVER_CONFIG\n\tDigest Algorithm: TPM_ALG_SHA384\n\
         \tDigest: 0ff0\n\tEvent Desc: 8001\n"
    );
    assert_eq!(Eventlog { log: Vec::new() }.to_text(), "");
}

fn description(signature: &[u8; 4], length: u32, rsv: u32, laml: u64, lasa: u64) -> Vec<u8> {
    let mut out = Vec::new();
    out.extend_from_slice(signature);
    out.extend_from_slice(&length.to_le_bytes());
    out.extend_from_slice(&[0x5A; 28]);
    out.extend_from_slice(&rsv.to_le_bytes());
    out.extend_from_slice(&laml.to_le_bytes());
    out.extend_from_slice(&lasa.to_le_bytes());
    out
}

#[test]
fn ccel_description_locates_the_log() {
    let d = description(b"CCEL", 56, 0, 0x1_0000, 0x7FFF_0000_1234);
    assert_eq!(locate_ccel(&d), Ok(CcelLocation { laml: 0x1_0000, lasa: 0x7FFF_0000_1234 }));
    let mut longer = description(b"CCEL", 60, 0, 1, 2);
    longer.extend_from_slice(&[0; 4]);
    assert_eq!(locate_ccel(&longer), Ok(CcelLocation { laml: 1, lasa: 2 }));
}

#[test]
fn ccel_description_checks() {
    let d = description(b"CCEL", 56, 0, 1, 2);
    assert_eq!(locate_ccel(&d[..55]), Err(CcelError::TooShort));
    assert_eq!(locate_ccel(&[]), Err(CcelError::TooShort));
    assert_eq!(locate_ccel(&description(b"CCEX", 56, 0, 1, 2)), Err(CcelError::WrongSignature));
    assert_eq!(locate_ccel(&description(b"CCEL", 56, 1, 1, 2)), Err(CcelError::ReservedNotZero));
    assert_eq!(locate_ccel(&description(b"CCEL", 57, 0, 1, 2)), Err(CcelError::LengthMismatch));
    // the checks come in order: signature before reserved field before length
    assert_eq!(locate_ccel(&description(b"XXXX", 57, 1, 1, 2)), Err(CcelError::WrongSignature));
    assert_eq!(locate_ccel(&description(b"CCEL", 57, 1, 1, 2)), Err(CcelError::ReservedNotZero));
}
