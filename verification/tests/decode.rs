use eventlog_rs::eventlog::{DecodeError, Eventlog, Framing};

fn declaration(register: u32, reserved: bool, pairs: &[(u16, u16)], vendor: &[u8]) -> Vec<u8> {
    let mut out = Vec::new();
    out.extend_from_slice(&register.to_le_bytes());
    out.extend_from_slice(&3u32.to_le_bytes());
    if reserved {
        out.extend_from_slice(&[0xAAu8; 48]);
    }
    out.extend_from_slice(&(pairs.len() as u32).to_le_bytes());
    for (id, width) in pairs {
        out.extend_from_slice(&id.to_le_bytes());
        out.extend_from_slice(&width.to_le_bytes());
    }
    out.push(vendor.len() as u8);
    out.extend_from_slice(vendor);
    out
}

fn measurement(register: u32, event_type: u32, digests: &[(u16, &[u8])], desc: &[u8]) -> Vec<u8> {
    let mut out = Vec::new();
    out.extend_from_slice(&register.to_le_bytes());
    out.extend_from_slice(&event_type.to_le_bytes());
    out.extend_from_slice(&(digests.len() as u32).to_le_bytes());
    for (id, value) in digests {
        out.extend_from_slice(&id.to_le_bytes());
        out.extend_from_slice(value);
    }
    out.extend_from_slice(&(desc.len() as u32).to_le_bytes());
    out.extend_from_slice(desc);
    out
}

fn sample() -> Vec<u8> {
    let mut data = declaration(0, true, &[(0xB, 32)], &[]);
    data.extend(measurement(0, 1, &[(0xB, &[0x11; 32])], &[]));
    data
}

#[test]
fn decodes_declaration_and_measurement() {
    let log = Eventlog::try_from(sample()).unwrap();
    assert_eq!(log.log.len(), 1);
    let entry = &log.log[0];
    assert_eq!(entry.target_measurement_registry, 0);
    assert_eq!(entry.event_type_id, 1);
    assert_eq!(entry.event_type, "EV_POST_CODE");
    assert_eq!(entry.digests.len(), 1);
    assert_eq!(entry.digests[0].algorithm, "TPM_ALG_SHA256");
    assert_eq!(entry.digests[0].digest, vec![0x11u8; 32]);
    assert_eq!(entry.event_desc, Vec::<u8>::new());
}

#[test]
fn lone_terminator_of_ones_is_an_empty_log() {
    let log = Eventlog::try_from(vec![0xFF; 8]).unwrap();
    assert_eq!(log.log.len(), 0);
}

#[test]
fn lone_terminator_of_zeros_is_an_empty_log() {
    let log = Eventlog::try_from(vec![0x00; 8]).unwrap();
    assert_eq!(log.log.len(), 0);
}

#[test]
fn empty_buffer_is_an_empty_log() {
    let log = Eventlog::try_from(Vec::new()).unwrap();
    assert_eq!(log.log.len(), 0);
}

#[test]
fn bytes_after_a_terminator_are_not_read() {
    let mut data = sample();
    data.extend_from_slice(&[0xFF; 8]);
    data.extend_from_slice(&[1, 2, 3]);
    let log = Eventlog::try_from(data).unwrap();
    assert_eq!(log.log.len(), 1);
}

#[test]
fn decoding_twice_gives_the_same_entries() {
    let first = Eventlog::try_from(sample()).unwrap();
    let second = Eventlog::try_from(sample()).unwrap();
    assert_eq!(first.log.len(), second.log.len());
    for (a, b) in first.log.iter().zip(second.log.iter()) {
        assert_eq!(a.target_measurement_registry, b.target_measurement_registry);
        assert_eq!(a.event_type_id, b.event_type_id);
        assert_eq!(a.event_type, b.event_type);
        assert_eq!(a.event_desc, b.event_desc);
        assert_eq!(a.digests[0].algorithm, b.digests[0].algorithm);
        assert_eq!(a.digests[0].digest, b.digests[0].digest);
    }
}

#[test]
fn every_cut_inside_a_record_is_truncated() {
    let data = sample();
    let boundary = declaration(0, true, &[(0xB, 32)], &[]).len();
    for cut in 1..data.len() {
        let r = Eventlog::try_from(data[..cut].to_vec());
        if cut == boundary {
            assert_eq!(r.unwrap().log.len(), 0);
        } else {
            assert!(matches!(r, Err(DecodeError::Truncated { .. })), "cut at {}", cut);
        }
    }
}

#[test]
fn truncated_digest_reports_its_offset() {
    let decl = declaration(0, true, &[(0xB, 32)], &[]);
    let mut data = decl.clone();
    // digest count and algorithm present, but only ten of 32 digest bytes
    data.extend_from_slice(&0u32.to_le_bytes());
    data.extend_from_slice(&1u32.to_le_bytes());
    data.extend_from_slice(&1u32.to_le_bytes());
    data.extend_from_slice(&0xBu16.to_le_bytes());
    data.extend_from_slice(&[0x11; 10]);
    let r = Eventlog::try_from(data);
    assert_eq!(r.err(), Some(DecodeError::Truncated { offset: decl.len() + 14 }));
}

#[test]
fn truncated_header_reports_the_record_start() {
    let r = Eventlog::try_from(vec![1, 2, 3]);
    assert_eq!(r.err(), Some(DecodeError::Truncated { offset: 0 }));
}

#[test]
fn truncated_description_reports_its_offset() {
    let mut data = declaration(0, true, &[(0xB, 32)], &[]);
    let start = data.len();
    let mut m = measurement(2, 1, &[(0xB, &[0x11; 32])], b"hello");
    m.pop();
    data.extend(m);
    let r = Eventlog::try_from(data);
    assert_eq!(r.err(), Some(DecodeError::Truncated { offset: start + 12 + 34 + 4 }));
}

#[test]
fn vendor_information_beyond_the_buffer_is_truncated() {
    let mut data = declaration(0, true, &[(0xB, 32)], &[1, 2, 3, 4]);
    let len = data.len();
    data.truncate(len - 2);
    let r = Eventlog::try_from(data);
    assert_eq!(r.err(), Some(DecodeError::Truncated { offset: len - 4 }));
}

#[test]
fn measurement_before_declaration_is_rejected() {
    let data = measurement(0, 1, &[(0xB, &[0x11; 32])], &[]);
    let r = Eventlog::try_from(data);
    assert_eq!(r.err(), Some(DecodeError::UnknownAlgorithmDigestLength { algorithm_id: 0xB }));
}

#[test]
fn undeclared_algorithm_is_rejected() {
    let mut data = declaration(0, true, &[(0xB, 32)], &[]);
    data.extend(measurement(0, 1, &[(0xC, &[0x11; 48])], &[]));
    let r = Eventlog::try_from(data);
    assert_eq!(r.err(), Some(DecodeError::UnknownAlgorithmDigestLength { algorithm_id: 0xC }));
}

#[test]
fn later_declaration_replaces_a_length() {
    let mut data = declaration(0, true, &[(0xB, 32), (0xB, 4)], &[9, 9]);
    data.extend(measurement(5, 0x8000_0001, &[(0xB, &[1, 2, 3, 4])], b"ab"));
    let log = Eventlog::try_from(data).unwrap();
    assert_eq!(log.log.len(), 1);
    assert_eq!(log.log[0].target_measurement_registry, 5);
    assert_eq!(log.log[0].event_type, "EV_EFI_VARIABLE_DRIVER_CONFIG");
    assert_eq!(log.log[0].digests[0].digest, vec![1, 2, 3, 4]);
    assert_eq!(log.log[0].event_desc, b"ab".to_vec());
}

#[test]
fn several_digests_keep_their_order() {
    let mut data = declaration(0, true, &[(0xB, 2), (0xC, 3), (0x99, 1)], &[]);
    data.extend(measurement(
        1,
        0x1234_5678,
        &[(0xC, &[7, 8, 9]), (0xB, &[1, 2]), (0x99, &[5])],
        &[0xFF, 0xFE],
    ));
    let log = Eventlog::try_from(data).unwrap();
    let entry = &log.log[0];
    assert_eq!(entry.event_type, "UNKNOWN_TYPE: 12345678");
    assert_eq!(entry.digests.len(), 3);
    assert_eq!(entry.digests[0].algorithm, "TPM_ALG_SHA384");
    assert_eq!(entry.digests[0].digest, vec![7, 8, 9]);
    assert_eq!(entry.digests[1].algorithm, "TPM_ALG_SHA256");
    assert_eq!(entry.digests[1].digest, vec![1, 2]);
    assert_eq!(entry.digests[2].algorithm, "UNKNOWN_ALGORITHM: 99");
    assert_eq!(entry.digests[2].digest, vec![5]);
    assert_eq!(entry.event_desc, vec![0xFF, 0xFE]);
}

#[test]
fn measurement_without_digests_is_rejected() {
    // register 3, event type 1, no digest, no description
    let data = vec![3, 0, 0, 0, 1, 0, 0, 0, 0, 0, 0, 0, 0, 0, 0, 0];
    assert_eq!(data, measurement(3, 1, &[], &[]));
    let r = Eventlog::try_from(data);
    assert_eq!(r.err(), Some(DecodeError::MissingDigest { offset: 8 }));
}

#[test]
fn measurement_without_digests_after_a_declaration_is_rejected() {
    let mut data = declaration(0, true, &[(0xB, 32)], &[]);
    let start = data.len();
    data.extend(measurement(0, 1, &[(0xB, &[0x11; 32])], &[]));
    let second = data.len();
    data.extend(measurement(3, 1, &[], b"x"));
    assert!(start < second);
    let r = Eventlog::try_from(data.clone());
    assert_eq!(r.err(), Some(DecodeError::MissingDigest { offset: second + 8 }));
    let r = Eventlog::decode(&data, Framing::sentinel());
    assert_eq!(r.err(), Some(DecodeError::MissingDigest { offset: second + 8 }));
}

#[test]
fn every_decoded_entry_has_a_digest() {
    let mut data = declaration(0, true, &[(0xB, 2), (0xC, 1)], &[]);
    data.extend(measurement(0, 1, &[(0xB, &[1, 2])], &[]));
    data.extend(declaration(7, true, &[(0xD, 3)], &[1]));
    data.extend(measurement(2, 4, &[(0xC, &[9]), (0xB, &[3, 4])], b"d"));
    let log = Eventlog::try_from(data).unwrap();
    assert_eq!(log.log.len(), 2);
    assert!(log.has_digests());
    assert!(log.log.iter().all(|e| !e.digests.is_empty() && e.event_type_id != 3));
}

#[test]
fn sentinel_framing_stops_at_the_sentinel() {
    let mut data = declaration(0, true, &[(0xB, 2)], &[]);
    data.extend(measurement(0, 0, &[(0xB, &[1, 2])], &[]));
    data.extend_from_slice(&0xFFFF_FFFFu32.to_le_bytes());
    data.extend_from_slice(&[1, 2, 3]);
    let log = Eventlog::decode(&data, Framing::sentinel()).unwrap();
    assert_eq!(log.log.len(), 1);
    assert_eq!(log.log[0].event_type, "EV_PREBOOT_CERT");
}

#[test]
fn sentinel_framing_reads_a_record_of_zeros() {
    // register 0 and event type 0 end a stop-flag log, but not this one
    let mut data = declaration(0, false, &[(0xB, 2)], &[]);
    data.extend(measurement(0, 0, &[(0xB, &[1, 2])], &[]));
    let log = Eventlog::decode(&data, Framing::sentinel_minimal()).unwrap();
    assert_eq!(log.log.len(), 1);
    let stop = Eventlog::decode(&measurement(0, 0, &[], &[]), Framing::crypto_agile()).unwrap();
    assert_eq!(stop.log.len(), 0);
}

#[test]
fn minimal_declaration_has_no_reserved_header() {
    let mut data = declaration(0, false, &[(0xB, 1)], &[]);
    data.extend(measurement(4, 1, &[(0xB, &[0x42])], &[]));
    let log = Eventlog::decode(&data, Framing::sentinel_minimal()).unwrap();
    assert_eq!(log.log[0].digests[0].digest, vec![0x42]);
    // the same bytes read with a reserved header run out of buffer
    let r = Eventlog::decode(&data, Framing::sentinel());
    assert!(matches!(r, Err(DecodeError::Truncated { .. })));
}

#[test]
fn sentinel_framing_truncated_event_type() {
    let r = Eventlog::decode(&[1, 0, 0, 0, 9], Framing::sentinel());
    assert_eq!(r.err(), Some(DecodeError::Truncated { offset: 4 }));
}
