use eventlog_rs::eventlog::{ElDigest, Eventlog, EventlogEntry};
use eventlog_rs::hash::{join, HashAlgorithm};
use eventlog_rs::replay::{register_value, set_register, ReplayError};
use std::collections::HashMap;

fn unhex(s: &str) -> Vec<u8> {
    hex::decode(s).unwrap()
}

fn entry(register: u32, digests: &[&[u8]]) -> EventlogEntry {
    EventlogEntry {
        target_measurement_registry: register,
        event_type_id: 1,
        event_type: String::from("EV_POST_CODE"),
        digests: digests
            .iter()
            .map(|d| ElDigest { algorithm: String::from("TPM_ALG_SHA256"), digest: d.to_vec() })
            .collect(),
        event_desc: Vec::new(),
    }
}

const ONE: &str = "8878b15a7d6a3a4f464e8f9f42591dbc0cf4bedea0ec309003d2b2ee53655ef8";
const ONE_THEN_TWO: &str = "78830000e1197790a7e1884139a65721210d642ad112e6c9899a05cb214027a5";
const TWO_THEN_ONE: &str = "298396053340689734cc2bd8fc518b3f57b8ccac677eb8d10b9e8cb8b5b6721a";

#[test]
fn digest_lengths() {
    assert_eq!(HashAlgorithm::Sha256.digest_length(), 32);
    assert_eq!(HashAlgorithm::Sha384.digest_length(), 48);
}

#[test]
fn hash_of_known_messages() {
    assert_eq!(
        HashAlgorithm::Sha256.hash(&[b"abc"]),
        unhex("ba7816bf8f01cfea414140de5dae2223b00361a396177a9cb410ff61f20015ad")
    );
    assert_eq!(
        HashAlgorithm::Sha384.hash(&[b"abc"]),
        unhex(
            "cb00753f45a35e8bb5a03d699ac65007272c32ab0eded1631a8b605a43ff5bed\
             8086072ba1e7cc2358baeca134c825a7"
        )
    );
    assert_eq!(HashAlgorithm::Sha256.hash_bytes(b"abc"), HashAlgorithm::Sha256.hash(&[b"abc"]));
}

#[test]
fn hash_joins_its_parts_in_order() {
    let joined = HashAlgorithm::Sha256.hash(&[b"abc"]);
    assert_eq!(HashAlgorithm::Sha256.hash(&[b"a", b"", b"bc"]), joined);
    assert_ne!(HashAlgorithm::Sha256.hash(&[b"bc", b"a"]), joined);
    assert_eq!(HashAlgorithm::Sha256.hash(&[]).len(), 32);
}

#[test]
fn extend_hashes_value_then_digest() {
    assert_eq!(HashAlgorithm::Sha256.extend(&[0; 32], &[0x11; 32]), unhex(ONE));
    assert_eq!(HashAlgorithm::Sha256.extend(&unhex(ONE), &[0x22; 32]), unhex(ONE_THEN_TWO));
    assert_eq!(
        HashAlgorithm::Sha384.extend(&[0; 48], &[0x11; 48]),
        unhex(
            "c7304e0aec48bbbc703c099b425485b7a60e19b6a83630b0fb558ce2f02ec41e\
             4cdf205335b4b613b3537ad83eb62262"
        )
    );
}

#[test]
fn end_to_end_decode_and_replay() {
    let mut data = Vec::new();
    data.extend_from_slice(&0u32.to_le_bytes());
    data.extend_from_slice(&3u32.to_le_bytes());
    data.extend_from_slice(&[0u8; 48]);
    data.extend_from_slice(&1u32.to_le_bytes());
    data.extend_from_slice(&0xBu16.to_le_bytes());
    data.extend_from_slice(&32u16.to_le_bytes());
    data.push(0);
    data.extend_from_slice(&0u32.to_le_bytes());
    data.extend_from_slice(&1u32.to_le_bytes());
    data.extend_from_slice(&1u32.to_le_bytes());
    data.extend_from_slice(&0xBu16.to_le_bytes());
    data.extend_from_slice(&[0x11u8; 32]);
    data.extend_from_slice(&0u32.to_le_bytes());

    let log = Eventlog::try_from(data).unwrap();
    assert_eq!(log.log.len(), 1);
    let registers = log.replay_measurement_registry(HashAlgorithm::Sha256, |pcr| pcr).unwrap();
    assert_eq!(registers.len(), 1);
    assert_eq!(registers[&0], unhex(ONE));
}

#[test]
fn single_entry_extends_zeros() {
    let log = Eventlog { log: vec![entry(7, &[&[0x11; 32]]), entry(9, &[&[0x22; 32]])] };
    let registers = log.replay_measurement_registry(HashAlgorithm::Sha256, |pcr| pcr).unwrap();
    assert_eq!(registers.len(), 2);
    assert_eq!(registers[&7], unhex(ONE));
    assert_eq!(registers[&7], HashAlgorithm::Sha256.hash(&[&[0u8; 32], &[0x11u8; 32]]));
}

#[test]
fn order_of_entries_matters() {
    let ab = Eventlog { log: vec![entry(0, &[&[0x11; 32]]), entry(0, &[&[0x22; 32]])] };
    let ba = Eventlog { log: vec![entry(0, &[&[0x22; 32]]), entry(0, &[&[0x11; 32]])] };
    let ab = ab.replay_measurement_registry(HashAlgorithm::Sha256, |pcr| pcr).unwrap();
    let ba = ba.replay_measurement_registry(HashAlgorithm::Sha256, |pcr| pcr).unwrap();
    assert_eq!(ab[&0], unhex(ONE_THEN_TWO));
    assert_eq!(ba[&0], unhex(TWO_THEN_ONE));
    assert_ne!(ab, ba);
}

#[test]
fn replay_twice_gives_the_same_registers() {
    let log = Eventlog { log: vec![entry(0, &[&[0x11; 32]]), entry(1, &[&[0x22; 32]])] };
    let first = log.replay_measurement_registry(HashAlgorithm::Sha384, |pcr| pcr + 1).unwrap();
    let second = log.replay_measurement_registry(HashAlgorithm::Sha384, |pcr| pcr + 1).unwrap();
    assert_eq!(first, second);
    assert_eq!(first[&1].len(), 48);
}

#[test]
fn mapping_merges_registers() {
    let log = Eventlog { log: vec![entry(1, &[&[0x11; 32]]), entry(7, &[&[0x22; 32]])] };
    let registers = log.replay_measurement_registry(HashAlgorithm::Sha256, |_| 0).unwrap();
    assert_eq!(registers.len(), 1);
    assert_eq!(registers[&0], unhex(ONE_THEN_TWO));
}

#[test]
fn only_the_first_digest_is_replayed() {
    let log = Eventlog { log: vec![entry(0, &[&[0x11; 32], &[0x22; 32]])] };
    let registers = log.replay_measurement_registry(HashAlgorithm::Sha256, |pcr| pcr).unwrap();
    assert_eq!(registers[&0], unhex(ONE));
}

#[test]
fn empty_log_replays_to_no_registers() {
    let log = Eventlog { log: Vec::new() };
    assert!(log.has_digests());
    let registers = log.replay_measurement_registry(HashAlgorithm::Sha256, |pcr| pcr).unwrap();
    assert!(registers.is_empty());
}

#[test]
fn entry_without_digest_does_not_replay() {
    let log = Eventlog {
        log: vec![entry(0, &[&[0x11; 32]]), entry(1, &[]), entry(2, &[])],
    };
    assert!(!log.has_digests());
    let r = log.replay_measurement_registry(HashAlgorithm::Sha256, |pcr| pcr);
    assert_eq!(r.err(), Some(ReplayError::MissingDigest { entry: 1 }));
}

#[test]
fn parts_join_in_order() {
    assert_eq!(join(&[b"ab", b"", b"c"]), b"abc".to_vec());
    assert_eq!(join(&[]), Vec::<u8>::new());
}

#[test]
fn register_values_start_as_zeros() {
    let mut registers: HashMap<u32, Vec<u8>> = HashMap::new();
    assert_eq!(register_value(&registers, HashAlgorithm::Sha256, 3), vec![0u8; 32]);
    assert_eq!(register_value(&registers, HashAlgorithm::Sha384, 3), vec![0u8; 48]);
    set_register(&mut registers, 3, vec![1, 2]);
    set_register(&mut registers, 4, vec![9]);
    set_register(&mut registers, 3, vec![7]);
    assert_eq!(register_value(&registers, HashAlgorithm::Sha256, 3), vec![7]);
    assert_eq!(register_value(&registers, HashAlgorithm::Sha256, 4), vec![9]);
    assert_eq!(registers.len(), 2);
}
