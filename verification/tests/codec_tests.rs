//! The binary form of the state: round trips and rejected inputs.

use crowdfund::codec::{decode_contract, encode_contract};
use crowdfund::state::{Contract, ContractError};

fn busy_state() -> Contract {
    let mut c = Contract::init("alice".to_string());
    c.add_crowdfund("Eye surgery".to_string(), 30, "desc".to_string())
        .unwrap();
    c.add_crowdfund("Well \u{1f4a7}".to_string(), 1000, "clean water".to_string())
        .unwrap();
    c.add_vote(0, "bob".to_string()).unwrap();
    c.add_vote(1, "b\u{00e9}a".to_string()).unwrap();
    let (i1, _) = c.add_donation(0, 2, "bob".to_string()).unwrap();
    c.reconcile_donation(i1, true).unwrap();
    let (i2, _) = c.add_donation(1, 1, "carol".to_string()).unwrap();
    let _ = c.reconcile_donation(i2, false);
    let (_i3, _) = c.add_donation(0, 4, "dan".to_string()).unwrap();
    c
}

#[test]
fn roundtrip_fresh_state() {
    let c = Contract::init("alice".to_string());
    let bytes = encode_contract(&c);
    let d = decode_contract(&bytes).unwrap();
    assert_eq!(d, c);
}

#[test]
fn roundtrip_after_operations() {
    let c = busy_state();
    let bytes = encode_contract(&c);
    let d = decode_contract(&bytes).unwrap();
    assert_eq!(d, c);
    assert_eq!(encode_contract(&d), bytes);
}

#[test]
fn roundtrip_keeps_unicode_identities() {
    let mut c = Contract::init("\u{03a9}l\u{00ee}ce".to_string());
    c.add_crowdfund("\u{6821}\u{5ead}".to_string(), 3, "\u{1f3eb}".to_string())
        .unwrap();
    c.add_vote(0, "\u{0416}".to_string()).unwrap();
    let bytes = encode_contract(&c);
    let d = decode_contract(&bytes).unwrap();
    assert_eq!(d.owner, "\u{03a9}l\u{00ee}ce");
    assert_eq!(d.crowdfunds[0].title, "\u{6821}\u{5ead}");
    assert_eq!(d.crowdfunds[0].votes[0], "\u{0416}");
    assert_eq!(d, c);
}

#[test]
fn encoding_starts_with_schema_version() {
    let c = Contract::init("alice".to_string());
    let bytes = encode_contract(&c);
    assert_eq!(&bytes[0..8], &1u64.to_le_bytes());
}

#[test]
fn decode_rejects_truncation() {
    let c = busy_state();
    let bytes = encode_contract(&c);
    for cut in [0usize, 1, 7, 8, 9, bytes.len() / 2, bytes.len() - 1] {
        let mut t = bytes.clone();
        t.truncate(cut);
        assert!(decode_contract(&t).is_none());
    }
}

#[test]
fn decode_rejects_wrong_version() {
    let c = Contract::init("alice".to_string());
    let mut bytes = encode_contract(&c);
    bytes[0] = 2;
    assert!(decode_contract(&bytes).is_none());
}

#[test]
fn decode_rejects_trailing_bytes() {
    let c = busy_state();
    let mut bytes = encode_contract(&c);
    bytes.push(0);
    assert!(decode_contract(&bytes).is_none());
}

#[test]
fn decode_rejects_invalid_utf8() {
    let mut c = Contract::init("aaaa".to_string());
    c.add_crowdfund("tttt".to_string(), 1, "dddd".to_string())
        .unwrap();
    let mut bytes = encode_contract(&c);
    // The owner's bytes sit right after the version and the length prefix;
    // 0xff can never start a UTF-8 sequence.
    bytes[16] = 0xff;
    assert!(decode_contract(&bytes).is_none());
}

#[test]
fn errors_compare_by_variant() {
    assert_eq!(ContractError::NotFound, ContractError::NotFound);
    assert_ne!(ContractError::NotFound, ContractError::InvalidInput);
}
