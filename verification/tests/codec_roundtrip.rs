use app_wallet::codec::{decode, decode_unchecked, encode, ACCOUNT_STATE_SPACE};
use app_wallet::error::WalletError;
use app_wallet::state::{AccountState, Record};

fn record(key: &str, value: &str) -> Record {
    Record { key: key.to_string(), value: value.to_string() }
}

fn state_with(records: Vec<Record>, initialized: bool) -> AccountState {
    AccountState { initialized, records }
}

#[test]
fn roundtrip_empty_state() {
    let state = AccountState::new();
    let mut buf: Vec<u8> = Vec::new();
    assert!(encode(&state, &mut buf).is_ok());
    assert_eq!(buf.len(), ACCOUNT_STATE_SPACE);
    let back = decode_unchecked(&buf).unwrap();
    assert!(!back.initialized);
    assert_eq!(back.records.len(), 0);
}

#[test]
fn roundtrip_keeps_every_record() {
    let state = state_with(
        vec![record("k1", "v1"), record("key two", ""), record("\u{3ba}\u{3bb}", "\u{1f600}")],
        true,
    );
    let mut buf: Vec<u8> = Vec::new();
    assert!(encode(&state, &mut buf).is_ok());
    assert_eq!(buf.len(), ACCOUNT_STATE_SPACE);
    let back = decode(&buf).unwrap();
    assert!(back.initialized);
    assert_eq!(back.records.len(), 3);
    assert_eq!(back.records[0].key, "k1");
    assert_eq!(back.records[0].value, "v1");
    assert_eq!(back.records[1].key, "key two");
    assert_eq!(back.records[1].value, "");
    assert_eq!(back.records[2].key, "\u{3ba}\u{3bb}");
    assert_eq!(back.records[2].value, "\u{1f600}");
}

#[test]
fn all_zero_buffer_is_uninitialized_and_empty() {
    let buf = vec![0u8; ACCOUNT_STATE_SPACE];
    let state = decode_unchecked(&buf).unwrap();
    assert!(!state.initialized);
    assert_eq!(state.records.len(), 0);
    // the strict decode demands the lifecycle flag
    assert_eq!(decode(&buf).unwrap_err(), WalletError::DeserializationError);
}

#[test]
fn wrong_length_is_rejected() {
    let buf = vec![0u8; 10];
    assert_eq!(decode_unchecked(&buf).unwrap_err(), WalletError::DeserializationError);
    let buf2 = vec![0u8; ACCOUNT_STATE_SPACE + 1];
    assert_eq!(decode_unchecked(&buf2).unwrap_err(), WalletError::DeserializationError);
}

#[test]
fn corrupt_flag_byte_is_rejected() {
    let mut buf = vec![0u8; ACCOUNT_STATE_SPACE];
    buf[0] = 2;
    assert_eq!(decode_unchecked(&buf).unwrap_err(), WalletError::DeserializationError);
}

#[test]
fn invalid_utf8_is_rejected() {
    let mut buf = vec![0u8; ACCOUNT_STATE_SPACE];
    // flag 0, one record, key of length 1 holding an invalid UTF-8 byte
    buf[1] = 1;
    buf[5] = 1;
    buf[9] = 0xFF;
    assert_eq!(decode_unchecked(&buf).unwrap_err(), WalletError::DeserializationError);
}

#[test]
fn duplicate_keys_in_buffer_are_rejected() {
    // encoding does not police keys, so a buffer with a repeated key can be
    // produced; decoding must refuse it
    let dup = state_with(vec![record("dup", "x"), record("dup", "y")], false);
    let mut buf: Vec<u8> = Vec::new();
    assert!(encode(&dup, &mut buf).is_ok());
    assert_eq!(decode_unchecked(&buf).unwrap_err(), WalletError::DeserializationError);
}

#[test]
fn oversized_state_fails_and_leaves_buffer_untouched() {
    let big_value: String = "x".repeat(ACCOUNT_STATE_SPACE);
    let state = state_with(vec![record("k", &big_value)], true);
    let mut buf = vec![7u8, 7u8, 7u8];
    assert_eq!(encode(&state, &mut buf).unwrap_err(), WalletError::SerializationError);
    assert_eq!(buf, vec![7u8, 7u8, 7u8]);
}

#[test]
fn exact_bytes_of_a_small_state() {
    let state = state_with(vec![record("ab", "c")], true);
    let mut buf: Vec<u8> = Vec::new();
    assert!(encode(&state, &mut buf).is_ok());
    assert_eq!(buf[0], 1);
    assert_eq!(&buf[1..5], &[1, 0, 0, 0]);
    assert_eq!(&buf[5..9], &[2, 0, 0, 0]);
    assert_eq!(&buf[9..11], b"ab");
    assert_eq!(&buf[11..15], &[1, 0, 0, 0]);
    assert_eq!(buf[15], b'c');
    assert!(buf[16..].iter().all(|b| *b == 0));
}
