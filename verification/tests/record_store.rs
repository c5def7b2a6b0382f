use app_wallet::error::WalletError;
use app_wallet::state::{AccountState, Record};

#[test]
fn add_then_remove_restores_the_map() {
    let mut state = AccountState {
        initialized: true,
        records: vec![Record { key: "first".to_string(), value: "1".to_string() }],
    };
    assert!(state.add("second".to_string(), "2".to_string()).is_ok());
    let value = state.remove(&"second".to_string()).unwrap();
    assert_eq!(value, "2");
    assert_eq!(state.records.len(), 1);
    assert_eq!(state.records[0].key, "first");
    assert_eq!(state.records[0].value, "1");
}

#[test]
fn add_duplicate_fails_without_mutating() {
    let mut state = AccountState::new();
    assert!(state.add("k".to_string(), "v".to_string()).is_ok());
    let err = state.add("k".to_string(), "other".to_string()).unwrap_err();
    assert_eq!(err, WalletError::DuplicateKey);
    assert_eq!(state.records.len(), 1);
    assert_eq!(state.records[0].value, "v");
}

#[test]
fn remove_missing_fails_without_mutating() {
    let mut state = AccountState::new();
    assert!(state.add("k".to_string(), "v".to_string()).is_ok());
    let err = state.remove(&"absent".to_string()).unwrap_err();
    assert_eq!(err, WalletError::KeyNotFound);
    assert_eq!(state.records.len(), 1);
    assert_eq!(state.records[0].key, "k");
}

#[test]
fn lifecycle_flag_methods() {
    let mut state = AccountState::new();
    assert!(!state.is_initialized());
    state.set_initialized();
    assert!(state.is_initialized());
}
