use app_wallet::codec::{decode_unchecked, ACCOUNT_STATE_SPACE};
use app_wallet::error::WalletError;
use app_wallet::ledger::{Address, LedgerAccount};
use app_wallet::processor::{process_instruction, Effect};
use app_wallet::state::AccountState;

const PROGRAM: u8 = 0x50;

fn program_id() -> Address {
    Address { bytes: [PROGRAM; 32] }
}

fn tracking_account(tag: u8, lamports: u64) -> LedgerAccount {
    LedgerAccount {
        address: Address { bytes: [tag; 32] },
        owner: Address { bytes: [PROGRAM; 32] },
        lamports,
        data: vec![0u8; ACCOUNT_STATE_SPACE],
    }
}

fn no_payload(tag: u8) -> Vec<u8> {
    vec![tag]
}

fn one_string(tag: u8, k: &str) -> Vec<u8> {
    let mut out = vec![tag];
    out.extend_from_slice(&(k.len() as u32).to_le_bytes());
    out.extend_from_slice(k.as_bytes());
    out
}

fn two_strings(tag: u8, k: &str, v: &str) -> Vec<u8> {
    let mut out = one_string(tag, k);
    out.extend_from_slice(&(v.len() as u32).to_le_bytes());
    out.extend_from_slice(v.as_bytes());
    out
}

fn run(accounts: &mut Vec<LedgerAccount>, data: &[u8]) -> Result<Effect, WalletError> {
    process_instruction(&program_id(), accounts, data)
}

fn state_of(account: &LedgerAccount) -> AccountState {
    decode_unchecked(&account.data).unwrap()
}

fn value_of(account: &LedgerAccount, key: &str) -> Option<String> {
    state_of(account)
        .records
        .iter()
        .find(|r| r.key == key)
        .map(|r| r.value.clone())
}

#[test]
fn initialize_then_mint() {
    let mut accounts = vec![tracking_account(1, 5)];
    assert!(run(&mut accounts, &no_payload(0)).is_ok());
    let state = state_of(&accounts[0]);
    assert!(state.initialized);
    assert_eq!(value_of(&accounts[0], "a1").unwrap(), "b1");

    let mint = two_strings(4, "test_key_1", "value for test_key_1");
    assert!(run(&mut accounts, &mint).is_ok());
    assert!(state_of(&accounts[0]).initialized);
    assert_eq!(value_of(&accounts[0], "test_key_1").unwrap(), "value for test_key_1");
}

#[test]
fn initialize_is_exactly_once() {
    let mut accounts = vec![tracking_account(1, 5)];
    assert!(run(&mut accounts, &no_payload(0)).is_ok());
    let before = accounts[0].data.clone();
    let err = run(&mut accounts, &no_payload(0)).unwrap_err();
    assert_eq!(err, WalletError::AlreadyInitialized);
    assert_eq!(accounts[0].data, before);
    assert_eq!(value_of(&accounts[0], "a1").unwrap(), "b1");
}

#[test]
fn wallet_new_seeds_its_record() {
    let mut accounts = vec![tracking_account(1, 5)];
    assert!(run(&mut accounts, &no_payload(0)).is_ok());
    assert!(run(&mut accounts, &no_payload(1)).is_ok());
    assert_eq!(value_of(&accounts[0], "a2").unwrap(), "b2");
}

#[test]
fn wallet_new_demands_initialization() {
    let mut accounts = vec![tracking_account(1, 5)];
    let err = run(&mut accounts, &no_payload(1)).unwrap_err();
    assert_eq!(err, WalletError::DeserializationError);
}

#[test]
fn mint_on_uninitialized_account_fails() {
    let mut accounts = vec![tracking_account(1, 5)];
    let err = run(&mut accounts, &two_strings(4, "k", "v")).unwrap_err();
    assert_eq!(err, WalletError::DeserializationError);
}

#[test]
fn mint_duplicate_key_fails() {
    let mut accounts = vec![tracking_account(1, 5)];
    assert!(run(&mut accounts, &no_payload(0)).is_ok());
    assert!(run(&mut accounts, &two_strings(4, "k", "v")).is_ok());
    let err = run(&mut accounts, &two_strings(4, "k", "w")).unwrap_err();
    assert_eq!(err, WalletError::DuplicateKey);
    assert_eq!(value_of(&accounts[0], "k").unwrap(), "v");
}

#[test]
fn transfer_moves_the_record() {
    let mut accounts = vec![tracking_account(1, 5), tracking_account(2, 5)];
    assert!(run(&mut accounts, &no_payload(0)).is_ok());
    let mut only_second = vec![accounts.remove(1)];
    assert!(run(&mut only_second, &no_payload(0)).is_ok());
    accounts.push(only_second.remove(0));

    let mint = two_strings(4, "test_key_1", "value for test_key_1");
    assert!(run(&mut accounts, &mint).is_ok());
    assert!(run(&mut accounts, &one_string(5, "test_key_1")).is_ok());

    assert!(value_of(&accounts[0], "test_key_1").is_none());
    assert!(state_of(&accounts[0]).initialized);
    assert_eq!(value_of(&accounts[1], "test_key_1").unwrap(), "value for test_key_1");
    assert!(state_of(&accounts[1]).initialized);
}

#[test]
fn transfer_missing_key_fails() {
    let mut accounts = vec![tracking_account(1, 5), tracking_account(2, 5)];
    assert!(run(&mut accounts, &no_payload(0)).is_ok());
    let mut only_second = vec![accounts.remove(1)];
    assert!(run(&mut only_second, &no_payload(0)).is_ok());
    accounts.push(only_second.remove(0));
    let err = run(&mut accounts, &one_string(5, "missing")).unwrap_err();
    assert_eq!(err, WalletError::KeyNotFound);
}

#[test]
fn transfer_with_fee_pays_the_service_account() {
    let mut accounts = vec![tracking_account(1, 100), tracking_account(2, 50)];
    assert!(run(&mut accounts, &no_payload(0)).is_ok());
    let mut only_second = vec![accounts.remove(1)];
    assert!(run(&mut only_second, &no_payload(0)).is_ok());
    accounts.push(only_second.remove(0));
    assert!(run(&mut accounts, &two_strings(4, "k1", "v1")).is_ok());

    // the service account is last and starts at zero
    accounts.push(LedgerAccount {
        address: Address { bytes: [9; 32] },
        owner: Address { bytes: [0x11; 32] },
        lamports: 0,
        data: Vec::new(),
    });
    assert!(run(&mut accounts, &one_string(8, "k1")).is_ok());
    assert_eq!(accounts[2].lamports, 30 + 10);
    assert_eq!(accounts[0].lamports, 100 - 30);
    assert_eq!(accounts[1].lamports, 50 - 10);
    assert!(value_of(&accounts[0], "k1").is_none());
    assert_eq!(value_of(&accounts[1], "k1").unwrap(), "v1");
}

#[test]
fn mint_with_fee_keeps_the_fee_when_the_mint_fails() {
    let mut accounts = vec![tracking_account(1, 100), tracking_account(9, 0)];
    // the target was never initialized, so the mint itself fails after the
    // fee has been debited and credited; the fee is not refunded
    let err = run(&mut accounts, &two_strings(7, "k", "v")).unwrap_err();
    assert_eq!(err, WalletError::DeserializationError);
    assert_eq!(accounts[0].lamports, 90);
    assert_eq!(accounts[1].lamports, 10);
}

#[test]
fn burn_with_fee_removes_the_record() {
    let mut accounts = vec![tracking_account(1, 100)];
    assert!(run(&mut accounts, &no_payload(0)).is_ok());
    assert!(run(&mut accounts, &two_strings(4, "k1", "v1")).is_ok());
    accounts.push(LedgerAccount {
        address: Address { bytes: [9; 32] },
        owner: Address { bytes: [0x11; 32] },
        lamports: 3,
        data: Vec::new(),
    });
    assert!(run(&mut accounts, &one_string(9, "k1")).is_ok());
    assert_eq!(accounts[0].lamports, 100 - 15);
    assert_eq!(accounts[1].lamports, 3 + 15);
    assert!(value_of(&accounts[0], "k1").is_none());
}

#[test]
fn burn_removes_only_the_named_record() {
    let mut accounts = vec![tracking_account(1, 5)];
    assert!(run(&mut accounts, &no_payload(0)).is_ok());
    assert!(run(&mut accounts, &two_strings(4, "keep", "1")).is_ok());
    assert!(run(&mut accounts, &two_strings(4, "drop", "2")).is_ok());
    assert!(run(&mut accounts, &one_string(6, "drop")).is_ok());
    assert!(value_of(&accounts[0], "drop").is_none());
    assert_eq!(value_of(&accounts[0], "keep").unwrap(), "1");
    assert_eq!(value_of(&accounts[0], "a1").unwrap(), "b1");
}

#[test]
fn lamport_transfer_instruction_moves_five() {
    let mut accounts = vec![tracking_account(1, 5), tracking_account(2, 890875)];
    assert!(run(&mut accounts, &no_payload(3)).is_ok());
    assert_eq!(accounts[0].lamports, 0);
    assert_eq!(accounts[1].lamports, 890880);
    let err = run(&mut accounts, &no_payload(3)).unwrap_err();
    assert_eq!(err, WalletError::InsufficientFunds);
    assert_eq!(accounts[0].lamports, 0);
    assert_eq!(accounts[1].lamports, 890880);
}

#[test]
fn foreign_owner_is_rejected_before_dispatch() {
    let mut accounts = vec![tracking_account(1, 5), tracking_account(2, 5)];
    accounts[0].owner = Address { bytes: [0x66; 32] };
    let err = run(&mut accounts, &no_payload(0)).unwrap_err();
    assert_eq!(err, WalletError::WrongOwner);
}

#[test]
fn the_last_account_is_exempt_from_the_ownership_check() {
    let mut accounts = vec![tracking_account(1, 5)];
    accounts[0].owner = Address { bytes: [0x66; 32] };
    // with a single account there is no account before the last to check
    assert!(run(&mut accounts, &no_payload(0)).is_ok());
}

#[test]
fn unknown_or_malformed_instructions_are_rejected() {
    let mut accounts = vec![tracking_account(1, 5)];
    assert_eq!(run(&mut accounts, &[42]).unwrap_err(), WalletError::InvalidInstructionData);
    assert_eq!(run(&mut accounts, &[]).unwrap_err(), WalletError::InvalidInstructionData);
    // a mint whose second string is truncated
    let mut bad = one_string(4, "k");
    bad.extend_from_slice(&[9, 0, 0, 0]);
    assert_eq!(run(&mut accounts, &bad).unwrap_err(), WalletError::InvalidInstructionData);
}

#[test]
fn missing_accounts_are_rejected() {
    let mut accounts: Vec<LedgerAccount> = Vec::new();
    let err = run(&mut accounts, &no_payload(0)).unwrap_err();
    assert_eq!(err, WalletError::NotEnoughAccounts);
    let mut one = vec![tracking_account(1, 5)];
    let err = run(&mut one, &one_string(5, "k")).unwrap_err();
    assert_eq!(err, WalletError::NotEnoughAccounts);
}
