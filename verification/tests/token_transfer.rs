use app_wallet::codec::ACCOUNT_STATE_SPACE;
use app_wallet::error::WalletError;
use app_wallet::ledger::{Address, LedgerAccount};
use app_wallet::processor::{process_instruction, Effect};
use solana_program::pubkey::Pubkey;

const PROGRAM: u8 = 0x50;

fn program_id() -> Address {
    Address { bytes: [PROGRAM; 32] }
}

fn account_with_data(tag: u8, data: Vec<u8>) -> LedgerAccount {
    LedgerAccount {
        address: Address { bytes: [tag; 32] },
        owner: Address { bytes: [PROGRAM; 32] },
        lamports: 1,
        data,
    }
}

/// A token account in the token collaborator's fixed 165-byte layout:
/// amount at offset 64, account state byte (initialized) at offset 108.
fn token_account_bytes(amount: u64) -> Vec<u8> {
    let mut data = vec![0u8; 165];
    data[64..72].copy_from_slice(&amount.to_le_bytes());
    data[108] = 1;
    data
}

/// A mint in the token collaborator's fixed 82-byte layout: decimals at
/// offset 44, the initialized flag at offset 45.
fn mint_bytes(decimals: u8) -> Vec<u8> {
    let mut data = vec![0u8; 82];
    data[44] = decimals;
    data[45] = 1;
    data
}

fn spl_accounts(authority: Address, amount: u64, decimals: u8) -> Vec<LedgerAccount> {
    vec![
        account_with_data(1, token_account_bytes(amount)),
        account_with_data(2, mint_bytes(decimals)),
        account_with_data(3, vec![0u8; ACCOUNT_STATE_SPACE]),
        LedgerAccount {
            address: authority,
            owner: Address { bytes: [PROGRAM; 32] },
            lamports: 1,
            data: Vec::new(),
        },
        account_with_data(5, Vec::new()),
    ]
}

fn derived_authority() -> (Address, u8) {
    let pid = Pubkey::new_from_array(program_id().bytes);
    let (address, bump) = Pubkey::find_program_address(&[b"authority"], &pid);
    (Address { bytes: address.to_bytes() }, bump)
}

#[test]
fn token_transfer_request_carries_the_full_balance() {
    let (authority, bump) = derived_authority();
    let mut accounts = spl_accounts(authority, 10000, 9);
    let effect = match process_instruction(&program_id(), &mut accounts, &[2]) {
        Ok(e) => e,
        Err(e) => panic!("transfer was refused: {:?}", e),
    };
    match effect {
        Effect::TokenTransfer(req) => {
            assert_eq!(req.amount, 10000);
            assert_eq!(req.decimals, 9);
            assert_eq!(req.bump, bump);
            assert_eq!(req.source.bytes, [1; 32]);
            assert_eq!(req.mint.bytes, [2; 32]);
            assert_eq!(req.destination.bytes, [3; 32]);
            assert_eq!(req.authority.bytes, authority.bytes);
            assert_eq!(req.token_program.bytes, [5; 32]);
        },
        Effect::Completed => panic!("expected a token transfer request"),
    }
}

#[test]
fn mismatched_authority_is_rejected() {
    let wrong = Address { bytes: [0x77; 32] };
    let mut accounts = spl_accounts(wrong, 10000, 9);
    let err = process_instruction(&program_id(), &mut accounts, &[2]).unwrap_err();
    assert_eq!(err, WalletError::InvalidAuthority);
}

#[test]
fn malformed_token_account_is_rejected() {
    let (authority, _) = derived_authority();
    let mut accounts = spl_accounts(authority, 10000, 9);
    accounts[0].data = vec![0u8; 17];
    let err = process_instruction(&program_id(), &mut accounts, &[2]).unwrap_err();
    assert_eq!(err, WalletError::DeserializationError);
}

#[test]
fn uninitialized_mint_is_rejected() {
    let (authority, _) = derived_authority();
    let mut accounts = spl_accounts(authority, 10000, 9);
    accounts[1].data[45] = 0;
    let err = process_instruction(&program_id(), &mut accounts, &[2]).unwrap_err();
    assert_eq!(err, WalletError::DeserializationError);
}
