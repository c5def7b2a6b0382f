use app_wallet::error::WalletError;
use app_wallet::ledger::{
    charge_service_fee, wallet_transfer_lamports, Address, LedgerAccount, LAMPORT_TRANSFER_AMOUNT,
};

fn account(tag: u8, lamports: u64) -> LedgerAccount {
    LedgerAccount {
        address: Address { bytes: [tag; 32] },
        owner: Address { bytes: [0xAA; 32] },
        lamports,
        data: Vec::new(),
    }
}

#[test]
fn charge_moves_the_fee_and_conserves_the_total() {
    let mut payer = account(1, 100);
    let mut service = account(2, 7);
    assert!(charge_service_fee(&mut payer, &mut service, 30).is_ok());
    assert_eq!(payer.lamports, 70);
    assert_eq!(service.lamports, 37);
    assert_eq!(payer.lamports + service.lamports, 100 + 7);
}

#[test]
fn charge_with_insufficient_funds_touches_nothing() {
    let mut payer = account(1, 10);
    let mut service = account(2, 500);
    let err = charge_service_fee(&mut payer, &mut service, 30).unwrap_err();
    assert_eq!(err, WalletError::InsufficientFunds);
    assert_eq!(payer.lamports, 10);
    assert_eq!(service.lamports, 500);
}

#[test]
fn lamport_transfer_drains_a_balance_of_five_exactly_once() {
    let mut source = account(1, 5);
    let mut destination = account(2, 890875);
    assert!(wallet_transfer_lamports(&mut source, &mut destination).is_ok());
    assert_eq!(source.lamports, 0);
    assert_eq!(destination.lamports, 890875 + LAMPORT_TRANSFER_AMOUNT);
    let err = wallet_transfer_lamports(&mut source, &mut destination).unwrap_err();
    assert_eq!(err, WalletError::InsufficientFunds);
    assert_eq!(source.lamports, 0);
    assert_eq!(destination.lamports, 890880);
}
