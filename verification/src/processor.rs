//! The instruction handlers and the dispatcher that routes a decoded
//! instruction through the ownership guard to exactly one of them.

use vstd::prelude::*;

use crate::codec::{
    decode, decode_unchecked, encode, lemma_decode_encode, spec_decode, spec_decode_unchecked,
    spec_encode,
};
use crate::error::WalletError;
use crate::instruction::{spec_parse_instruction, InstructionView, ProgramInstruction};
use crate::ledger::{
    address_eq, charge_service_fee, lemma_total_lamports_pair_bound,
    lemma_total_lamports_triple_bound, lemma_total_lamports_update, spec_charge,
    spec_total_lamports, wallet_transfer_lamports, Address, LedgerAccount, LedgerAccountView,
    LAMPORT_TRANSFER_AMOUNT,
};
use crate::state::{RecordView, StateView};
use crate::token::{
    spec_wallet_transfer_spl, wallet_transfer_spl, SplTransferRequest, SplTransferRequestView,
};

verus! {

/// Service fee debited for minting a record.
pub const MINTING_FEE: u64 = 10;

/// Service fee debited for transferring a record.
pub const TRANSFERRING_FEE: u64 = 30;

/// Service fee debited for burning a record.
pub const BURNING_FEE: u64 = 15;

/// The record seeded by `InitializeAccount`.
pub open spec fn spec_init_key() -> Seq<char> {
    "a1"@
}

pub open spec fn spec_init_value() -> Seq<char> {
    "b1"@
}

/// The record seeded by `WalletNew`.
pub open spec fn spec_wallet_new_key() -> Seq<char> {
    "a2"@
}

pub open spec fn spec_wallet_new_value() -> Seq<char> {
    "b2"@
}

/// What initialization does to a buffer: decode permissively, reject a set
/// lifecycle flag, set it, seed the fixed record, re-encode.
pub open spec fn spec_initialize_buffer(b: Seq<u8>) -> Result<Seq<u8>, WalletError> {
    match spec_decode_unchecked(b) {
        None => Err(WalletError::DeserializationError),
        Some(st) => {
            if st.initialized {
                Err(WalletError::AlreadyInitialized)
            } else {
                let st1 = StateView { initialized: true, records: st.records };
                match st1.spec_add(spec_init_key(), spec_init_value()) {
                    Err(e) => Err(e),
                    Ok(st2) => match spec_encode(st2) {
                        Some(b2) => Ok(b2),
                        None => Err(WalletError::SerializationError),
                    },
                }
            }
        },
    }
}

/// What `WalletNew` does to a buffer: decode strictly, add the fixed
/// record, re-encode.
pub open spec fn spec_wallet_new_buffer(b: Seq<u8>) -> Result<Seq<u8>, WalletError> {
    match spec_decode(b) {
        None => Err(WalletError::DeserializationError),
        Some(st) => match st.spec_add(spec_wallet_new_key(), spec_wallet_new_value()) {
            Err(e) => Err(e),
            Ok(st2) => match spec_encode(st2) {
                Some(b2) => Ok(b2),
                None => Err(WalletError::SerializationError),
            },
        },
    }
}

/// What a mint does to a buffer: decode strictly, add the record,
/// re-encode.
pub open spec fn spec_mint_buffer(b: Seq<u8>, k: Seq<char>, v: Seq<char>) -> Result<
    Seq<u8>,
    WalletError,
> {
    match spec_decode(b) {
        None => Err(WalletError::DeserializationError),
        Some(st) => match st.spec_add(k, v) {
            Err(e) => Err(e),
            Ok(st2) => match spec_encode(st2) {
                Some(b2) => Ok(b2),
                None => Err(WalletError::SerializationError),
            },
        },
    }
}

/// What a burn does to a buffer: decode permissively, remove the record,
/// re-encode.
pub open spec fn spec_burn_buffer(b: Seq<u8>, k: Seq<char>) -> Result<Seq<u8>, WalletError> {
    match spec_decode_unchecked(b) {
        None => Err(WalletError::DeserializationError),
        Some(st) => match st.spec_remove(k) {
            Err(e) => Err(e),
            Ok(p) => match spec_encode(p.1) {
                Some(b2) => Ok(b2),
                None => Err(WalletError::SerializationError),
            },
        },
    }
}

/// What a record transfer does to the two buffers: decode both strictly,
/// move the record, re-encode both; nothing is written unless both sides
/// succeed.
pub open spec fn spec_transfer_buffers(bfrom: Seq<u8>, bto: Seq<u8>, k: Seq<char>) -> Result<
    (Seq<u8>, Seq<u8>),
    WalletError,
> {
    match spec_decode(bfrom) {
        None => Err(WalletError::DeserializationError),
        Some(stf) => match spec_decode(bto) {
            None => Err(WalletError::DeserializationError),
            Some(stt) => match stf.spec_remove(k) {
                Err(e) => Err(e),
                Ok(p) => match stt.spec_add(k, p.0) {
                    Err(e) => Err(e),
                    Ok(stt2) => match spec_encode(p.1) {
                        None => Err(WalletError::SerializationError),
                        Some(bf2) => match spec_encode(stt2) {
                            None => Err(WalletError::SerializationError),
                            Some(bt2) => Ok((bf2, bt2)),
                        },
                    },
                },
            },
        },
    }
}

/// Initialize the account: set the lifecycle flag exactly once and seed
/// one fixed record. A second initialization fails with
/// `AlreadyInitialized` and leaves the buffer unchanged.
pub fn initialize_account(account: &mut LedgerAccount) -> (r: Result<(), WalletError>)
    ensures
        final(account).address == old(account).address,
        final(account).owner == old(account).owner,
        final(account).lamports == old(account).lamports,
        match r {
            Ok(()) => spec_initialize_buffer(old(account).data@) == Ok::<Seq<u8>, WalletError>(
                final(account).data@,
            ),
            Err(e) => {
                &&& spec_initialize_buffer(old(account).data@) == Err::<Seq<u8>, WalletError>(e)
                &&& final(account).data@ == old(account).data@
            },
        },
{
    let mut st = match decode_unchecked(account.data.as_slice()) {
        Ok(s) => s,
        Err(e) => {
            return Err(e);
        },
    };
    if st.is_initialized() {
        return Err(WalletError::AlreadyInitialized);
    }
    st.set_initialized();
    match st.add("a1".to_owned(), "b1".to_owned()) {
        Ok(()) => {},
        Err(e) => {
            return Err(e);
        },
    }
    encode(&st, &mut account.data)
}

/// Add the fixed wallet record to an initialized account.
pub fn wallet_new(account: &mut LedgerAccount) -> (r: Result<(), WalletError>)
    ensures
        final(account).address == old(account).address,
        final(account).owner == old(account).owner,
        final(account).lamports == old(account).lamports,
        match r {
            Ok(()) => spec_wallet_new_buffer(old(account).data@) == Ok::<Seq<u8>, WalletError>(
                final(account).data@,
            ),
            Err(e) => {
                &&& spec_wallet_new_buffer(old(account).data@) == Err::<Seq<u8>, WalletError>(e)
                &&& final(account).data@ == old(account).data@
            },
        },
{
    let mut st = match decode(account.data.as_slice()) {
        Ok(s) => s,
        Err(e) => {
            return Err(e);
        },
    };
    match st.add("a2".to_owned(), "b2".to_owned()) {
        Ok(()) => {},
        Err(e) => {
            return Err(e);
        },
    }
    encode(&st, &mut account.data)
}

/// Mint `key -> value` into the account.
pub fn mint_keypair_to_account(
    account: &mut LedgerAccount,
    key: String,
    value: String,
) -> (r: Result<(), WalletError>)
    ensures
        final(account).address == old(account).address,
        final(account).owner == old(account).owner,
        final(account).lamports == old(account).lamports,
        match r {
            Ok(()) => spec_mint_buffer(old(account).data@, key@, value@) == Ok::<
                Seq<u8>,
                WalletError,
            >(final(account).data@),
            Err(e) => {
                &&& spec_mint_buffer(old(account).data@, key@, value@) == Err::<
                    Seq<u8>,
                    WalletError,
                >(e)
                &&& final(account).data@ == old(account).data@
            },
        },
{
    let mut st = match decode(account.data.as_slice()) {
        Ok(s) => s,
        Err(e) => {
            return Err(e);
        },
    };
    match st.add(key, value) {
        Ok(()) => {},
        Err(e) => {
            return Err(e);
        },
    }
    encode(&st, &mut account.data)
}

/// Burn the record under `key` from the account.
pub fn burn_keypair_from_account(account: &mut LedgerAccount, key: String) -> (r: Result<
    (),
    WalletError,
>)
    ensures
        final(account).address == old(account).address,
        final(account).owner == old(account).owner,
        final(account).lamports == old(account).lamports,
        match r {
            Ok(()) => spec_burn_buffer(old(account).data@, key@) == Ok::<Seq<u8>, WalletError>(
                final(account).data@,
            ),
            Err(e) => {
                &&& spec_burn_buffer(old(account).data@, key@) == Err::<Seq<u8>, WalletError>(e)
                &&& final(account).data@ == old(account).data@
            },
        },
{
    let mut st = match decode_unchecked(account.data.as_slice()) {
        Ok(s) => s,
        Err(e) => {
            return Err(e);
        },
    };
    match st.remove(&key) {
        Ok(_value) => {},
        Err(e) => {
            return Err(e);
        },
    }
    encode(&st, &mut account.data)
}

/// Move the record under `key` from one account to the other. Nothing is
/// written unless both re-encodes succeed.
pub fn transfer_keypair_to_account(
    from: &mut LedgerAccount,
    to: &mut LedgerAccount,
    key: String,
) -> (r: Result<(), WalletError>)
    ensures
        final(from).address == old(from).address,
        final(from).owner == old(from).owner,
        final(from).lamports == old(from).lamports,
        final(to).address == old(to).address,
        final(to).owner == old(to).owner,
        final(to).lamports == old(to).lamports,
        match r {
            Ok(()) => spec_transfer_buffers(old(from).data@, old(to).data@, key@) == Ok::<
                (Seq<u8>, Seq<u8>),
                WalletError,
            >((final(from).data@, final(to).data@)),
            Err(e) => {
                &&& spec_transfer_buffers(old(from).data@, old(to).data@, key@) == Err::<
                    (Seq<u8>, Seq<u8>),
                    WalletError,
                >(e)
                &&& final(from).data@ == old(from).data@
                &&& final(to).data@ == old(to).data@
            },
        },
{
    let mut stf = match decode(from.data.as_slice()) {
        Ok(s) => s,
        Err(e) => {
            return Err(e);
        },
    };
    let mut stt = match decode(to.data.as_slice()) {
        Ok(s) => s,
        Err(e) => {
            return Err(e);
        },
    };
    let value = match stf.remove(&key) {
        Ok(v) => v,
        Err(e) => {
            return Err(e);
        },
    };
    match stt.add(key, value) {
        Ok(()) => {},
        Err(e) => {
            return Err(e);
        },
    }
    let mut from_bytes: Vec<u8> = Vec::new();
    match encode(&stf, &mut from_bytes) {
        Ok(()) => {},
        Err(e) => {
            return Err(e);
        },
    }
    let mut to_bytes: Vec<u8> = Vec::new();
    match encode(&stt, &mut to_bytes) {
        Ok(()) => {},
        Err(e) => {
            return Err(e);
        },
    }
    from.data = from_bytes;
    to.data = to_bytes;
    Ok(())
}

/// Every account but the last is owned by this program; the trailing
/// account is, by convention, the service or external account and exempt.
pub open spec fn spec_all_owned(program_id: Seq<u8>, accounts: Seq<LedgerAccountView>) -> bool {
    forall|i: int| 0 <= i < accounts.len() - 1 ==> (#[trigger] accounts[i]).owner == program_id
}

/// Check each tracking account's owner; the last account in the list is
/// exempt.
pub fn check_account_ownership(program_id: &Address, accounts: &Vec<LedgerAccount>) -> (r: Result<
    (),
    WalletError,
>)
    ensures
        match r {
            Ok(()) => spec_all_owned(program_id@, accounts@.map_values(|a: LedgerAccount| a@)),
            Err(e) => {
                &&& e == WalletError::WrongOwner
                &&& !spec_all_owned(program_id@, accounts@.map_values(|a: LedgerAccount| a@))
            },
        },
{
    let ghost av = accounts@.map_values(|a: LedgerAccount| a@);
    if accounts.len() == 0 {
        return Ok(());
    }
    let n = accounts.len() - 1;
    let mut i: usize = 0;
    while i < n
        invariant
            i <= n,
            n == accounts@.len() - 1,
            av == accounts@.map_values(|a: LedgerAccount| a@),
            forall|j: int| 0 <= j < i ==> (#[trigger] av[j]).owner == program_id@,
        decreases n - i,
    {
        if !address_eq(&accounts[i].owner, program_id) {
            proof {
                assert(av[i as int] == accounts@[i as int]@);
            }
            return Err(WalletError::WrongOwner);
        }
        proof {
            assert(av[i as int] == accounts@[i as int]@);
        }
        i += 1;
    }
    Ok(())
}

/// Mint with a service fee: the fee is debited and credited first; a mint
/// that then fails does not refund it. The combined balance of the two
/// accounts never changes, and the service account's buffer is never
/// touched.
pub fn mint_keypair_to_account_with_fee(
    account: &mut LedgerAccount,
    service: &mut LedgerAccount,
    key: String,
    value: String,
) -> (r: Result<(), WalletError>)
    requires
        old(account).lamports + old(service).lamports <= u64::MAX,
    ensures
        final(account).address == old(account).address,
        final(account).owner == old(account).owner,
        final(service).address == old(service).address,
        final(service).owner == old(service).owner,
        final(service).data@ == old(service).data@,
        final(account).lamports as int + final(service).lamports as int == old(
            account,
        ).lamports as int + old(service).lamports as int,
        match r {
            Ok(()) => {
                &&& old(account).lamports >= MINTING_FEE
                &&& final(account).lamports == old(account).lamports - MINTING_FEE
                &&& final(service).lamports == old(service).lamports + MINTING_FEE
                &&& spec_mint_buffer(old(account).data@, key@, value@) == Ok::<
                    Seq<u8>,
                    WalletError,
                >(final(account).data@)
            },
            Err(e) => {
                &&& final(account).data@ == old(account).data@
                &&& if old(account).lamports < MINTING_FEE {
                    &&& e == WalletError::InsufficientFunds
                    &&& *final(account) == *old(account)
                    &&& *final(service) == *old(service)
                } else {
                    &&& spec_mint_buffer(old(account).data@, key@, value@) == Err::<
                        Seq<u8>,
                        WalletError,
                    >(e)
                    &&& final(account).lamports == old(account).lamports - MINTING_FEE
                    &&& final(service).lamports == old(service).lamports + MINTING_FEE
                }
            },
        },
{
    match charge_service_fee(account, service, MINTING_FEE) {
        Ok(()) => {},
        Err(e) => {
            return Err(e);
        },
    }
    mint_keypair_to_account(account, key, value)
}

/// Transfer with service fees: the transferring fee is charged to the
/// sender, then the minting fee to the receiver, then the record moves.
/// Fees already charged are not refunded by a later failure. The combined
/// balance of the three accounts never changes, and the service account's
/// buffer is never touched.
pub fn transfer_keypair_to_account_with_fee(
    from: &mut LedgerAccount,
    to: &mut LedgerAccount,
    service: &mut LedgerAccount,
    key: String,
) -> (r: Result<(), WalletError>)
    requires
        old(from).lamports + old(to).lamports + old(service).lamports <= u64::MAX,
    ensures
        final(from).address == old(from).address,
        final(from).owner == old(from).owner,
        final(to).address == old(to).address,
        final(to).owner == old(to).owner,
        final(service).address == old(service).address,
        final(service).owner == old(service).owner,
        final(service).data@ == old(service).data@,
        final(from).lamports as int + final(to).lamports as int + final(service).lamports as int
            == old(from).lamports as int + old(to).lamports as int + old(
            service,
        ).lamports as int,
        match r {
            Ok(()) => {
                &&& old(from).lamports >= TRANSFERRING_FEE
                &&& old(to).lamports >= MINTING_FEE
                &&& final(from).lamports == old(from).lamports - TRANSFERRING_FEE
                &&& final(to).lamports == old(to).lamports - MINTING_FEE
                &&& final(service).lamports == old(service).lamports + TRANSFERRING_FEE
                    + MINTING_FEE
                &&& spec_transfer_buffers(old(from).data@, old(to).data@, key@) == Ok::<
                    (Seq<u8>, Seq<u8>),
                    WalletError,
                >((final(from).data@, final(to).data@))
            },
            Err(e) => {
                &&& final(from).data@ == old(from).data@
                &&& final(to).data@ == old(to).data@
                &&& if old(from).lamports < TRANSFERRING_FEE {
                    &&& e == WalletError::InsufficientFunds
                    &&& *final(from) == *old(from)
                    &&& *final(to) == *old(to)
                    &&& *final(service) == *old(service)
                } else if old(to).lamports < MINTING_FEE {
                    &&& e == WalletError::InsufficientFunds
                    &&& final(from).lamports == old(from).lamports - TRANSFERRING_FEE
                    &&& final(to).lamports == old(to).lamports
                    &&& final(service).lamports == old(service).lamports + TRANSFERRING_FEE
                } else {
                    &&& spec_transfer_buffers(old(from).data@, old(to).data@, key@) == Err::<
                        (Seq<u8>, Seq<u8>),
                        WalletError,
                    >(e)
                    &&& final(from).lamports == old(from).lamports - TRANSFERRING_FEE
                    &&& final(to).lamports == old(to).lamports - MINTING_FEE
                    &&& final(service).lamports == old(service).lamports + TRANSFERRING_FEE
                        + MINTING_FEE
                }
            },
        },
{
    match charge_service_fee(from, service, TRANSFERRING_FEE) {
        Ok(()) => {},
        Err(e) => {
            return Err(e);
        },
    }
    match charge_service_fee(to, service, MINTING_FEE) {
        Ok(()) => {},
        Err(e) => {
            return Err(e);
        },
    }
    transfer_keypair_to_account(from, to, key)
}

/// Burn with a service fee: the fee is debited and credited first; a burn
/// that then fails does not refund it. The combined balance of the two
/// accounts never changes, and the service account's buffer is never
/// touched.
pub fn burn_keypair_from_account_with_fee(
    account: &mut LedgerAccount,
    service: &mut LedgerAccount,
    key: String,
) -> (r: Result<(), WalletError>)
    requires
        old(account).lamports + old(service).lamports <= u64::MAX,
    ensures
        final(account).address == old(account).address,
        final(account).owner == old(account).owner,
        final(service).address == old(service).address,
        final(service).owner == old(service).owner,
        final(service).data@ == old(service).data@,
        final(account).lamports as int + final(service).lamports as int == old(
            account,
        ).lamports as int + old(service).lamports as int,
        match r {
            Ok(()) => {
                &&& old(account).lamports >= BURNING_FEE
                &&& final(account).lamports == old(account).lamports - BURNING_FEE
                &&& final(service).lamports == old(service).lamports + BURNING_FEE
                &&& spec_burn_buffer(old(account).data@, key@) == Ok::<Seq<u8>, WalletError>(
                    final(account).data@,
                )
            },
            Err(e) => {
                &&& final(account).data@ == old(account).data@
                &&& if old(account).lamports < BURNING_FEE {
                    &&& e == WalletError::InsufficientFunds
                    &&& *final(account) == *old(account)
                    &&& *final(service) == *old(service)
                } else {
                    &&& spec_burn_buffer(old(account).data@, key@) == Err::<Seq<u8>, WalletError>(
                        e,
                    )
                    &&& final(account).lamports == old(account).lamports - BURNING_FEE
                    &&& final(service).lamports == old(service).lamports + BURNING_FEE
                }
            },
        },
{
    match charge_service_fee(account, service, BURNING_FEE) {
        Ok(()) => {},
        Err(e) => {
            return Err(e);
        },
    }
    burn_keypair_from_account(account, key)
}

/// What an instruction asks the host to do after the engine returns.
#[derive(Debug)]
pub enum Effect {
    /// Everything the instruction required was done on the given accounts.
    Completed,
    /// The host must build and sign the external token transfer.
    TokenTransfer(SplTransferRequest),
}

/// Mathematical model of an [`Effect`].
#[verifier::ext_equal]
pub enum EffectView {
    Completed,
    TokenTransfer(SplTransferRequestView),
}

impl View for Effect {
    type V = EffectView;

    open spec fn view(&self) -> EffectView {
        match self {
            Effect::Completed => EffectView::Completed,
            Effect::TokenTransfer(req) => EffectView::TokenTransfer(req@),
        }
    }
}

/// The account at `i` with its buffer replaced.
pub open spec fn spec_with_data(a: LedgerAccountView, b: Seq<u8>) -> LedgerAccountView {
    LedgerAccountView { data: b, ..a }
}

/// Apply a single-buffer transition's outcome to the first account.
pub open spec fn spec_buffer_result_step(
    accounts: Seq<LedgerAccountView>,
    res: Result<Seq<u8>, WalletError>,
) -> (Seq<LedgerAccountView>, Result<EffectView, WalletError>) {
    match res {
        Ok(b2) => (
            accounts.update(0, spec_with_data(accounts[0], b2)),
            Ok(EffectView::Completed),
        ),
        Err(e) => (accounts, Err(e)),
    }
}

/// Route one decoded instruction to its handler's transition.
pub open spec fn spec_dispatch(
    program_id: Seq<u8>,
    accounts: Seq<LedgerAccountView>,
    ins: InstructionView,
) -> (Seq<LedgerAccountView>, Result<EffectView, WalletError>) {
    match ins {
        InstructionView::InitializeAccount => {
            if accounts.len() < 1 {
                (accounts, Err(WalletError::NotEnoughAccounts))
            } else {
                spec_buffer_result_step(accounts, spec_initialize_buffer(accounts[0].data))
            }
        },
        InstructionView::WalletNew => {
            if accounts.len() < 1 {
                (accounts, Err(WalletError::NotEnoughAccounts))
            } else {
                spec_buffer_result_step(accounts, spec_wallet_new_buffer(accounts[0].data))
            }
        },
        InstructionView::WalletTransferSpl => {
            match spec_wallet_transfer_spl(program_id, accounts) {
                Ok(req) => (accounts, Ok(EffectView::TokenTransfer(req))),
                Err(e) => (accounts, Err(e)),
            }
        },
        InstructionView::WalletTransferLamports => {
            if accounts.len() < 2 {
                (accounts, Err(WalletError::NotEnoughAccounts))
            } else {
                match spec_charge(accounts[0], accounts[1], LAMPORT_TRANSFER_AMOUNT) {
                    Ok(p) => (accounts.update(0, p.0).update(1, p.1), Ok(EffectView::Completed)),
                    Err(e) => (accounts, Err(e)),
                }
            }
        },
        InstructionView::MintToAccount(k, v) => {
            if accounts.len() < 1 {
                (accounts, Err(WalletError::NotEnoughAccounts))
            } else {
                spec_buffer_result_step(accounts, spec_mint_buffer(accounts[0].data, k, v))
            }
        },
        InstructionView::TransferBetweenAccounts(k) => {
            if accounts.len() < 2 {
                (accounts, Err(WalletError::NotEnoughAccounts))
            } else {
                match spec_transfer_buffers(accounts[0].data, accounts[1].data, k) {
                    Ok(p) => (
                        accounts.update(0, spec_with_data(accounts[0], p.0)).update(
                            1,
                            spec_with_data(accounts[1], p.1),
                        ),
                        Ok(EffectView::Completed),
                    ),
                    Err(e) => (accounts, Err(e)),
                }
            }
        },
        InstructionView::BurnFromAccount(k) => {
            if accounts.len() < 1 {
                (accounts, Err(WalletError::NotEnoughAccounts))
            } else {
                spec_buffer_result_step(accounts, spec_burn_buffer(accounts[0].data, k))
            }
        },
        InstructionView::MintToAccountWithFee(k, v) => {
            if accounts.len() < 2 {
                (accounts, Err(WalletError::NotEnoughAccounts))
            } else {
                match spec_charge(accounts[0], accounts[1], MINTING_FEE) {
                    Err(e) => (accounts, Err(e)),
                    Ok(p) => {
                        let charged = accounts.update(0, p.0).update(1, p.1);
                        match spec_mint_buffer(p.0.data, k, v) {
                            Ok(b2) => (
                                charged.update(0, spec_with_data(p.0, b2)),
                                Ok(EffectView::Completed),
                            ),
                            Err(e) => (charged, Err(e)),
                        }
                    },
                }
            }
        },
        InstructionView::TransferBetweenAccountsWithFee(k) => {
            if accounts.len() < 3 {
                (accounts, Err(WalletError::NotEnoughAccounts))
            } else {
                match spec_charge(accounts[0], accounts[2], TRANSFERRING_FEE) {
                    Err(e) => (accounts, Err(e)),
                    Ok(p1) => {
                        match spec_charge(accounts[1], p1.1, MINTING_FEE) {
                            Err(e) => (accounts.update(0, p1.0).update(2, p1.1), Err(e)),
                            Ok(p2) => {
                                let charged = accounts.update(0, p1.0).update(1, p2.0).update(
                                    2,
                                    p2.1,
                                );
                                match spec_transfer_buffers(p1.0.data, p2.0.data, k) {
                                    Ok(bb) => (
                                        charged.update(0, spec_with_data(p1.0, bb.0)).update(
                                            1,
                                            spec_with_data(p2.0, bb.1),
                                        ),
                                        Ok(EffectView::Completed),
                                    ),
                                    Err(e) => (charged, Err(e)),
                                }
                            },
                        }
                    },
                }
            }
        },
        InstructionView::BurnFromAccountWithFee(k) => {
            if accounts.len() < 2 {
                (accounts, Err(WalletError::NotEnoughAccounts))
            } else {
                match spec_charge(accounts[0], accounts[1], BURNING_FEE) {
                    Err(e) => (accounts, Err(e)),
                    Ok(p) => {
                        let charged = accounts.update(0, p.0).update(1, p.1);
                        match spec_burn_buffer(p.0.data, k) {
                            Ok(b2) => (
                                charged.update(0, spec_with_data(p.0, b2)),
                                Ok(EffectView::Completed),
                            ),
                            Err(e) => (charged, Err(e)),
                        }
                    },
                }
            }
        },
    }
}

/// The whole state machine for one call: decode the instruction, run the
/// ownership guard over the full account list, then route to exactly one
/// handler.
pub open spec fn spec_step(
    program_id: Seq<u8>,
    accounts: Seq<LedgerAccountView>,
    data: Seq<u8>,
) -> (Seq<LedgerAccountView>, Result<EffectView, WalletError>) {
    match spec_parse_instruction(data) {
        None => (accounts, Err(WalletError::InvalidInstructionData)),
        Some(ins) => {
            if !spec_all_owned(program_id, accounts) {
                (accounts, Err(WalletError::WrongOwner))
            } else {
                spec_dispatch(program_id, accounts, ins)
            }
        },
    }
}

/// Main processing entry point: behaves exactly as [`spec_step`] over the
/// model of the account list. The combined balance bound keeps every
/// internal credit within the native balance type.
#[verifier::rlimit(100)]
pub fn process_instruction(
    program_id: &Address,
    accounts: &mut Vec<LedgerAccount>,
    instruction_data: &[u8],
) -> (r: Result<Effect, WalletError>)
    requires
        spec_total_lamports(old(accounts)@.map_values(|a: LedgerAccount| a@)) <= u64::MAX,
    ensures
        ({
            let step = spec_step(
                program_id@,
                old(accounts)@.map_values(|a: LedgerAccount| a@),
                instruction_data@,
            );
            &&& final(accounts)@.map_values(|a: LedgerAccount| a@) == step.0
            &&& (match r {
                Ok(eff) => step.1 == Ok::<EffectView, WalletError>(eff@),
                Err(e) => step.1 == Err::<EffectView, WalletError>(e),
            })
        }),
{
    let ghost av0 = accounts@.map_values(|a: LedgerAccount| a@);
    let ins = match ProgramInstruction::unpack(instruction_data) {
        Ok(i) => i,
        Err(e) => {
            return Err(e);
        },
    };
    match check_account_ownership(program_id, accounts) {
        Ok(()) => {},
        Err(e) => {
            return Err(e);
        },
    }
    match ins {
        ProgramInstruction::InitializeAccount => {
            if accounts.len() < 1 {
                return Err(WalletError::NotEnoughAccounts);
            }
            let mut a0 = accounts.remove(0);
            let res = initialize_account(&mut a0);
            accounts.insert(0, a0);
            proof {
                lemma_one_account_step(old(accounts)@, accounts@, av0);
            }
            match res {
                Ok(()) => Ok(Effect::Completed),
                Err(e) => Err(e),
            }
        },
        ProgramInstruction::WalletNew => {
            if accounts.len() < 1 {
                return Err(WalletError::NotEnoughAccounts);
            }
            let mut a0 = accounts.remove(0);
            let res = wallet_new(&mut a0);
            accounts.insert(0, a0);
            proof {
                lemma_one_account_step(old(accounts)@, accounts@, av0);
            }
            match res {
                Ok(()) => Ok(Effect::Completed),
                Err(e) => Err(e),
            }
        },
        ProgramInstruction::WalletTransferSpl => {
            match wallet_transfer_spl(program_id, accounts) {
                Ok(req) => Ok(Effect::TokenTransfer(req)),
                Err(e) => Err(e),
            }
        },
        ProgramInstruction::WalletTransferLamports => {
            if accounts.len() < 2 {
                return Err(WalletError::NotEnoughAccounts);
            }
            proof {
                lemma_total_lamports_pair_bound(av0, 0, 1);
                assert(av0[0] == old(accounts)@[0]@);
                assert(av0[1] == old(accounts)@[1]@);
            }
            let mut a0 = accounts.remove(0);
            let mut a1 = accounts.remove(0);
            let res = wallet_transfer_lamports(&mut a0, &mut a1);
            accounts.insert(0, a1);
            accounts.insert(0, a0);
            proof {
                lemma_two_account_step(old(accounts)@, accounts@, av0);
            }
            match res {
                Ok(()) => Ok(Effect::Completed),
                Err(e) => Err(e),
            }
        },
        ProgramInstruction::MintToAccount(key, value) => {
            if accounts.len() < 1 {
                return Err(WalletError::NotEnoughAccounts);
            }
            let mut a0 = accounts.remove(0);
            let res = mint_keypair_to_account(&mut a0, key, value);
            accounts.insert(0, a0);
            proof {
                lemma_one_account_step(old(accounts)@, accounts@, av0);
            }
            match res {
                Ok(()) => Ok(Effect::Completed),
                Err(e) => Err(e),
            }
        },
        ProgramInstruction::TransferBetweenAccounts(key) => {
            if accounts.len() < 2 {
                return Err(WalletError::NotEnoughAccounts);
            }
            let mut a0 = accounts.remove(0);
            let mut a1 = accounts.remove(0);
            let res = transfer_keypair_to_account(&mut a0, &mut a1, key);
            accounts.insert(0, a1);
            accounts.insert(0, a0);
            proof {
                lemma_two_account_step(old(accounts)@, accounts@, av0);
            }
            match res {
                Ok(()) => Ok(Effect::Completed),
                Err(e) => Err(e),
            }
        },
        ProgramInstruction::BurnFromAccount(key) => {
            if accounts.len() < 1 {
                return Err(WalletError::NotEnoughAccounts);
            }
            let mut a0 = accounts.remove(0);
            let res = burn_keypair_from_account(&mut a0, key);
            accounts.insert(0, a0);
            proof {
                lemma_one_account_step(old(accounts)@, accounts@, av0);
            }
            match res {
                Ok(()) => Ok(Effect::Completed),
                Err(e) => Err(e),
            }
        },
        ProgramInstruction::MintToAccountWithFee(key, value) => {
            if accounts.len() < 2 {
                return Err(WalletError::NotEnoughAccounts);
            }
            proof {
                lemma_total_lamports_pair_bound(av0, 0, 1);
                assert(av0[0] == old(accounts)@[0]@);
                assert(av0[1] == old(accounts)@[1]@);
            }
            let mut a0 = accounts.remove(0);
            let mut a1 = accounts.remove(0);
            let res = mint_keypair_to_account_with_fee(&mut a0, &mut a1, key, value);
            accounts.insert(0, a1);
            accounts.insert(0, a0);
            proof {
                lemma_two_account_step(old(accounts)@, accounts@, av0);
            }
            match res {
                Ok(()) => Ok(Effect::Completed),
                Err(e) => Err(e),
            }
        },
        ProgramInstruction::TransferBetweenAccountsWithFee(key) => {
            if accounts.len() < 3 {
                return Err(WalletError::NotEnoughAccounts);
            }
            proof {
                lemma_total_lamports_triple_bound(av0, 0, 1, 2);
                assert(av0[0] == old(accounts)@[0]@);
                assert(av0[1] == old(accounts)@[1]@);
                assert(av0[2] == old(accounts)@[2]@);
            }
            let mut a0 = accounts.remove(0);
            let mut a1 = accounts.remove(0);
            let mut a2 = accounts.remove(0);
            let res = transfer_keypair_to_account_with_fee(&mut a0, &mut a1, &mut a2, key);
            accounts.insert(0, a2);
            accounts.insert(0, a1);
            accounts.insert(0, a0);
            proof {
                lemma_three_account_step(old(accounts)@, accounts@, av0);
            }
            match res {
                Ok(()) => Ok(Effect::Completed),
                Err(e) => Err(e),
            }
        },
        ProgramInstruction::BurnFromAccountWithFee(key) => {
            if accounts.len() < 2 {
                return Err(WalletError::NotEnoughAccounts);
            }
            proof {
                lemma_total_lamports_pair_bound(av0, 0, 1);
                assert(av0[0] == old(accounts)@[0]@);
                assert(av0[1] == old(accounts)@[1]@);
            }
            let mut a0 = accounts.remove(0);
            let mut a1 = accounts.remove(0);
            let res = burn_keypair_from_account_with_fee(&mut a0, &mut a1, key);
            accounts.insert(0, a1);
            accounts.insert(0, a0);
            proof {
                lemma_two_account_step(old(accounts)@, accounts@, av0);
            }
            match res {
                Ok(()) => Ok(Effect::Completed),
                Err(e) => Err(e),
            }
        },
    }
}

/// Law: initialization succeeds at most once. Running the initialization
/// transition on a buffer it has already produced fails with
/// `AlreadyInitialized`; by `initialize_account`'s contract that failure
/// leaves the buffer, and so the map seeded by the first call, unchanged.
pub proof fn lemma_initialize_exactly_once(b: Seq<u8>)
    requires
        spec_initialize_buffer(b) is Ok,
    ensures
        spec_initialize_buffer(spec_initialize_buffer(b)->Ok_0) == Err::<Seq<u8>, WalletError>(
            WalletError::AlreadyInitialized,
        ),
{
    let st = spec_decode_unchecked(b)->Some_0;
    let st1 = StateView { initialized: true, records: st.records };
    let st2 = st1.spec_add(spec_init_key(), spec_init_value())->Ok_0;
    assert(st.wf());
    assert(st2.records == st1.records.push(
        RecordView { key: spec_init_key(), value: spec_init_value() },
    ));
    assert forall|i: int, j: int|
        0 <= i < j < st2.records.len() implies st2.records[i].key != st2.records[j].key by {
        if j < st1.records.len() {
            assert(st2.records[i] == st1.records[i]);
            assert(st2.records[j] == st1.records[j]);
        } else {
            assert(st2.records[i] == st1.records[i]);
            assert(!st1.has_key(spec_init_key()));
        }
    }
    assert(st2.wf());
    lemma_decode_encode(st2);
}

/// A single-buffer transition changes no balance.
proof fn lemma_buffer_step_preserves(
    accounts: Seq<LedgerAccountView>,
    res: Result<Seq<u8>, WalletError>,
)
    requires
        accounts.len() >= 1,
    ensures
        spec_total_lamports(spec_buffer_result_step(accounts, res).0) == spec_total_lamports(
            accounts,
        ),
{
    match res {
        Ok(b2) => {
            lemma_total_lamports_update(accounts, 0, spec_with_data(accounts[0], b2));
        },
        Err(_) => {},
    }
}

/// A charge between two accounts of the list moves balance without
/// creating or destroying any, and touches neither buffer.
proof fn lemma_charge_pair_preserves(
    accounts: Seq<LedgerAccountView>,
    i: int,
    j: int,
    amount: u64,
)
    requires
        0 <= i < accounts.len(),
        0 <= j < accounts.len(),
        i != j,
        spec_total_lamports(accounts) <= u64::MAX,
    ensures
        match spec_charge(accounts[i], accounts[j], amount) {
            Ok(p) => {
                &&& spec_total_lamports(accounts.update(i, p.0).update(j, p.1))
                    == spec_total_lamports(accounts)
                &&& p.0.lamports == accounts[i].lamports - amount
                &&& p.1.lamports == accounts[j].lamports + amount
                &&& p.0.data == accounts[i].data
                &&& p.1.data == accounts[j].data
            },
            Err(_) => true,
        },
{
    match spec_charge(accounts[i], accounts[j], amount) {
        Ok(p) => {
            lemma_total_lamports_pair_bound(accounts, i, j);
            lemma_total_lamports_update(accounts, i, p.0);
            lemma_total_lamports_update(accounts.update(i, p.0), j, p.1);
            assert(accounts.update(i, p.0)[j] == accounts[j]);
        },
        Err(_) => {},
    }
}

/// Law: every instruction conserves the combined native balance of the
/// account list it is given; fees and lamport transfers only move balance
/// between the listed accounts.
pub proof fn lemma_step_preserves_total_lamports(
    program_id: Seq<u8>,
    accounts: Seq<LedgerAccountView>,
    data: Seq<u8>,
)
    requires
        spec_total_lamports(accounts) <= u64::MAX,
    ensures
        spec_total_lamports(spec_step(program_id, accounts, data).0) == spec_total_lamports(
            accounts,
        ),
{
    match spec_parse_instruction(data) {
        None => {},
        Some(ins) => {
            if !spec_all_owned(program_id, accounts) {
            } else {
                match ins {
                    InstructionView::InitializeAccount => {
                        if accounts.len() >= 1 {
                            lemma_buffer_step_preserves(
                                accounts,
                                spec_initialize_buffer(accounts[0].data),
                            );
                        }
                    },
                    InstructionView::WalletNew => {
                        if accounts.len() >= 1 {
                            lemma_buffer_step_preserves(
                                accounts,
                                spec_wallet_new_buffer(accounts[0].data),
                            );
                        }
                    },
                    InstructionView::WalletTransferSpl => {},
                    InstructionView::WalletTransferLamports => {
                        if accounts.len() >= 2 {
                            lemma_charge_pair_preserves(accounts, 0, 1, LAMPORT_TRANSFER_AMOUNT);
                        }
                    },
                    InstructionView::MintToAccount(k, v) => {
                        if accounts.len() >= 1 {
                            lemma_buffer_step_preserves(
                                accounts,
                                spec_mint_buffer(accounts[0].data, k, v),
                            );
                        }
                    },
                    InstructionView::TransferBetweenAccounts(k) => {
                        if accounts.len() >= 2 {
                            match spec_transfer_buffers(accounts[0].data, accounts[1].data, k) {
                                Ok(p) => {
                                    let acc1 = accounts.update(
                                        0,
                                        spec_with_data(accounts[0], p.0),
                                    );
                                    lemma_total_lamports_update(
                                        accounts,
                                        0,
                                        spec_with_data(accounts[0], p.0),
                                    );
                                    lemma_total_lamports_update(
                                        acc1,
                                        1,
                                        spec_with_data(accounts[1], p.1),
                                    );
                                    assert(acc1[1] == accounts[1]);
                                },
                                Err(_) => {},
                            }
                        }
                    },
                    InstructionView::BurnFromAccount(k) => {
                        if accounts.len() >= 1 {
                            lemma_buffer_step_preserves(
                                accounts,
                                spec_burn_buffer(accounts[0].data, k),
                            );
                        }
                    },
                    InstructionView::MintToAccountWithFee(k, v) => {
                        if accounts.len() >= 2 {
                            lemma_charge_pair_preserves(accounts, 0, 1, MINTING_FEE);
                            match spec_charge(accounts[0], accounts[1], MINTING_FEE) {
                                Ok(p) => {
                                    let charged = accounts.update(0, p.0).update(1, p.1);
                                    match spec_mint_buffer(p.0.data, k, v) {
                                        Ok(b2) => {
                                            lemma_total_lamports_update(
                                                charged,
                                                0,
                                                spec_with_data(p.0, b2),
                                            );
                                            assert(charged[0] == p.0);
                                        },
                                        Err(_) => {},
                                    }
                                },
                                Err(_) => {},
                            }
                        }
                    },
                    InstructionView::TransferBetweenAccountsWithFee(k) => {
                        if accounts.len() >= 3 {
                            lemma_charge_pair_preserves(accounts, 0, 2, TRANSFERRING_FEE);
                            match spec_charge(accounts[0], accounts[2], TRANSFERRING_FEE) {
                                Ok(p1) => {
                                    let charged1 = accounts.update(0, p1.0).update(2, p1.1);
                                    assert(charged1[1] == accounts[1]);
                                    assert(charged1[2] == p1.1);
                                    lemma_charge_pair_preserves(charged1, 1, 2, MINTING_FEE);
                                    match spec_charge(accounts[1], p1.1, MINTING_FEE) {
                                        Ok(p2) => {
                                            let charged = accounts.update(0, p1.0).update(
                                                1,
                                                p2.0,
                                            ).update(2, p2.1);
                                            assert(charged =~= charged1.update(1, p2.0).update(
                                                2,
                                                p2.1,
                                            ));
                                            match spec_transfer_buffers(p1.0.data, p2.0.data, k) {
                                                Ok(bb) => {
                                                    let after_from = charged.update(
                                                        0,
                                                        spec_with_data(p1.0, bb.0),
                                                    );
                                                    lemma_total_lamports_update(
                                                        charged,
                                                        0,
                                                        spec_with_data(p1.0, bb.0),
                                                    );
                                                    lemma_total_lamports_update(
                                                        after_from,
                                                        1,
                                                        spec_with_data(p2.0, bb.1),
                                                    );
                                                    assert(charged[0] == p1.0);
                                                    assert(after_from[1] == p2.0);
                                                },
                                                Err(_) => {},
                                            }
                                        },
                                        Err(_) => {},
                                    }
                                },
                                Err(_) => {},
                            }
                        }
                    },
                    InstructionView::BurnFromAccountWithFee(k) => {
                        if accounts.len() >= 2 {
                            lemma_charge_pair_preserves(accounts, 0, 1, BURNING_FEE);
                            match spec_charge(accounts[0], accounts[1], BURNING_FEE) {
                                Ok(p) => {
                                    let charged = accounts.update(0, p.0).update(1, p.1);
                                    match spec_burn_buffer(p.0.data, k) {
                                        Ok(b2) => {
                                            lemma_total_lamports_update(
                                                charged,
                                                0,
                                                spec_with_data(p.0, b2),
                                            );
                                            assert(charged[0] == p.0);
                                        },
                                        Err(_) => {},
                                    }
                                },
                                Err(_) => {},
                            }
                        }
                    },
                }
            }
        },
    }
}

/// After removing the first account and inserting its successor back, the
/// model of the list is the model of the old list with index 0 replaced.
proof fn lemma_one_account_step(
    olds: Seq<LedgerAccount>,
    news: Seq<LedgerAccount>,
    av0: Seq<LedgerAccountView>,
)
    requires
        olds.len() >= 1,
        news =~= olds.remove(0).insert(0, news[0]),
        av0 == olds.map_values(|a: LedgerAccount| a@),
    ensures
        news.map_values(|a: LedgerAccount| a@) =~= av0.update(0, news[0]@),
        av0[0] == olds[0]@,
{
    assert forall|ix: int|
        0 <= ix < news.len() implies news.map_values(|a: LedgerAccount| a@)[ix] == av0.update(
        0,
        news[0]@,
    )[ix] by {
        if ix != 0 {
            assert(news[ix] == olds[ix]);
        }
    }
}

/// The same, for the first two accounts.
proof fn lemma_two_account_step(
    olds: Seq<LedgerAccount>,
    news: Seq<LedgerAccount>,
    av0: Seq<LedgerAccountView>,
)
    requires
        olds.len() >= 2,
        news =~= olds.remove(0).remove(0).insert(0, news[1]).insert(0, news[0]),
        av0 == olds.map_values(|a: LedgerAccount| a@),
    ensures
        news.map_values(|a: LedgerAccount| a@) =~= av0.update(0, news[0]@).update(1, news[1]@),
        av0[0] == olds[0]@,
        av0[1] == olds[1]@,
{
    assert forall|ix: int|
        0 <= ix < news.len() implies news.map_values(|a: LedgerAccount| a@)[ix] == av0.update(
        0,
        news[0]@,
    ).update(1, news[1]@)[ix] by {
        if ix >= 2 {
            assert(news[ix] == olds[ix]);
        }
    }
}

/// The same, for the first three accounts.
proof fn lemma_three_account_step(
    olds: Seq<LedgerAccount>,
    news: Seq<LedgerAccount>,
    av0: Seq<LedgerAccountView>,
)
    requires
        olds.len() >= 3,
        news =~= olds.remove(0).remove(0).remove(0).insert(0, news[2]).insert(0, news[1]).insert(
            0,
            news[0],
        ),
        av0 == olds.map_values(|a: LedgerAccount| a@),
    ensures
        news.map_values(|a: LedgerAccount| a@) =~= av0.update(0, news[0]@).update(
            1,
            news[1]@,
        ).update(2, news[2]@),
        av0[0] == olds[0]@,
        av0[1] == olds[1]@,
        av0[2] == olds[2]@,
{
    assert forall|ix: int|
        0 <= ix < news.len() implies news.map_values(|a: LedgerAccount| a@)[ix] == av0.update(
        0,
        news[0]@,
    ).update(1, news[1]@).update(2, news[2]@)[ix] by {
        if ix >= 3 {
            assert(news[ix] == olds[ix]);
        }
    }
}

} // verus!
