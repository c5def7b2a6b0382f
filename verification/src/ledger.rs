//! The ledger model handed in by the host: each account carries its own
//! address, its owner's address, a native balance, and a data buffer. The
//! engine receives exclusive access to these for the span of one call.

use vstd::prelude::*;

use crate::error::WalletError;

verus! {

/// How many lamports one `WalletTransferLamports` instruction moves.
pub const LAMPORT_TRANSFER_AMOUNT: u64 = 5;

/// A 32-byte account address.
#[derive(Clone, Copy, Debug)]
pub struct Address {
    pub bytes: [u8; 32],
}

impl View for Address {
    type V = Seq<u8>;

    open spec fn view(&self) -> Seq<u8> {
        self.bytes@
    }
}

/// Byte-for-byte equality of two addresses.
pub fn address_eq(a: &Address, b: &Address) -> (r: bool)
    ensures
        r == (a@ == b@),
{
    let mut i: usize = 0;
    while i < 32
        invariant
            i <= 32,
            forall|j: int| 0 <= j < i ==> a.bytes@[j] == b.bytes@[j],
        decreases 32 - i,
    {
        if a.bytes[i] != b.bytes[i] {
            return false;
        }
        i += 1;
    }
    proof {
        assert(a@ =~= b@);
    }
    true
}

/// One ledger account as this engine sees it.
pub struct LedgerAccount {
    pub address: Address,
    pub owner: Address,
    pub lamports: u64,
    pub data: Vec<u8>,
}

/// Mathematical model of a [`LedgerAccount`].
#[verifier::ext_equal]
pub struct LedgerAccountView {
    pub address: Seq<u8>,
    pub owner: Seq<u8>,
    pub lamports: u64,
    pub data: Seq<u8>,
}

impl View for LedgerAccount {
    type V = LedgerAccountView;

    open spec fn view(&self) -> LedgerAccountView {
        LedgerAccountView {
            address: self.address@,
            owner: self.owner@,
            lamports: self.lamports,
            data: self.data@,
        }
    }
}

/// The combined native balance of a list of accounts.
pub open spec fn spec_total_lamports(accounts: Seq<LedgerAccountView>) -> int
    decreases accounts.len(),
{
    if accounts.len() == 0 {
        0
    } else {
        accounts[0].lamports + spec_total_lamports(accounts.drop_first())
    }
}

/// Each account's balance is bounded by the combined balance.
pub proof fn lemma_total_lamports_bound(accounts: Seq<LedgerAccountView>, i: int)
    requires
        0 <= i < accounts.len(),
    ensures
        accounts[i].lamports <= spec_total_lamports(accounts),
        spec_total_lamports(accounts) >= 0,
    decreases accounts.len(),
{
    lemma_total_lamports_nonneg(accounts.drop_first());
    if i == 0 {
    } else {
        lemma_total_lamports_bound(accounts.drop_first(), i - 1);
        assert(accounts.drop_first()[i - 1] == accounts[i]);
    }
}

/// The combined balance is never negative.
pub proof fn lemma_total_lamports_nonneg(accounts: Seq<LedgerAccountView>)
    ensures
        spec_total_lamports(accounts) >= 0,
    decreases accounts.len(),
{
    if accounts.len() > 0 {
        lemma_total_lamports_nonneg(accounts.drop_first());
    }
}

/// Two distinct accounts' balances together are bounded by the combined
/// balance.
pub proof fn lemma_total_lamports_pair_bound(accounts: Seq<LedgerAccountView>, i: int, j: int)
    requires
        0 <= i < accounts.len(),
        0 <= j < accounts.len(),
        i != j,
    ensures
        accounts[i].lamports + accounts[j].lamports <= spec_total_lamports(accounts),
    decreases accounts.len(),
{
    if i == 0 {
        lemma_total_lamports_bound(accounts.drop_first(), j - 1);
        assert(accounts.drop_first()[j - 1] == accounts[j]);
    } else if j == 0 {
        lemma_total_lamports_bound(accounts.drop_first(), i - 1);
        assert(accounts.drop_first()[i - 1] == accounts[i]);
    } else {
        lemma_total_lamports_pair_bound(accounts.drop_first(), i - 1, j - 1);
        assert(accounts.drop_first()[i - 1] == accounts[i]);
        assert(accounts.drop_first()[j - 1] == accounts[j]);
    }
}

/// Three distinct accounts' balances together are bounded by the combined
/// balance.
pub proof fn lemma_total_lamports_triple_bound(
    accounts: Seq<LedgerAccountView>,
    i: int,
    j: int,
    k: int,
)
    requires
        0 <= i < accounts.len(),
        0 <= j < accounts.len(),
        0 <= k < accounts.len(),
        i != j,
        i != k,
        j != k,
    ensures
        accounts[i].lamports + accounts[j].lamports + accounts[k].lamports
            <= spec_total_lamports(accounts),
    decreases accounts.len(),
{
    let rest = accounts.drop_first();
    if i == 0 {
        lemma_total_lamports_pair_bound(rest, j - 1, k - 1);
        assert(rest[j - 1] == accounts[j]);
        assert(rest[k - 1] == accounts[k]);
    } else if j == 0 {
        lemma_total_lamports_pair_bound(rest, i - 1, k - 1);
        assert(rest[i - 1] == accounts[i]);
        assert(rest[k - 1] == accounts[k]);
    } else if k == 0 {
        lemma_total_lamports_pair_bound(rest, i - 1, j - 1);
        assert(rest[i - 1] == accounts[i]);
        assert(rest[j - 1] == accounts[j]);
    } else {
        lemma_total_lamports_triple_bound(rest, i - 1, j - 1, k - 1);
        assert(rest[i - 1] == accounts[i]);
        assert(rest[j - 1] == accounts[j]);
        assert(rest[k - 1] == accounts[k]);
    }
}

/// Replacing one account changes the combined balance by the difference of
/// that account's balance.
pub proof fn lemma_total_lamports_update(
    accounts: Seq<LedgerAccountView>,
    i: int,
    a: LedgerAccountView,
)
    requires
        0 <= i < accounts.len(),
    ensures
        spec_total_lamports(accounts.update(i, a)) == spec_total_lamports(accounts)
            - accounts[i].lamports + a.lamports,
    decreases accounts.len(),
{
    if i == 0 {
        assert(accounts.update(0, a).drop_first() =~= accounts.drop_first());
    } else {
        assert(accounts.update(i, a).drop_first() =~= accounts.drop_first().update(i - 1, a));
        lemma_total_lamports_update(accounts.drop_first(), i - 1, a);
    }
}

/// What a successful charge does to the two balances.
pub open spec fn spec_charge(
    payer: LedgerAccountView,
    service: LedgerAccountView,
    amount: u64,
) -> Result<(LedgerAccountView, LedgerAccountView), WalletError> {
    if payer.lamports < amount {
        Err(WalletError::InsufficientFunds)
    } else {
        Ok(
            (
                LedgerAccountView { lamports: (payer.lamports - amount) as u64, ..payer },
                LedgerAccountView { lamports: (service.lamports + amount) as u64, ..service },
            ),
        )
    }
}

/// Debit `amount` from `payer` and credit it to `service`; fails with
/// `InsufficientFunds`, touching neither balance, when the payer cannot
/// afford it. The combined balance of the two accounts never changes.
pub fn charge_service_fee(
    payer: &mut LedgerAccount,
    service: &mut LedgerAccount,
    amount: u64,
) -> (r: Result<(), WalletError>)
    requires
        old(payer).lamports + old(service).lamports <= u64::MAX,
    ensures
        final(payer).address == old(payer).address,
        final(payer).owner == old(payer).owner,
        final(payer).data == old(payer).data,
        final(service).address == old(service).address,
        final(service).owner == old(service).owner,
        final(service).data == old(service).data,
        final(payer).lamports as int + final(service).lamports as int == old(payer).lamports as int
            + old(service).lamports as int,
        match r {
            Ok(()) => {
                &&& old(payer).lamports >= amount
                &&& spec_charge(old(payer)@, old(service)@, amount) == Ok::<
                    (LedgerAccountView, LedgerAccountView),
                    WalletError,
                >((final(payer)@, final(service)@))
                &&& final(payer).lamports == old(payer).lamports - amount
                &&& final(service).lamports == old(service).lamports + amount
            },
            Err(e) => {
                &&& e == WalletError::InsufficientFunds
                &&& old(payer).lamports < amount
                &&& *final(payer) == *old(payer)
                &&& *final(service) == *old(service)
            },
        },
{
    if payer.lamports < amount {
        return Err(WalletError::InsufficientFunds);
    }
    payer.lamports = payer.lamports - amount;
    service.lamports = service.lamports + amount;
    Ok(())
}

/// Move the fixed lamport amount from `source` to `destination`; fails with
/// `InsufficientFunds`, touching neither balance, when the source cannot
/// afford it.
pub fn wallet_transfer_lamports(
    source: &mut LedgerAccount,
    destination: &mut LedgerAccount,
) -> (r: Result<(), WalletError>)
    requires
        old(source).lamports + old(destination).lamports <= u64::MAX,
    ensures
        final(source).address == old(source).address,
        final(source).owner == old(source).owner,
        final(source).data == old(source).data,
        final(destination).address == old(destination).address,
        final(destination).owner == old(destination).owner,
        final(destination).data == old(destination).data,
        final(source).lamports as int + final(destination).lamports as int == old(
            source,
        ).lamports as int + old(destination).lamports as int,
        match r {
            Ok(()) => {
                &&& old(source).lamports >= LAMPORT_TRANSFER_AMOUNT
                &&& spec_charge(old(source)@, old(destination)@, LAMPORT_TRANSFER_AMOUNT) == Ok::<
                    (LedgerAccountView, LedgerAccountView),
                    WalletError,
                >((final(source)@, final(destination)@))
                &&& final(source).lamports == old(source).lamports - LAMPORT_TRANSFER_AMOUNT
                &&& final(destination).lamports == old(destination).lamports
                    + LAMPORT_TRANSFER_AMOUNT
            },
            Err(e) => {
                &&& e == WalletError::InsufficientFunds
                &&& old(source).lamports < LAMPORT_TRANSFER_AMOUNT
                &&& *final(source) == *old(source)
                &&& *final(destination) == *old(destination)
            },
        },
{
    if source.lamports < LAMPORT_TRANSFER_AMOUNT {
        return Err(WalletError::InsufficientFunds);
    }
    source.lamports = source.lamports - LAMPORT_TRANSFER_AMOUNT;
    destination.lamports = destination.lamports + LAMPORT_TRANSFER_AMOUNT;
    Ok(())
}

} // verus!
