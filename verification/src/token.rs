//! The external-token transfer path: derive the program's authority
//! address, read the token amount and mint decimals from the collaborator's
//! account layouts, and assemble the transfer request that the host signs
//! and submits.

use vstd::prelude::*;

use solana_program::program_pack::Pack;

use crate::error::WalletError;
use crate::ledger::{address_eq, Address, LedgerAccount, LedgerAccountView};

verus! {

/// The address and bump seed that the host's deterministic derivation
/// produces from this program's identity and the fixed authority seed.
pub uninterp spec fn spec_derived_authority(program_id: Seq<u8>) -> Option<(Seq<u8>, u8)>;

/// The amount field that the token collaborator's parser reads from a
/// token account's bytes.
pub uninterp spec fn spec_token_account_amount(data: Seq<u8>) -> Option<u64>;

/// The decimals field that the token collaborator's parser reads from a
/// mint's bytes.
pub uninterp spec fn spec_token_mint_decimals(data: Seq<u8>) -> Option<u8>;

/// Relies on `Pubkey::try_find_program_address` with the fixed seed
/// `b"authority"`: the result is a deterministic function of the program id
/// alone, and absent exactly when no bump seed yields a valid address.
#[verifier::external_body]
fn derive_authority(program_id: &Address) -> (r: Option<(Address, u8)>)
    ensures
        match r {
            Some(p) => spec_derived_authority(program_id@) == Some((p.0@, p.1)),
            None => spec_derived_authority(program_id@) is None,
        },
{
    let pid = solana_program::pubkey::Pubkey::new_from_array(program_id.bytes);
    solana_program::pubkey::Pubkey::try_find_program_address(&[b"authority"], &pid).map(
        |p: (solana_program::pubkey::Pubkey, u8)|
            (Address { bytes: p.0.to_bytes() }, p.1),
    )
}

/// Relies on `spl_token::state::Account::unpack`: parses an initialized
/// token account from its fixed 165-byte layout; the amount field is a
/// function of the bytes alone.
#[verifier::external_body]
fn token_account_amount(data: &Vec<u8>) -> (r: Option<u64>)
    ensures
        r == spec_token_account_amount(data@),
        data@.len() != 165 ==> r is None,
{
    spl_token::state::Account::unpack(data.as_slice()).ok().map(|a| a.amount)
}

/// Relies on `spl_token::state::Mint::unpack`: parses an initialized mint
/// from its fixed 82-byte layout; the decimals field is a function of the
/// bytes alone.
#[verifier::external_body]
fn token_mint_decimals(data: &Vec<u8>) -> (r: Option<u8>)
    ensures
        r == spec_token_mint_decimals(data@),
        data@.len() != 82 ==> r is None,
{
    spl_token::state::Mint::unpack(data.as_slice()).ok().map(|m| m.decimals)
}

/// Everything the host needs to build and sign the external token
/// transfer: the five account addresses in instruction order, the full
/// source balance, the mint's decimals, and the authority's bump seed.
#[derive(Debug)]
pub struct SplTransferRequest {
    pub source: Address,
    pub mint: Address,
    pub destination: Address,
    pub authority: Address,
    pub token_program: Address,
    pub amount: u64,
    pub decimals: u8,
    pub bump: u8,
}

/// Mathematical model of an [`SplTransferRequest`].
#[verifier::ext_equal]
pub struct SplTransferRequestView {
    pub source: Seq<u8>,
    pub mint: Seq<u8>,
    pub destination: Seq<u8>,
    pub authority: Seq<u8>,
    pub token_program: Seq<u8>,
    pub amount: u64,
    pub decimals: u8,
    pub bump: u8,
}

impl View for SplTransferRequest {
    type V = SplTransferRequestView;

    open spec fn view(&self) -> SplTransferRequestView {
        SplTransferRequestView {
            source: self.source@,
            mint: self.mint@,
            destination: self.destination@,
            authority: self.authority@,
            token_program: self.token_program@,
            amount: self.amount,
            decimals: self.decimals,
            bump: self.bump,
        }
    }
}

/// What the token-transfer handler decides, over the account list
/// `[source, mint, destination, authority, token-program]`: the supplied
/// authority must be the derived one, and the source and mint must parse;
/// the request then carries the source's full balance.
pub open spec fn spec_wallet_transfer_spl(
    program_id: Seq<u8>,
    accounts: Seq<LedgerAccountView>,
) -> Result<SplTransferRequestView, WalletError> {
    if accounts.len() < 5 {
        Err(WalletError::NotEnoughAccounts)
    } else {
        match spec_derived_authority(program_id) {
            None => Err(WalletError::InvalidAuthority),
            Some((derived, bump)) => {
                if derived != accounts[3].address {
                    Err(WalletError::InvalidAuthority)
                } else {
                    match spec_token_account_amount(accounts[0].data) {
                        None => Err(WalletError::DeserializationError),
                        Some(amount) => match spec_token_mint_decimals(accounts[1].data) {
                            None => Err(WalletError::DeserializationError),
                            Some(decimals) => Ok(
                                SplTransferRequestView {
                                    source: accounts[0].address,
                                    mint: accounts[1].address,
                                    destination: accounts[2].address,
                                    authority: accounts[3].address,
                                    token_program: accounts[4].address,
                                    amount,
                                    decimals,
                                    bump,
                                },
                            ),
                        },
                    }
                }
            },
        }
    }
}

/// Check the supplied authority against the derived one, read the source's
/// balance and the mint's decimals, and hand back the transfer request for
/// the host to sign and submit. Touches no account.
pub fn wallet_transfer_spl(program_id: &Address, accounts: &Vec<LedgerAccount>) -> (r: Result<
    SplTransferRequest,
    WalletError,
>)
    ensures
        match r {
            Ok(req) => spec_wallet_transfer_spl(
                program_id@,
                accounts@.map_values(|a: LedgerAccount| a@),
            ) == Ok::<SplTransferRequestView, WalletError>(req@),
            Err(e) => spec_wallet_transfer_spl(
                program_id@,
                accounts@.map_values(|a: LedgerAccount| a@),
            ) == Err::<SplTransferRequestView, WalletError>(e),
        },
{
    let ghost av = accounts@.map_values(|a: LedgerAccount| a@);
    if accounts.len() < 5 {
        return Err(WalletError::NotEnoughAccounts);
    }
    proof {
        assert(av[0] == accounts@[0]@);
        assert(av[1] == accounts@[1]@);
        assert(av[2] == accounts@[2]@);
        assert(av[3] == accounts@[3]@);
        assert(av[4] == accounts@[4]@);
    }
    let (derived, bump) = match derive_authority(program_id) {
        Some(p) => p,
        None => {
            return Err(WalletError::InvalidAuthority);
        },
    };
    if !address_eq(&derived, &accounts[3].address) {
        return Err(WalletError::InvalidAuthority);
    }
    let amount = match token_account_amount(&accounts[0].data) {
        Some(a) => a,
        None => {
            return Err(WalletError::DeserializationError);
        },
    };
    let decimals = match token_mint_decimals(&accounts[1].data) {
        Some(d) => d,
        None => {
            return Err(WalletError::DeserializationError);
        },
    };
    Ok(
        SplTransferRequest {
            source: accounts[0].address,
            mint: accounts[1].address,
            destination: accounts[2].address,
            authority: accounts[3].address,
            token_program: accounts[4].address,
            amount,
            decimals,
            bump,
        },
    )
}

} // verus!
