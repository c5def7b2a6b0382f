//! The errors that an instruction can abort with.

use vstd::prelude::*;

verus! {

/// Every failure mode of the engine. Each instruction either fully succeeds
/// or aborts with exactly one of these.
#[derive(Clone, Copy, Debug, PartialEq, Eq, Structural)]
pub enum WalletError {
    /// A non-terminal account in the instruction's account list is not owned
    /// by this program.
    WrongOwner,
    /// The instruction bytes do not match any known variant.
    InvalidInstructionData,
    /// The supplied authority account is not the derived authority address.
    InvalidAuthority,
    /// A second initialization was attempted on an initialized account.
    AlreadyInitialized,
    /// `add` was called with a key that is already present.
    DuplicateKey,
    /// `remove` was called with a key that is absent.
    KeyNotFound,
    /// A balance debit was attempted for more than the payer holds.
    InsufficientFunds,
    /// The encoded state would not fit in the fixed-width account buffer.
    SerializationError,
    /// The account buffer cannot be parsed as a well-formed account state.
    DeserializationError,
    /// The instruction was given fewer accounts than its handler reads.
    NotEnoughAccounts,
}

} // verus!
