//! The instruction set and its wire format: a one-byte variant tag followed
//! by the variant's payload strings, each as length-prefixed UTF-8 text.

use vstd::prelude::*;

use crate::codec::{read_string, spec_dec_str};
use crate::error::WalletError;

verus! {

/// All custom program instructions.
pub enum ProgramInstruction {
    InitializeAccount,
    WalletNew,
    WalletTransferSpl,
    WalletTransferLamports,
    MintToAccount(String, String),
    TransferBetweenAccounts(String),
    BurnFromAccount(String),
    MintToAccountWithFee(String, String),
    TransferBetweenAccountsWithFee(String),
    BurnFromAccountWithFee(String),
}

/// Mathematical model of a [`ProgramInstruction`].
#[verifier::ext_equal]
pub enum InstructionView {
    InitializeAccount,
    WalletNew,
    WalletTransferSpl,
    WalletTransferLamports,
    MintToAccount(Seq<char>, Seq<char>),
    TransferBetweenAccounts(Seq<char>),
    BurnFromAccount(Seq<char>),
    MintToAccountWithFee(Seq<char>, Seq<char>),
    TransferBetweenAccountsWithFee(Seq<char>),
    BurnFromAccountWithFee(Seq<char>),
}

impl View for ProgramInstruction {
    type V = InstructionView;

    open spec fn view(&self) -> InstructionView {
        match self {
            ProgramInstruction::InitializeAccount => InstructionView::InitializeAccount,
            ProgramInstruction::WalletNew => InstructionView::WalletNew,
            ProgramInstruction::WalletTransferSpl => InstructionView::WalletTransferSpl,
            ProgramInstruction::WalletTransferLamports => InstructionView::WalletTransferLamports,
            ProgramInstruction::MintToAccount(k, v) => InstructionView::MintToAccount(k@, v@),
            ProgramInstruction::TransferBetweenAccounts(k) => {
                InstructionView::TransferBetweenAccounts(k@)
            },
            ProgramInstruction::BurnFromAccount(k) => InstructionView::BurnFromAccount(k@),
            ProgramInstruction::MintToAccountWithFee(k, v) => {
                InstructionView::MintToAccountWithFee(k@, v@)
            },
            ProgramInstruction::TransferBetweenAccountsWithFee(k) => {
                InstructionView::TransferBetweenAccountsWithFee(k@)
            },
            ProgramInstruction::BurnFromAccountWithFee(k) => {
                InstructionView::BurnFromAccountWithFee(k@)
            },
        }
    }
}

/// What `unpack` accepts: a known tag byte followed by the payload strings
/// the variant carries. Bytes past the payload are not examined.
pub open spec fn spec_parse_instruction(b: Seq<u8>) -> Option<InstructionView> {
    if b.len() < 1 {
        None
    } else {
        let tag = b[0];
        if tag == 0 {
            Some(InstructionView::InitializeAccount)
        } else if tag == 1 {
            Some(InstructionView::WalletNew)
        } else if tag == 2 {
            Some(InstructionView::WalletTransferSpl)
        } else if tag == 3 {
            Some(InstructionView::WalletTransferLamports)
        } else if tag == 4 {
            match spec_parse_two_strings(b) {
                Some((k, v)) => Some(InstructionView::MintToAccount(k, v)),
                None => None,
            }
        } else if tag == 5 {
            match spec_parse_one_string(b) {
                Some(k) => Some(InstructionView::TransferBetweenAccounts(k)),
                None => None,
            }
        } else if tag == 6 {
            match spec_parse_one_string(b) {
                Some(k) => Some(InstructionView::BurnFromAccount(k)),
                None => None,
            }
        } else if tag == 7 {
            match spec_parse_two_strings(b) {
                Some((k, v)) => Some(InstructionView::MintToAccountWithFee(k, v)),
                None => None,
            }
        } else if tag == 8 {
            match spec_parse_one_string(b) {
                Some(k) => Some(InstructionView::TransferBetweenAccountsWithFee(k)),
                None => None,
            }
        } else if tag == 9 {
            match spec_parse_one_string(b) {
                Some(k) => Some(InstructionView::BurnFromAccountWithFee(k)),
                None => None,
            }
        } else {
            None
        }
    }
}

/// The single payload string of a one-string variant.
pub open spec fn spec_parse_one_string(b: Seq<u8>) -> Option<Seq<char>> {
    match spec_dec_str(b, 1) {
        Some((k, _end)) => Some(k),
        None => None,
    }
}

/// The two payload strings of a two-string variant.
pub open spec fn spec_parse_two_strings(b: Seq<u8>) -> Option<(Seq<char>, Seq<char>)> {
    match spec_dec_str(b, 1) {
        Some((k, p1)) => match spec_dec_str(b, p1) {
            Some((v, _end)) => Some((k, v)),
            None => None,
        },
        None => None,
    }
}

impl ProgramInstruction {
    /// Unpack an inbound buffer to the instruction it carries; any byte
    /// layout that matches no known variant is rejected.
    pub fn unpack(input: &[u8]) -> (r: Result<ProgramInstruction, WalletError>)
        ensures
            match r {
                Ok(ins) => spec_parse_instruction(input@) == Some(ins@),
                Err(e) => {
                    &&& e == WalletError::InvalidInstructionData
                    &&& spec_parse_instruction(input@) is None
                },
            },
    {
        if input.len() < 1 {
            return Err(WalletError::InvalidInstructionData);
        }
        let tag = input[0];
        if tag == 0 {
            Ok(ProgramInstruction::InitializeAccount)
        } else if tag == 1 {
            Ok(ProgramInstruction::WalletNew)
        } else if tag == 2 {
            Ok(ProgramInstruction::WalletTransferSpl)
        } else if tag == 3 {
            Ok(ProgramInstruction::WalletTransferLamports)
        } else if tag == 4 {
            match Self::read_two_strings(input) {
                Some(p) => Ok(ProgramInstruction::MintToAccount(p.0, p.1)),
                None => Err(WalletError::InvalidInstructionData),
            }
        } else if tag == 5 {
            match Self::read_one_string(input) {
                Some(k) => Ok(ProgramInstruction::TransferBetweenAccounts(k)),
                None => Err(WalletError::InvalidInstructionData),
            }
        } else if tag == 6 {
            match Self::read_one_string(input) {
                Some(k) => Ok(ProgramInstruction::BurnFromAccount(k)),
                None => Err(WalletError::InvalidInstructionData),
            }
        } else if tag == 7 {
            match Self::read_two_strings(input) {
                Some(p) => Ok(ProgramInstruction::MintToAccountWithFee(p.0, p.1)),
                None => Err(WalletError::InvalidInstructionData),
            }
        } else if tag == 8 {
            match Self::read_one_string(input) {
                Some(k) => Ok(ProgramInstruction::TransferBetweenAccountsWithFee(k)),
                None => Err(WalletError::InvalidInstructionData),
            }
        } else if tag == 9 {
            match Self::read_one_string(input) {
                Some(k) => Ok(ProgramInstruction::BurnFromAccountWithFee(k)),
                None => Err(WalletError::InvalidInstructionData),
            }
        } else {
            Err(WalletError::InvalidInstructionData)
        }
    }

    /// Read the payload of a one-string variant.
    fn read_one_string(input: &[u8]) -> (r: Option<String>)
        requires
            input@.len() >= 1,
        ensures
            match r {
                Some(k) => spec_parse_one_string(input@) == Some(k@),
                None => spec_parse_one_string(input@) is None,
            },
    {
        match read_string(input, 1) {
            Some(p) => Some(p.0),
            None => None,
        }
    }

    /// Read the payload of a two-string variant.
    fn read_two_strings(input: &[u8]) -> (r: Option<(String, String)>)
        requires
            input@.len() >= 1,
        ensures
            match r {
                Some(p) => spec_parse_two_strings(input@) == Some((p.0@, p.1@)),
                None => spec_parse_two_strings(input@) is None,
            },
    {
        let (k, p1) = match read_string(input, 1) {
            Some(p) => p,
            None => {
                return None;
            },
        };
        match read_string(input, p1) {
            Some(p) => Some((k, p.0)),
            None => None,
        }
    }
}

} // verus!
