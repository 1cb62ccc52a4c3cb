//! The ways in which a call on the ledger is rejected.

use vstd::prelude::*;

verus! {

/// Why a call was rejected. A rejected call leaves the ledger as it was.
#[derive(Clone, Copy, Debug, PartialEq, Eq, Structural)]
pub enum LedgerError {
    /// Someone other than the owner tried to change the fee.
    Unauthorized,
    /// The payment of a deposit was not strictly more than the fee.
    InsufficientPayment,
    /// Someone other than the owner withdrew with nothing reserved.
    NothingToClaim,
    /// The runtime could not deliver the currency of a withdrawal.
    TransferFailure,
}

impl LedgerError {
    /// The text that callers are shown for each rejection.
    pub open spec fn text(self) -> Seq<char> {
        match self {
            LedgerError::Unauthorized => "Endpoint can only be called by owner"@,
            LedgerError::InsufficientPayment => "Payments must be greater than fee"@,
            LedgerError::NothingToClaim => "Nothing to claim"@,
            LedgerError::TransferFailure => "Transfer failed"@,
        }
    }

    /// The message of this rejection.
    pub fn message(&self) -> (r: &'static str)
        ensures
            r@ == self.text(),
    {
        match self {
            LedgerError::Unauthorized => "Endpoint can only be called by owner",
            LedgerError::InsufficientPayment => "Payments must be greater than fee",
            LedgerError::NothingToClaim => "Nothing to claim",
            LedgerError::TransferFailure => "Transfer failed",
        }
    }
}

} // verus!
