//! The commands of the command-line interface, as plain values.

use crate::amount::Amount;
use vstd::prelude::*;

verus! {

/// A parsed command line: at most one command.
#[derive(Clone, PartialEq, Eq, Debug)]
pub struct InteractCli {
    pub command: Option<InteractCliCommand>,
}

/// The commands: one for each call on the ledger.
#[derive(Clone, PartialEq, Eq, Debug)]
pub enum InteractCliCommand {
    /// Create the ledger with a fee.
    Deploy(DeployArgs),
    /// Deposit for a receiver.
    Deposit(DepositArgs),
    /// Withdraw for the sender.
    Withdraw(WithdrawArgs),
    /// Set a new fee; only the owner is allowed to.
    SetFee(DeployArgs),
    /// See the fees collected.
    CollectedFees,
    /// See what is reserved for an address.
    ReserveForAddress(WithdrawArgs),
}

/// The account that a command is about, in its text form.
#[derive(Clone, PartialEq, Eq, Debug)]
pub struct WithdrawArgs {
    pub sender: String,
}

/// A fee.
#[derive(Clone, PartialEq, Eq, Debug)]
pub struct DeployArgs {
    pub fee: u32,
}

/// A deposit: who pays, for whom, and how much.
#[derive(Clone, PartialEq, Eq, Debug)]
pub struct DepositArgs {
    pub sender: String,
    pub receiver: String,
    pub value: u64,
}

impl Default for InteractCli {
    fn default() -> (r: InteractCli)
        ensures
            r.command is None,
    {
        InteractCli { command: None }
    }
}

impl Default for WithdrawArgs {
    fn default() -> (r: WithdrawArgs)
        ensures
            r.sender@ == Seq::<char>::empty(),
    {
        WithdrawArgs { sender: String::new() }
    }
}

impl Default for DeployArgs {
    fn default() -> (r: DeployArgs)
        ensures
            r.fee == 0,
    {
        DeployArgs { fee: 0 }
    }
}

impl Default for DepositArgs {
    fn default() -> (r: DepositArgs)
        ensures
            r.sender@ == Seq::<char>::empty(),
            r.receiver@ == Seq::<char>::empty(),
            r.value == 0,
    {
        DepositArgs { sender: String::new(), receiver: String::new(), value: 0 }
    }
}

impl DeployArgs {
    /// The fee as an amount.
    pub fn fee_amount(&self) -> (r: Amount)
        ensures
            r@ == self.fee,
    {
        Amount::from_u64(self.fee as u64)
    }
}

impl DepositArgs {
    /// The payment as an amount.
    pub fn payment(&self) -> (r: Amount)
        ensures
            r@ == self.value,
    {
        Amount::from_u64(self.value)
    }
}

} // verus!
