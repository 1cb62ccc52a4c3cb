//! The ledger as a mathematical value, and the transitions between such
//! values. The contracts of the executable ledger are stated over these.

use vstd::prelude::*;

verus! {

/// The sum of the balances in a finite map.
pub open spec fn total_reserved(reserves: Map<Seq<u8>, nat>) -> nat
    decreases reserves.dom().len(),
    when reserves.dom().finite()
{
    if reserves.dom().is_empty() {
        0
    } else {
        let holder = reserves.dom().choose();
        reserves[holder] + total_reserved(reserves.remove(holder))
    }
}

/// The sum of a finite map is the balance of any one holder plus the sum of the
/// rest.
pub proof fn lemma_total_split(reserves: Map<Seq<u8>, nat>, holder: Seq<u8>)
    requires
        reserves.dom().finite(),
        reserves.contains_key(holder),
    ensures
        total_reserved(reserves) == reserves[holder] + total_reserved(reserves.remove(holder)),
    decreases reserves.dom().len(),
{
    let chosen = reserves.dom().choose();
    if chosen != holder {
        lemma_total_split(reserves.remove(chosen), holder);
        lemma_total_split(reserves.remove(holder), chosen);
        assert(reserves.remove(chosen).remove(holder) =~= reserves.remove(holder).remove(chosen));
    }
}

/// Setting one holder's balance changes the sum by the difference between the
/// new balance and the old one, an absent holder counting as zero.
pub proof fn lemma_total_insert(reserves: Map<Seq<u8>, nat>, holder: Seq<u8>, balance: nat)
    requires
        reserves.dom().finite(),
    ensures
        total_reserved(reserves.insert(holder, balance)) + (if reserves.contains_key(holder) {
            reserves[holder]
        } else {
            0
        }) == total_reserved(reserves) + balance,
{
    let updated = reserves.insert(holder, balance);
    lemma_total_split(updated, holder);
    if reserves.contains_key(holder) {
        lemma_total_split(reserves, holder);
        assert(updated.remove(holder) =~= reserves.remove(holder));
    } else {
        assert(updated.remove(holder) =~= reserves);
    }
}

/// Removing one holder lowers the sum by that holder's balance, an absent
/// holder counting as zero.
pub proof fn lemma_total_remove(reserves: Map<Seq<u8>, nat>, holder: Seq<u8>)
    requires
        reserves.dom().finite(),
    ensures
        total_reserved(reserves.remove(holder)) + (if reserves.contains_key(holder) {
            reserves[holder]
        } else {
            0
        }) == total_reserved(reserves),
{
    if reserves.contains_key(holder) {
        lemma_total_split(reserves, holder);
    } else {
        assert(reserves.remove(holder) =~= reserves);
    }
}

/// The state of a ledger: who owns it, the fee that each deposit pays, the fees
/// collected and not yet paid out to the owner, and what is reserved for each
/// receiver. A receiver without an entry has nothing reserved.
#[verifier::ext_equal]
pub struct LedgerView {
    pub owner: Seq<u8>,
    pub fee: nat,
    pub collected_fees: nat,
    pub reserves: Map<Seq<u8>, nat>,
}

impl LedgerView {
    /// Finitely many receivers have an entry, and no entry is zero.
    pub open spec fn valid(self) -> bool {
        &&& self.reserves.dom().finite()
        &&& forall|holder: Seq<u8>| #[trigger]
            self.reserves.contains_key(holder) ==> self.reserves[holder] > 0
    }

    /// A new ledger: nothing collected, nothing reserved.
    pub open spec fn created(owner: Seq<u8>, fee: nat) -> LedgerView {
        LedgerView { owner, fee, collected_fees: 0, reserves: Map::empty() }
    }

    /// What is reserved for an account: zero where it has no entry.
    pub open spec fn reserve_of(self, account: Seq<u8>) -> nat {
        if self.reserves.contains_key(account) {
            self.reserves[account]
        } else {
            0
        }
    }

    /// Everything the ledger holds: the collected fees and all reserves.
    pub open spec fn total_held(self) -> nat {
        self.collected_fees + total_reserved(self.reserves)
    }

    /// The ledger with another fee.
    pub open spec fn with_fee(self, fee: nat) -> LedgerView {
        LedgerView { fee, ..self }
    }

    /// A deposit is accepted only when the payment is strictly more than the fee.
    pub open spec fn accepts_deposit(self, payment: nat) -> bool {
        payment > self.fee
    }

    /// The ledger after an accepted deposit: the fee joins the collected fees,
    /// and the rest of the payment is added to what the receiver has reserved.
    pub open spec fn after_deposit(self, receiver: Seq<u8>, payment: nat) -> LedgerView
        recommends
            self.accepts_deposit(payment),
    {
        LedgerView {
            collected_fees: self.collected_fees + self.fee,
            reserves: self.reserves.insert(
                receiver,
                (self.reserve_of(receiver) + payment - self.fee) as nat,
            ),
            ..self
        }
    }

    /// The owner may always withdraw; anyone else only with an entry.
    pub open spec fn allows_withdraw(self, caller: Seq<u8>) -> bool {
        caller == self.owner || self.reserves.contains_key(caller)
    }

    /// What a withdrawal pays out: the caller's reserve, and for the owner the
    /// collected fees as well.
    pub open spec fn payout(self, caller: Seq<u8>) -> nat {
        self.reserve_of(caller) + if caller == self.owner {
            self.collected_fees
        } else {
            0
        }
    }

    /// The ledger after a withdrawal: the caller's entry is gone, and where the
    /// caller is the owner no collected fees are left.
    pub open spec fn after_withdraw(self, caller: Seq<u8>) -> LedgerView {
        LedgerView {
            collected_fees: if caller == self.owner {
                0
            } else {
                self.collected_fees
            },
            reserves: self.reserves.remove(caller),
            ..self
        }
    }

    /// The ledger with each of the listed amounts added, in turn, to what its
    /// receiver has reserved.
    pub open spec fn with_reserves(self, entries: Seq<(Seq<u8>, nat)>) -> LedgerView
        decreases entries.len(),
    {
        if entries.len() == 0 {
            self
        } else {
            self.with_reserves(entries.drop_last()).reinstated(
                entries.last().0,
                entries.last().1,
                0,
            )
        }
    }

    /// The ledger after amounts that a withdrawal took out have been put back:
    /// `reserve` for the caller, `fees` into the collected fees.
    pub open spec fn reinstated(self, caller: Seq<u8>, reserve: nat, fees: nat) -> LedgerView {
        LedgerView {
            collected_fees: self.collected_fees + fees,
            reserves: if reserve == 0 {
                self.reserves
            } else {
                self.reserves.insert(caller, self.reserve_of(caller) + reserve)
            },
            ..self
        }
    }
}

/// One call on a ledger.
pub enum Call {
    SetFee { caller: Seq<u8>, fee: nat },
    Deposit { receiver: Seq<u8>, payment: nat },
    Withdraw { caller: Seq<u8> },
}

impl LedgerView {
    /// The ledger after a call. A rejected call leaves it as it was.
    pub open spec fn step(self, call: Call) -> LedgerView {
        match call {
            Call::SetFee { caller, fee } => if caller == self.owner {
                self.with_fee(fee)
            } else {
                self
            },
            Call::Deposit { receiver, payment } => if self.accepts_deposit(payment) {
                self.after_deposit(receiver, payment)
            } else {
                self
            },
            Call::Withdraw { caller } => if self.allows_withdraw(caller) {
                self.after_withdraw(caller)
            } else {
                self
            },
        }
    }

    /// What a call brings into the ledger: the payment of an accepted deposit.
    pub open spec fn taken_in(self, call: Call) -> nat {
        match call {
            Call::Deposit { receiver, payment } => if self.accepts_deposit(payment) {
                payment
            } else {
                0
            },
            _ => 0,
        }
    }

    /// What a call takes out of the ledger: the payout of an allowed withdrawal.
    pub open spec fn paid_out(self, call: Call) -> nat {
        match call {
            Call::Withdraw { caller } => if self.allows_withdraw(caller) {
                self.payout(caller)
            } else {
                0
            },
            _ => 0,
        }
    }

    /// The ledger after a sequence of calls, made one after the other.
    pub open spec fn run(self, calls: Seq<Call>) -> LedgerView
        decreases calls.len(),
    {
        if calls.len() == 0 {
            self
        } else {
            self.step(calls.first()).run(calls.drop_first())
        }
    }

    /// Everything that a sequence of calls brings into the ledger.
    pub open spec fn deposited(self, calls: Seq<Call>) -> nat
        decreases calls.len(),
    {
        if calls.len() == 0 {
            0
        } else {
            self.taken_in(calls.first()) + self.step(calls.first()).deposited(calls.drop_first())
        }
    }

    /// Everything that a sequence of calls takes out of the ledger.
    pub open spec fn withdrawn(self, calls: Seq<Call>) -> nat
        decreases calls.len(),
    {
        if calls.len() == 0 {
            0
        } else {
            self.paid_out(calls.first()) + self.step(calls.first()).withdrawn(calls.drop_first())
        }
    }
}

} // verus!
