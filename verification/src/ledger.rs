//! The ledger itself: an owner, a fee, the fees collected, and what is
//! reserved for each receiver.

use crate::address::Address;
use crate::amount::Amount;
use crate::error::LedgerError;
use crate::model::{lemma_total_insert, lemma_total_remove, Call, LedgerView};
use vstd::prelude::*;

verus! {

/// What is reserved for one receiver.
#[derive(Debug)]
struct Reserve {
    holder: Address,
    amount: Amount,
}

/// No two entries are for the same receiver.
spec fn distinct(entries: Seq<Reserve>) -> bool {
    forall|i: int, j: int|
        0 <= i < j < entries.len() ==> (#[trigger] entries[i]).holder@ != (
        #[trigger] entries[j]).holder@
}

/// No entry is zero.
spec fn positive(entries: Seq<Reserve>) -> bool {
    forall|i: int| 0 <= i < entries.len() ==> (#[trigger] entries[i]).amount@ > 0
}

/// Some entry is for the given account.
spec fn holds(entries: Seq<Reserve>, account: Seq<u8>) -> bool {
    exists|i: int| 0 <= i < entries.len() && (#[trigger] entries[i]).holder@ == account
}

/// The entries as a map from receiver to balance.
spec fn entries_map(entries: Seq<Reserve>) -> Map<Seq<u8>, nat>
    decreases entries.len(),
{
    if entries.len() == 0 {
        Map::empty()
    } else {
        entries_map(entries.drop_last()).insert(entries.last().holder@, entries.last().amount@)
    }
}

/// The map has exactly the receivers of the entries, each with its balance.
proof fn lemma_entries_map(entries: Seq<Reserve>)
    requires
        distinct(entries),
    ensures
        entries_map(entries).dom().finite(),
        forall|account: Seq<u8>| #[trigger]
            entries_map(entries).contains_key(account) <==> holds(entries, account),
        forall|i: int|
            0 <= i < entries.len() ==> entries_map(entries)[(#[trigger] entries[i]).holder@]
                == entries[i].amount@,
    decreases entries.len(),
{
    if entries.len() > 0 {
        let front = entries.drop_last();
        let last = entries.last();
        assert forall|i: int, j: int| 0 <= i < j < front.len() implies (#[trigger] front[i]).holder@
            != (#[trigger] front[j]).holder@ by {
            assert(front[i] == entries[i] && front[j] == entries[j]);
        }
        lemma_entries_map(front);
        assert forall|account: Seq<u8>| #[trigger]
            entries_map(entries).contains_key(account) <==> holds(entries, account) by {
            if holds(entries, account) {
                let i = choose|i: int|
                    0 <= i < entries.len() && (#[trigger] entries[i]).holder@ == account;
                if i < front.len() {
                    assert(front[i].holder@ == account);
                    assert(holds(front, account));
                }
            }
            if entries_map(entries).contains_key(account) {
                if account == last.holder@ {
                    assert(entries[entries.len() - 1].holder@ == account);
                } else {
                    assert(holds(front, account));
                    let i = choose|i: int|
                        0 <= i < front.len() && (#[trigger] front[i]).holder@ == account;
                    assert(entries[i].holder@ == account);
                }
            }
        }
        assert forall|i: int| 0 <= i < entries.len() implies entries_map(entries)[(
        #[trigger] entries[i]).holder@] == entries[i].amount@ by {
            if i < front.len() {
                assert(front[i] == entries[i]);
                assert(entries[i].holder@ != entries[entries.len() - 1].holder@);
            }
        }
    }
}

/// Entries that are distinct and not zero make a valid map.
proof fn lemma_entries_valid(entries: Seq<Reserve>)
    requires
        distinct(entries),
        positive(entries),
    ensures
        entries_map(entries).dom().finite(),
        forall|account: Seq<u8>| #[trigger]
            entries_map(entries).contains_key(account) ==> entries_map(entries)[account] > 0,
{
    lemma_entries_map(entries);
    assert forall|account: Seq<u8>| #[trigger]
        entries_map(entries).contains_key(account) implies entries_map(entries)[account]
        > 0 by {
        assert(holds(entries, account));
        let i = choose|i: int| 0 <= i < entries.len() && (#[trigger] entries[i]).holder@ == account;
        assert(entries[i].amount@ > 0);
    }
}

/// A new entry for a receiver that has none sets that receiver's balance.
proof fn lemma_push(entries: Seq<Reserve>, entry: Reserve)
    requires
        distinct(entries),
        !holds(entries, entry.holder@),
    ensures
        distinct(entries.push(entry)),
        entries_map(entries.push(entry)) == entries_map(entries).insert(
            entry.holder@,
            entry.amount@,
        ),
{
    let grown = entries.push(entry);
    assert(grown.drop_last() =~= entries);
    assert forall|i: int, j: int| 0 <= i < j < grown.len() implies (#[trigger] grown[i]).holder@
        != (#[trigger] grown[j]).holder@ by {
        assert(grown[i] == entries[i]);
        if j < entries.len() {
            assert(grown[j] == entries[j]);
        }
    }
}

/// Replacing an entry by one for the same receiver sets that receiver's balance.
proof fn lemma_update(entries: Seq<Reserve>, at: int, entry: Reserve)
    requires
        distinct(entries),
        0 <= at < entries.len(),
        entry.holder@ == entries[at].holder@,
    ensures
        distinct(entries.update(at, entry)),
        entries_map(entries.update(at, entry)) == entries_map(entries).insert(
            entry.holder@,
            entry.amount@,
        ),
{
    let changed = entries.update(at, entry);
    assert forall|i: int, j: int| 0 <= i < j < changed.len() implies (
    #[trigger] changed[i]).holder@ != (#[trigger] changed[j]).holder@ by {
        assert(changed[i].holder@ == entries[i].holder@);
        assert(changed[j].holder@ == entries[j].holder@);
    }
    lemma_entries_map(entries);
    lemma_entries_map(changed);
    let expected = entries_map(entries).insert(entry.holder@, entry.amount@);
    assert forall|account: Seq<u8>| #[trigger]
        entries_map(changed).contains_key(account) <==> expected.contains_key(account) by {
        if holds(changed, account) {
            let i = choose|i: int|
                0 <= i < changed.len() && (#[trigger] changed[i]).holder@ == account;
            assert(entries[i].holder@ == account);
        }
        if holds(entries, account) {
            let i = choose|i: int|
                0 <= i < entries.len() && (#[trigger] entries[i]).holder@ == account;
            assert(changed[i].holder@ == account);
        }
        if account == entry.holder@ {
            assert(changed[at].holder@ == account);
        }
    }
    assert forall|account: Seq<u8>| #[trigger]
        expected.contains_key(account) implies entries_map(changed)[account]
        == expected[account] by {
        assert(entries_map(changed).contains_key(account));
        assert(holds(changed, account));
        let i = choose|i: int| 0 <= i < changed.len() && (#[trigger] changed[i]).holder@ == account;
        if i != at {
            assert(changed[i] == entries[i]);
        }
    }
    assert(entries_map(changed) =~= expected);
}

/// Taking an entry out removes its receiver from the map.
proof fn lemma_remove(entries: Seq<Reserve>, at: int)
    requires
        distinct(entries),
        0 <= at < entries.len(),
    ensures
        distinct(entries.remove(at)),
        entries_map(entries.remove(at)) == entries_map(entries).remove(entries[at].holder@),
{
    let rest = entries.remove(at);
    assert forall|i: int| 0 <= i < rest.len() implies #[trigger] rest[i] == entries[if i < at {
        i
    } else {
        i + 1
    }] by {}
    assert forall|i: int, j: int| 0 <= i < j < rest.len() implies (#[trigger] rest[i]).holder@ != (
    #[trigger] rest[j]).holder@ by {
        let a = if i < at { i } else { i + 1 };
        let b = if j < at { j } else { j + 1 };
        assert(rest[i] == entries[a] && rest[j] == entries[b]);
    }
    lemma_entries_map(entries);
    lemma_entries_map(rest);
    let expected = entries_map(entries).remove(entries[at].holder@);
    assert forall|account: Seq<u8>| #[trigger]
        entries_map(rest).contains_key(account) <==> expected.contains_key(account) by {
        if holds(rest, account) {
            let i = choose|i: int| 0 <= i < rest.len() && (#[trigger] rest[i]).holder@ == account;
            let a = if i < at { i } else { i + 1 };
            assert(rest[i] == entries[a]);
            assert(entries[a].holder@ == account);
            assert(entries[a].holder@ != entries[at].holder@);
        }
        if expected.contains_key(account) {
            assert(holds(entries, account));
            let a = choose|a: int|
                0 <= a < entries.len() && (#[trigger] entries[a]).holder@ == account;
            let i = if a < at { a } else { a - 1 };
            assert(rest[i] == entries[a]);
            assert(rest[i].holder@ == account);
        }
    }
    assert forall|account: Seq<u8>| #[trigger]
        expected.contains_key(account) implies entries_map(rest)[account]
        == expected[account] by {
        assert(entries_map(rest).contains_key(account));
        assert(holds(rest, account));
        let i = choose|i: int| 0 <= i < rest.len() && (#[trigger] rest[i]).holder@ == account;
        let a = if i < at { i } else { i + 1 };
        assert(rest[i] == entries[a]);
    }
    assert(entries_map(rest) =~= expected);
}

/// The place of the entry for an account, if there is one.
fn find(entries: &Vec<Reserve>, account: &Address) -> (r: Option<usize>)
    ensures
        match r {
            Some(i) => i < entries@.len() && entries@[i as int].holder@ == account@,
            None => !holds(entries@, account@),
        },
{
    let mut i: usize = 0;
    while i < entries.len()
        invariant
            i <= entries@.len(),
            forall|j: int| 0 <= j < i ==> (#[trigger] entries@[j]).holder@ != account@,
        decreases entries@.len() - i,
    {
        if entries[i].holder.same(account) {
            return Some(i);
        }
        i = i + 1;
    }
    None
}

/// Adds an amount that is not zero to what is reserved for a receiver.
fn credit(entries: &mut Vec<Reserve>, receiver: &Address, amount: Amount)
    requires
        distinct(old(entries)@),
        positive(old(entries)@),
        amount@ > 0,
    ensures
        distinct(final(entries)@),
        positive(final(entries)@),
        entries_map(final(entries)@) == entries_map(old(entries)@).insert(
            receiver@,
            (if entries_map(old(entries)@).contains_key(receiver@) {
                entries_map(old(entries)@)[receiver@]
            } else {
                0
            }) + amount@,
        ),
{
    proof {
        lemma_entries_map(entries@);
    }
    match find(entries, receiver) {
        Some(i) => {
            let raised = entries[i].amount.plus(&amount);
            let entry = Reserve { holder: *receiver, amount: raised };
            proof {
                lemma_update(entries@, i as int, entry);
            }
            entries.set(i, entry);
        },
        None => {
            let entry = Reserve { holder: *receiver, amount };
            proof {
                lemma_push(entries@, entry);
            }
            entries.push(entry);
        },
    }
}

/// What a withdrawal pays to the caller, as two separate payments: first what
/// was reserved for the caller, then, for the owner only, the collected fees.
#[derive(Debug)]
pub struct Settlement {
    pub reserve: Amount,
    pub fees: Option<Amount>,
}

impl Settlement {
    /// The second payment, counting none as zero.
    pub open spec fn fees_paid(&self) -> nat {
        match self.fees {
            Some(fees) => fees@,
            None => 0,
        }
    }

    /// Both payments together.
    pub open spec fn total_paid(&self) -> nat {
        self.reserve@ + self.fees_paid()
    }

    /// Both payments together.
    pub fn total(&self) -> (r: Amount)
        ensures
            r@ == self.total_paid(),
    {
        match &self.fees {
            Some(fees) => self.reserve.plus(fees),
            None => self.reserve.clone(),
        }
    }
}

/// What the runtime reports of the payments of a settlement: it delivers all
/// of them, or it aborts the call.
#[derive(Clone, Copy, Debug, PartialEq, Eq, Structural)]
pub enum Delivery {
    Delivered,
    Failed,
}

/// A list of reserves as pairs of plain values.
pub open spec fn listed(reserves: Seq<(Address, Amount)>) -> Seq<(Seq<u8>, nat)> {
    reserves.map_values(|entry: (Address, Amount)| (entry.0@, entry.1@))
}

/// The ledger. Its view is a [`LedgerView`].
#[derive(Debug)]
pub struct RustChallenge {
    owner: Address,
    fee: Amount,
    collected_fees: Amount,
    reserves: Vec<Reserve>,
}

impl View for RustChallenge {
    type V = LedgerView;

    closed spec fn view(&self) -> LedgerView {
        LedgerView {
            owner: self.owner@,
            fee: self.fee@,
            collected_fees: self.collected_fees@,
            reserves: entries_map(self.reserves@),
        }
    }
}

impl RustChallenge {
    #[verifier::type_invariant]
    spec fn well_formed(&self) -> bool {
        distinct(self.reserves@) && positive(self.reserves@)
    }

    /// Creates the ledger of `owner` with the given fee, nothing collected and
    /// nothing reserved.
    pub fn init(owner: Address, fee: Amount) -> (r: RustChallenge)
        ensures
            r@ == LedgerView::created(owner@, fee@),
            r@.valid(),
    {
        RustChallenge { owner, fee, collected_fees: Amount::zero(), reserves: Vec::new() }
    }

    /// Builds a ledger from a state that was kept elsewhere: its owner, its
    /// fee, the fees collected, and a list of reserves. Each listed amount is
    /// added to what its receiver has; a listed zero adds nothing.
    pub fn from_state(
        owner: Address,
        fee: Amount,
        collected_fees: Amount,
        reserves: Vec<(Address, Amount)>,
    ) -> (r: RustChallenge)
        ensures
            r@ == (LedgerView {
                owner: owner@,
                fee: fee@,
                collected_fees: collected_fees@,
                reserves: Map::empty(),
            }).with_reserves(listed(reserves@)),
            r@.valid(),
    {
        let ghost start = LedgerView {
            owner: owner@,
            fee: fee@,
            collected_fees: collected_fees@,
            reserves: Map::empty(),
        };
        let mut entries: Vec<Reserve> = Vec::new();
        let mut i: usize = 0;
        while i < reserves.len()
            invariant
                i <= reserves@.len(),
                distinct(entries@),
                positive(entries@),
                start.with_reserves(listed(reserves@).take(i as int)) == (LedgerView {
                    reserves: entries_map(entries@),
                    ..start
                }),
            decreases reserves@.len() - i,
        {
            proof {
                let upto = listed(reserves@).take(i + 1);
                assert(upto.drop_last() =~= listed(reserves@).take(i as int));
                assert(upto.last() == (reserves@[i as int].0@, reserves@[i as int].1@));
            }
            if !reserves[i].1.is_zero() {
                credit(&mut entries, &reserves[i].0, reserves[i].1.clone());
            }
            i = i + 1;
        }
        proof {
            assert(listed(reserves@).take(i as int) =~= listed(reserves@));
            lemma_entries_valid(entries@);
        }
        RustChallenge { owner, fee, collected_fees, reserves: entries }
    }

    /// The owner of the ledger.
    pub fn owner(&self) -> (r: Address)
        ensures
            r@ == self@.owner,
    {
        self.owner
    }

    /// The fee that every deposit pays.
    pub fn get_fee(&self) -> (r: Amount)
        ensures
            r@ == self@.fee,
    {
        self.fee.clone()
    }

    /// The fees collected and not yet withdrawn by the owner.
    pub fn get_collected_fees(&self) -> (r: Amount)
        ensures
            r@ == self@.collected_fees,
    {
        self.collected_fees.clone()
    }

    /// What is reserved for a receiver: zero where nothing is.
    pub fn get_reserve_for_address(&self, receiver: &Address) -> (r: Amount)
        ensures
            r@ == self@.reserve_of(receiver@),
    {
        proof {
            use_type_invariant(self);
            lemma_entries_map(self.reserves@);
        }
        match find(&self.reserves, receiver) {
            Some(i) => self.reserves[i].amount.clone(),
            None => Amount::zero(),
        }
    }

    /// Changes the fee. Only the owner may: for anyone else the call is
    /// rejected as unauthorized and the ledger stays as it was.
    pub fn set_fee(&mut self, caller: &Address, fee: Amount) -> (r: Result<(), LedgerError>)
        ensures
            caller@ == old(self)@.owner ==> r is Ok && final(self)@ == old(self)@.with_fee(fee@),
            caller@ != old(self)@.owner ==> r == Err::<(), LedgerError>(LedgerError::Unauthorized)
                && final(self)@ == old(self)@,
            final(self)@ == old(self)@.step(Call::SetFee { caller: caller@, fee: fee@ }),
            final(self)@.valid(),
    {
        proof {
            use_type_invariant(&*self);
            lemma_entries_valid(self.reserves@);
        }
        if !self.owner.same(caller) {
            return Err(LedgerError::Unauthorized);
        }
        self.fee = fee;
        Ok(())
    }

    /// Deposits `payment` for `receiver`. Anyone may deposit for anyone, so
    /// who pays changes nothing. The payment has to be strictly more than the
    /// fee, else the call is rejected and the ledger stays as it was. Of an
    /// accepted payment the fee joins the collected fees and the rest is
    /// reserved for the receiver.
    pub fn deposit(&mut self, _caller: &Address, receiver: &Address, payment: &Amount) -> (r: Result<
        (),
        LedgerError,
    >)
        ensures
            old(self)@.accepts_deposit(payment@) ==> r is Ok && final(self)@ == old(
                self,
            )@.after_deposit(receiver@, payment@),
            !old(self)@.accepts_deposit(payment@) ==> r == Err::<(), LedgerError>(
                LedgerError::InsufficientPayment,
            ) && final(self)@ == old(self)@,
            final(self)@ == old(self)@.step(
                Call::Deposit { receiver: receiver@, payment: payment@ },
            ),
            final(self)@.valid(),
            final(self)@.total_held() == old(self)@.total_held() + if r is Ok {
                payment@
            } else {
                0
            },
    {
        proof {
            use_type_invariant(&*self);
            lemma_entries_valid(self.reserves@);
            lemma_entries_map(self.reserves@);
        }
        let reserve = match payment.checked_sub(&self.fee) {
            Some(reserve) => reserve,
            None => {
                return Err(LedgerError::InsufficientPayment);
            },
        };
        if reserve.is_zero() {
            return Err(LedgerError::InsufficientPayment);
        }
        let ghost before = self@;
        self.collected_fees = self.collected_fees.plus(&self.fee);
        let mut reserves: Vec<Reserve> = Vec::new();
        std::mem::swap(&mut reserves, &mut self.reserves);
        credit(&mut reserves, receiver, reserve);
        self.reserves = reserves;
        proof {
            lemma_entries_valid(self.reserves@);
            lemma_total_insert(
                before.reserves,
                receiver@,
                (before.reserve_of(receiver@) + payment@ - before.fee) as nat,
            );
        }
        Ok(())
    }

    /// Withdraws for `caller`: takes out what is reserved for the caller and,
    /// where the caller is the owner, the collected fees too. Anyone but the
    /// owner needs something reserved, else the call is rejected and the ledger
    /// stays as it was. The amounts are gone from the ledger when the call
    /// returns; the settlement says what is to be paid to the caller.
    pub fn withdraw(&mut self, caller: &Address) -> (r: Result<Settlement, LedgerError>)
        ensures
            old(self)@.allows_withdraw(caller@) ==> {
                &&& r matches Ok(settlement)
                &&& settlement.reserve@ == old(self)@.reserve_of(caller@)
                &&& caller@ == old(self)@.owner ==> settlement.fees is Some
                    && settlement.fees_paid() == old(self)@.collected_fees
                &&& caller@ != old(self)@.owner ==> settlement.fees is None
                &&& settlement.total_paid() == old(self)@.payout(caller@)
                &&& final(self)@ == old(self)@.after_withdraw(caller@)
            },
            !old(self)@.allows_withdraw(caller@) ==> {
                &&& r matches Err(error)
                &&& error == LedgerError::NothingToClaim
                &&& final(self)@ == old(self)@
            },
            final(self)@ == old(self)@.step(Call::Withdraw { caller: caller@ }),
            final(self)@.valid(),
            final(self)@.total_held() + (if r is Ok {
                old(self)@.payout(caller@)
            } else {
                0
            }) == old(self)@.total_held(),
    {
        proof {
            use_type_invariant(&*self);
            lemma_entries_valid(self.reserves@);
            lemma_entries_map(self.reserves@);
            lemma_total_remove(self@.reserves, caller@);
        }
        let by_owner = self.owner.same(caller);
        let found = find(&self.reserves, caller);
        if !by_owner && found.is_none() {
            return Err(LedgerError::NothingToClaim);
        }
        let reserve = match found {
            Some(i) => {
                let mut reserves: Vec<Reserve> = Vec::new();
                std::mem::swap(&mut reserves, &mut self.reserves);
                proof {
                    lemma_remove(reserves@, i as int);
                }
                let entry = reserves.remove(i);
                assert forall|j: int| 0 <= j < reserves@.len() implies (
                #[trigger] reserves@[j]).amount@ > 0 by {
                    assert(reserves@[j] == old(self).reserves@[if j < i {
                        j
                    } else {
                        j + 1
                    }]);
                }
                self.reserves = reserves;
                entry.amount
            },
            None => {
                assert(self@.reserves.remove(caller@) =~= self@.reserves);
                Amount::zero()
            },
        };
        let fees = if by_owner {
            let mut fees = Amount::zero();
            std::mem::swap(&mut fees, &mut self.collected_fees);
            Some(fees)
        } else {
            None
        };
        proof {
            lemma_entries_valid(self.reserves@);
        }
        Ok(Settlement { reserve, fees })
    }

    /// Closes a withdrawal once the runtime has reported on its payments.
    /// Where they were delivered nothing changes. Where they failed the call is
    /// aborted: what the settlement took out is put back, and the failure is
    /// returned.
    pub fn conclude_withdraw(
        &mut self,
        caller: &Address,
        settlement: &Settlement,
        delivery: Delivery,
    ) -> (r: Result<(), LedgerError>)
        ensures
            delivery == Delivery::Delivered ==> r is Ok && final(self)@ == old(self)@,
            delivery == Delivery::Failed ==> r == Err::<(), LedgerError>(
                LedgerError::TransferFailure,
            ) && final(self)@ == old(self)@.reinstated(
                caller@,
                settlement.reserve@,
                settlement.fees_paid(),
            ),
            final(self)@.valid(),
            final(self)@.total_held() == old(self)@.total_held() + if r is Ok {
                0
            } else {
                settlement.total_paid()
            },
    {
        proof {
            use_type_invariant(&*self);
            lemma_entries_valid(self.reserves@);
            lemma_entries_map(self.reserves@);
        }
        match delivery {
            Delivery::Delivered => {
                return Ok(());
            },
            Delivery::Failed => {},
        }
        let ghost before = self@;
        if !settlement.reserve.is_zero() {
            let mut reserves: Vec<Reserve> = Vec::new();
            std::mem::swap(&mut reserves, &mut self.reserves);
            credit(&mut reserves, caller, settlement.reserve.clone());
            self.reserves = reserves;
            proof {
                lemma_total_insert(
                    before.reserves,
                    caller@,
                    before.reserve_of(caller@) + settlement.reserve@,
                );
            }
        }
        match &settlement.fees {
            Some(fees) => {
                self.collected_fees = self.collected_fees.plus(fees);
            },
            None => {},
        }
        proof {
            lemma_entries_valid(self.reserves@);
        }
        Err(LedgerError::TransferFailure)
    }
}

} // verus!
