//! What holds of every ledger, proved over its view.

use crate::model::{lemma_total_insert, lemma_total_remove, Call, LedgerView};
use vstd::prelude::*;

verus! {

/// Every call keeps a valid ledger valid, and the ledger holds afterwards what
/// it held before, plus what the call brought in, minus what it paid out.
pub proof fn law_step_conserves(ledger: LedgerView, call: Call)
    requires
        ledger.valid(),
    ensures
        ledger.step(call).valid(),
        ledger.step(call).total_held() + ledger.paid_out(call) == ledger.total_held()
            + ledger.taken_in(call),
{
    match call {
        Call::SetFee { caller, fee } => {},
        Call::Deposit { receiver, payment } => {
            if ledger.accepts_deposit(payment) {
                lemma_total_insert(
                    ledger.reserves,
                    receiver,
                    (ledger.reserve_of(receiver) + payment - ledger.fee) as nat,
                );
            }
        },
        Call::Withdraw { caller } => {
            if ledger.allows_withdraw(caller) {
                lemma_total_remove(ledger.reserves, caller);
            }
        },
    }
}

/// Conservation: after any sequence of calls the collected fees and all the
/// reserves together are what the ledger held at the start, plus everything
/// deposited, minus everything withdrawn.
pub proof fn law_conservation(ledger: LedgerView, calls: Seq<Call>)
    requires
        ledger.valid(),
    ensures
        ledger.run(calls).valid(),
        ledger.run(calls).total_held() + ledger.withdrawn(calls) == ledger.total_held()
            + ledger.deposited(calls),
    decreases calls.len(),
{
    if calls.len() > 0 {
        law_step_conserves(ledger, calls.first());
        law_conservation(ledger.step(calls.first()), calls.drop_first());
    }
}

/// Conservation holds at every point of a sequence of calls: after each number
/// of its calls, from none to all of them.
pub proof fn law_conservation_throughout(ledger: LedgerView, calls: Seq<Call>)
    requires
        ledger.valid(),
    ensures
        forall|n: int|
            0 <= n <= calls.len() ==> (#[trigger] ledger.run(calls.take(n))).total_held()
                + ledger.withdrawn(calls.take(n)) == ledger.total_held() + ledger.deposited(
                calls.take(n),
            ),
{
    assert forall|n: int| 0 <= n <= calls.len() implies (#[trigger] ledger.run(
        calls.take(n),
    )).total_held() + ledger.withdrawn(calls.take(n)) == ledger.total_held() + ledger.deposited(
        calls.take(n),
    ) by {
        law_conservation(ledger, calls.take(n));
    }
}

/// A new ledger holds nothing, so after any sequence of calls it holds what
/// was deposited minus what was withdrawn.
pub proof fn law_conservation_from_creation(owner: Seq<u8>, fee: nat, calls: Seq<Call>)
    ensures
        LedgerView::created(owner, fee).run(calls).total_held() + LedgerView::created(
            owner,
            fee,
        ).withdrawn(calls) == LedgerView::created(owner, fee).deposited(calls),
{
    let ledger = LedgerView::created(owner, fee);
    assert(ledger.reserves.dom() =~= Set::<Seq<u8>>::empty());
    law_conservation(ledger, calls);
}

/// The smallest payment that is accepted is the fee plus one: it adds one to
/// what the receiver has reserved and the fee to the collected fees.
pub proof fn law_minimal_deposit(ledger: LedgerView, receiver: Seq<u8>)
    ensures
        !ledger.accepts_deposit(ledger.fee),
        ledger.accepts_deposit(ledger.fee + 1),
        ledger.after_deposit(receiver, ledger.fee + 1).reserve_of(receiver) == ledger.reserve_of(
            receiver,
        ) + 1,
        ledger.after_deposit(receiver, ledger.fee + 1).collected_fees == ledger.collected_fees
            + ledger.fee,
{
}

/// A deposit changes nothing for any account but the receiver.
pub proof fn law_deposit_leaves_others(
    ledger: LedgerView,
    receiver: Seq<u8>,
    payment: nat,
    other: Seq<u8>,
)
    requires
        other != receiver,
    ensures
        ledger.after_deposit(receiver, payment).reserve_of(other) == ledger.reserve_of(other),
{
}

/// Someone other than the owner who withdraws is paid the whole reserve and has
/// nothing reserved afterwards, so a second withdrawal with no deposit in
/// between is not allowed.
pub proof fn law_second_withdraw_rejected(ledger: LedgerView, caller: Seq<u8>)
    requires
        ledger.valid(),
        caller != ledger.owner,
        ledger.allows_withdraw(caller),
    ensures
        ledger.payout(caller) == ledger.reserve_of(caller),
        ledger.payout(caller) > 0,
        ledger.after_withdraw(caller).reserve_of(caller) == 0,
        !ledger.after_withdraw(caller).allows_withdraw(caller),
        ledger.after_withdraw(caller).collected_fees == ledger.collected_fees,
{
}

/// A withdrawal by the owner pays out the owner's own reserve and all the
/// collected fees, and leaves neither.
pub proof fn law_owner_settlement(ledger: LedgerView)
    ensures
        ledger.allows_withdraw(ledger.owner),
        ledger.payout(ledger.owner) == ledger.reserve_of(ledger.owner) + ledger.collected_fees,
        ledger.after_withdraw(ledger.owner).reserve_of(ledger.owner) == 0,
        ledger.after_withdraw(ledger.owner).collected_fees == 0,
{
}

/// A withdrawal changes nothing for any account but the caller.
pub proof fn law_withdraw_leaves_others(ledger: LedgerView, caller: Seq<u8>, other: Seq<u8>)
    requires
        other != caller,
    ensures
        ledger.after_withdraw(caller).reserve_of(other) == ledger.reserve_of(other),
{
}

/// Putting back what a withdrawal took out gives the ledger as it was before
/// the withdrawal.
pub proof fn law_abort_restores(ledger: LedgerView, caller: Seq<u8>)
    requires
        ledger.valid(),
    ensures
        ledger.after_withdraw(caller).reinstated(
            caller,
            ledger.reserve_of(caller),
            if caller == ledger.owner {
                ledger.collected_fees
            } else {
                0
            },
        ) == ledger,
{
    let after = ledger.after_withdraw(caller);
    let back = after.reinstated(
        caller,
        ledger.reserve_of(caller),
        if caller == ledger.owner {
            ledger.collected_fees
        } else {
            0
        },
    );
    assert(back.reserves =~= ledger.reserves);
}

/// Only the owner's call changes the fee, and it changes nothing else.
pub proof fn law_owner_sets_fee(ledger: LedgerView, caller: Seq<u8>, fee: nat)
    ensures
        caller != ledger.owner ==> ledger.step(Call::SetFee { caller, fee }) == ledger,
        caller == ledger.owner ==> ledger.step(Call::SetFee { caller, fee }) == (LedgerView {
            fee,
            ..ledger
        }),
{
}

} // verus!
