use num_bigint::BigUint as RustBigUint;
use rust_challenge::address::Address;
use rust_challenge::amount::Amount;
use rust_challenge::error::LedgerError;
use rust_challenge::ledger::{Delivery, RustChallenge};

fn address(name: &str) -> Address {
    let mut bytes = [b'_'; 32];
    bytes[..name.len()].copy_from_slice(name.as_bytes());
    Address::new(bytes)
}

fn owner_address() -> Address {
    address("owner")
}

fn address1() -> Address {
    address("address1")
}

fn address2() -> Address {
    address("address2")
}

fn receiver_address() -> Address {
    address("receiver")
}

fn contract_address() -> Address {
    address("rust-challenge")
}

fn unmanaged(amount: &Amount) -> RustBigUint {
    RustBigUint::from_bytes_be(&amount.to_bytes_be())
}

/// A ledger together with the accounts around it: the runtime that takes the
/// payment of a deposit from the sender and pays a settlement to the caller.
struct RustChallengeTest {
    balances: Vec<(Address, u64)>,
    contract: Option<(Address, RustChallenge)>,
}

impl RustChallengeTest {
    fn new() -> Self {
        Self {
            balances: vec![
                (owner_address(), 4),
                (address1(), 5),
                (address2(), 6),
                (receiver_address(), 0),
            ],
            contract: None,
        }
    }

    fn ledger(&mut self) -> &mut RustChallenge {
        &mut self.contract.as_mut().expect("deployed").1
    }

    fn balance(&mut self, address: Address) -> &mut u64 {
        let entry = self.balances.iter_mut().find(|entry| entry.0 == address);
        &mut entry.expect("known account").1
    }

    fn deploy(&mut self, fee: u32) -> Address {
        let ledger = RustChallenge::init(owner_address(), Amount::from_u64(fee as u64));
        self.contract = Some((contract_address(), ledger));
        contract_address()
    }

    fn try_deposit(
        &mut self,
        sender: Address,
        receiver: Address,
        value: u64,
    ) -> Result<(), LedgerError> {
        assert!(*self.balance(sender) >= value);
        let payment = Amount::from_u64(value);
        self.ledger().deposit(&sender, &receiver, &payment)?;
        *self.balance(sender) -= value;
        Ok(())
    }

    fn deposit_fail_required(&mut self, from_address: Address, wrong_deposit: u64) {
        let error = self
            .try_deposit(from_address, receiver_address(), wrong_deposit)
            .unwrap_err();
        assert_eq!(error.message(), "Payments must be greater than fee");
    }

    fn deposit(&mut self, sender: Address, receiver: Address, value: u64) {
        self.try_deposit(sender, receiver, value).unwrap();
    }

    fn try_withdraw(&mut self, sender: Address) -> Result<(), LedgerError> {
        let settlement = self.ledger().withdraw(&sender)?;
        let paid = settlement.total().to_u64().expect("fits");
        *self.balance(sender) += paid;
        self.ledger()
            .conclude_withdraw(&sender, &settlement, Delivery::Delivered)
    }

    fn withdraw(&mut self, sender: Address) {
        self.try_withdraw(sender).unwrap();
    }

    fn set_fee(&mut self, sender: Address, fee: u32) -> Result<(), LedgerError> {
        self.ledger().set_fee(&sender, Amount::from_u64(fee as u64))
    }

    fn query_collected_fees(&mut self) -> RustBigUint {
        unmanaged(&self.ledger().get_collected_fees())
    }

    fn query_reserve_for_address(&mut self, address: Address) -> RustBigUint {
        unmanaged(&self.ledger().get_reserve_for_address(&address))
    }

    fn check_account(&mut self, address: Address, balance: u64) {
        assert_eq!(*self.balance(address), balance);
    }
}

#[test]
fn test_deploy() {
    let mut state = RustChallengeTest::new();
    let address = state.deploy(1u32);
    assert_eq!(address, contract_address());
    assert_eq!(state.ledger().owner(), owner_address());
    assert_eq!(unmanaged(&state.ledger().get_fee()), RustBigUint::from(1u32));
    assert_eq!(RustBigUint::ZERO, state.query_collected_fees());
}

#[test]
fn test_deposit_fail() {
    let mut state = RustChallengeTest::new();
    state.deploy(1u32);

    state.deposit_fail_required(address1(), 0u64);
    state.check_account(address1(), 5);
    assert_eq!(RustBigUint::ZERO, state.query_collected_fees());
    assert_eq!(
        RustBigUint::ZERO,
        state.query_reserve_for_address(receiver_address())
    );
}

#[test]
fn test_deposit() {
    let mut state = RustChallengeTest::new();
    state.deploy(1u32);

    state.deposit(address1(), receiver_address(), 3);
    state.deposit(address2(), receiver_address(), 4);
    state.deposit(owner_address(), address1(), 2);

    assert_eq!(RustBigUint::from(3u32), state.query_collected_fees());
    assert_eq!(
        RustBigUint::from(5u32),
        state.query_reserve_for_address(receiver_address())
    );
    assert_eq!(
        RustBigUint::from(1u32),
        state.query_reserve_for_address(address1())
    );
    assert_eq!(RustBigUint::ZERO, state.query_reserve_for_address(address2()));
    state.check_account(owner_address(), 2);
    state.check_account(address1(), 2);
    state.check_account(address2(), 2);
    state.check_account(receiver_address(), 0);
}

#[test]
fn test_withdraw_address1() {
    let mut state = RustChallengeTest::new();
    state.deploy(1u32);

    state.deposit(address1(), receiver_address(), 3);
    state.deposit(address2(), receiver_address(), 4);
    state.deposit(owner_address(), address1(), 2);

    state.check_account(address1(), 2);
    assert_eq!(
        RustBigUint::from(1u32),
        state.query_reserve_for_address(address1())
    );
    state.withdraw(address1());
    state.check_account(address1(), 3);
    assert_eq!(RustBigUint::from(3u32), state.query_collected_fees());
    assert_eq!(RustBigUint::ZERO, state.query_reserve_for_address(address1()));
}

#[test]
fn test_withdraw_address2() {
    let mut state = RustChallengeTest::new();
    state.deploy(1u32);

    state.deposit(address1(), receiver_address(), 3);
    state.deposit(address2(), receiver_address(), 4);
    state.deposit(owner_address(), address1(), 2);

    state.check_account(address2(), 2);
    assert_eq!(
        RustBigUint::from(1u32),
        state.query_reserve_for_address(address1())
    );
    let error = state.try_withdraw(address2()).unwrap_err();
    assert_eq!(error, LedgerError::NothingToClaim);
    assert_eq!(error.message(), "Nothing to claim");
    state.check_account(address2(), 2);
    assert_eq!(RustBigUint::ZERO, state.query_reserve_for_address(address2()));
    assert_eq!(RustBigUint::from(3u32), state.query_collected_fees());
}

#[test]
fn test_withdraw_receiver() {
    let mut state = RustChallengeTest::new();
    state.deploy(1u32);

    state.deposit(address1(), receiver_address(), 3);
    state.deposit(address2(), receiver_address(), 4);
    state.deposit(owner_address(), address1(), 2);

    state.check_account(receiver_address(), 0);
    assert_eq!(
        RustBigUint::from(5u32),
        state.query_reserve_for_address(receiver_address())
    );
    state.withdraw(receiver_address());
    state.check_account(receiver_address(), 5);
    assert_eq!(RustBigUint::ZERO, state.query_reserve_for_address(address2()));
    assert_eq!(RustBigUint::from(3u32), state.query_collected_fees());
}

#[test]
fn test_withdraw_owner() {
    let mut state = RustChallengeTest::new();
    state.deploy(1u32);

    state.deposit(address1(), receiver_address(), 3);
    state.deposit(address2(), receiver_address(), 4);
    state.deposit(owner_address(), address1(), 2);

    state.check_account(owner_address(), 2);
    assert_eq!(
        RustBigUint::ZERO,
        state.query_reserve_for_address(owner_address())
    );
    state.withdraw(owner_address());
    state.check_account(owner_address(), 5);
    assert_eq!(RustBigUint::ZERO, state.query_reserve_for_address(address2()));
    assert_eq!(RustBigUint::ZERO, state.query_collected_fees());
}

#[test]
fn test_fail_set_fee() {
    let mut state = RustChallengeTest::new();
    state.deploy(1u32);
    let error = state.set_fee(address1(), 2u32).unwrap_err();
    assert_eq!(error, LedgerError::Unauthorized);
    assert_eq!(error.message(), "Endpoint can only be called by owner");
    assert_eq!(unmanaged(&state.ledger().get_fee()), RustBigUint::from(1u32));
}

#[test]
fn test_set_fee() {
    let mut state = RustChallengeTest::new();
    state.deploy(1u32);

    state.deposit(address1(), receiver_address(), 3);

    state.set_fee(owner_address(), 2u32).unwrap();

    state.deposit(address2(), receiver_address(), 4);
    state.deposit(owner_address(), address1(), 3);

    assert_eq!(RustBigUint::from(5u32), state.query_collected_fees());
    assert_eq!(
        RustBigUint::from(4u32),
        state.query_reserve_for_address(receiver_address())
    );
    assert_eq!(
        RustBigUint::from(1u32),
        state.query_reserve_for_address(address1())
    );
    assert_eq!(RustBigUint::ZERO, state.query_reserve_for_address(address2()));
    state.check_account(owner_address(), 1);
    state.check_account(address1(), 2);
    state.check_account(address2(), 2);
    state.check_account(receiver_address(), 0);
}
