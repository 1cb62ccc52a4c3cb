use num_bigint::BigUint;
use rust_challenge::address::Address;
use rust_challenge::amount::Amount;
use rust_challenge::cli::{DeployArgs, DepositArgs, InteractCli, InteractCliCommand, WithdrawArgs};
use rust_challenge::error::LedgerError;

#[test]
fn zero_is_zero() {
    assert!(Amount::zero().is_zero());
    assert_eq!(Amount::zero().to_u64(), Some(0));
    assert_eq!(Amount::zero(), Amount::from_u64(0));
    assert!(!Amount::from_u64(1).is_zero());
}

#[test]
fn from_u64_spells_the_number() {
    assert_eq!(Amount::from_u64(0).to_u64(), Some(0));
    assert_eq!(Amount::from_u64(1).to_u64(), Some(1));
    assert_eq!(Amount::from_u64(255).to_u64(), Some(255));
    assert_eq!(Amount::from_u64(256).to_u64(), Some(256));
    assert_eq!(Amount::from_u64(1125).to_u64(), Some(1125));
    assert_eq!(Amount::from_u64(u64::MAX).to_u64(), Some(u64::MAX));
    assert_eq!(
        BigUint::from_bytes_be(&Amount::from_u64(0x0102_0304_0506_0708).to_bytes_be()),
        BigUint::from(0x0102_0304_0506_0708u64)
    );
}

#[test]
fn bytes_are_big_endian() {
    assert_eq!(Amount::from_bytes_be(vec![4, 101]).to_u64(), Some(1125));
    assert_eq!(Amount::from_bytes_be(vec![]).to_u64(), Some(0));
    assert_eq!(Amount::from_bytes_be(vec![0, 0, 7]).to_u64(), Some(7));
    assert_eq!(Amount::from_bytes_be(vec![0, 0, 7]), Amount::from_u64(7));
    assert_eq!(Amount::from_bytes_be(vec![1, 0]).to_u64(), Some(256));
}

#[test]
fn plus_adds() {
    let sum = Amount::from_u64(2).plus(&Amount::from_u64(3));
    assert_eq!(sum.to_u64(), Some(5));
    let same = Amount::from_u64(9).plus(&Amount::zero());
    assert_eq!(same.to_u64(), Some(9));
}

#[test]
fn plus_goes_beyond_machine_integers() {
    let max = Amount::from_u64(u64::MAX);
    let sum = max.plus(&Amount::from_u64(1));
    assert_eq!(sum.to_u64(), None);
    assert_eq!(sum.to_bytes_be(), vec![1, 0, 0, 0, 0, 0, 0, 0, 0]);
    assert!(sum.exceeds(&max));
    let back = sum.checked_sub(&Amount::from_u64(1)).unwrap();
    assert_eq!(back, max);
    assert_eq!(back.to_u64(), Some(u64::MAX));
}

#[test]
fn checked_sub_subtracts_or_refuses() {
    let five = Amount::from_u64(5);
    let three = Amount::from_u64(3);
    assert_eq!(five.checked_sub(&three).unwrap().to_u64(), Some(2));
    assert_eq!(five.checked_sub(&five).unwrap().to_u64(), Some(0));
    assert!(three.checked_sub(&five).is_none());
    assert!(Amount::zero().checked_sub(&Amount::from_u64(1)).is_none());
}

#[test]
fn exceeds_is_strict() {
    let five = Amount::from_u64(5);
    let three = Amount::from_u64(3);
    assert!(five.exceeds(&three));
    assert!(!three.exceeds(&five));
    assert!(!five.exceeds(&five));
    assert!(!Amount::zero().exceeds(&Amount::zero()));
    assert!(Amount::from_bytes_be(vec![1, 0]).exceeds(&Amount::from_bytes_be(vec![0, 255])));
}

#[test]
fn equality_goes_by_value() {
    assert_eq!(Amount::from_u64(5), Amount::from_bytes_be(vec![0, 5]));
    assert_ne!(Amount::from_u64(5), Amount::from_u64(6));
    let five = Amount::from_u64(5);
    assert_eq!(five.clone(), five);
}

#[test]
fn to_u64_refuses_what_does_not_fit() {
    let nine_bytes = Amount::from_bytes_be(vec![1, 0, 0, 0, 0, 0, 0, 0, 0]);
    assert_eq!(nine_bytes.to_u64(), None);
    let eight_bytes = Amount::from_bytes_be(vec![255; 8]);
    assert_eq!(eight_bytes.to_u64(), Some(u64::MAX));
    let padded = Amount::from_bytes_be(vec![0, 0, 0, 255, 255, 255, 255, 255, 255, 255, 255]);
    assert_eq!(padded.to_u64(), Some(u64::MAX));
}

#[test]
fn addresses_compare_by_bytes() {
    let mut bytes = [0u8; 32];
    bytes[31] = 1;
    let a = Address::new(bytes);
    let b = Address::new(bytes);
    let c = Address::new([0u8; 32]);
    assert!(a.same(&b));
    assert!(!a.same(&c));
    assert_eq!(a, b);
    assert_ne!(a, c);
    assert_eq!(a.to_bytes(), bytes);
}

#[test]
fn every_rejection_has_its_message() {
    assert_eq!(
        LedgerError::Unauthorized.message(),
        "Endpoint can only be called by owner"
    );
    assert_eq!(
        LedgerError::InsufficientPayment.message(),
        "Payments must be greater than fee"
    );
    assert_eq!(LedgerError::NothingToClaim.message(), "Nothing to claim");
    assert_eq!(LedgerError::TransferFailure.message(), "Transfer failed");
}

#[test]
fn command_defaults_are_empty() {
    assert_eq!(InteractCli::default(), InteractCli { command: None });
    assert_eq!(WithdrawArgs::default().sender, "");
    assert_eq!(DeployArgs::default().fee, 0);
    let deposit = DepositArgs::default();
    assert_eq!(deposit.sender, "");
    assert_eq!(deposit.receiver, "");
    assert_eq!(deposit.value, 0);
}

#[test]
fn command_amounts() {
    let deploy = DeployArgs { fee: 7 };
    assert_eq!(deploy.fee_amount().to_u64(), Some(7));
    assert_eq!(DeployArgs { fee: u32::MAX }.fee_amount().to_u64(), Some(u32::MAX as u64));
    let deposit = DepositArgs {
        sender: String::from("a"),
        receiver: String::from("b"),
        value: 8_000_000,
    };
    assert_eq!(deposit.payment().to_u64(), Some(8_000_000));
    let cli = InteractCli {
        command: Some(InteractCliCommand::Deposit(deposit.clone())),
    };
    assert_eq!(cli.command, Some(InteractCliCommand::Deposit(deposit)));
    assert_ne!(
        InteractCliCommand::Deploy(deploy.clone()),
        InteractCliCommand::SetFee(deploy)
    );
}
