//! Currency amounts: natural numbers of any size.

use num_bigint::BigUint;
use vstd::prelude::*;

verus! {

/// The natural number that a sequence of bytes spells, most significant byte
/// first. The empty sequence spells zero, and leading zero bytes do not count.
pub open spec fn be_value(bytes: Seq<u8>) -> nat
    decreases bytes.len(),
{
    if bytes.len() == 0 {
        0
    } else {
        be_value(bytes.drop_last()) * 256 + bytes.last() as nat
    }
}

/// An amount of currency. It is held as big-endian bytes, and its view is the
/// number those bytes spell.
#[derive(Debug)]
pub struct Amount {
    bytes: Vec<u8>,
}

impl View for Amount {
    type V = nat;

    closed spec fn view(&self) -> nat {
        be_value(self.bytes@)
    }
}

/// Adds two numbers with `num_bigint::BigUint`'s `+`. Both arguments are read
/// with `BigUint::from_bytes_be` and the sum is written with
/// `BigUint::to_bytes_be`, so the bytes returned spell the sum of what the
/// arguments spell.
#[verifier::external_body]
fn be_sum(a: &Vec<u8>, b: &Vec<u8>) -> (r: Vec<u8>)
    ensures
        be_value(r@) == be_value(a@) + be_value(b@),
{
    (BigUint::from_bytes_be(a) + BigUint::from_bytes_be(b)).to_bytes_be()
}

/// Subtracts with `num_bigint::BigUint`'s `-`, which panics when the second
/// number is the larger one: callers must rule that out. The bytes returned
/// spell the difference of what the arguments spell.
#[verifier::external_body]
fn be_difference(a: &Vec<u8>, b: &Vec<u8>) -> (r: Vec<u8>)
    requires
        be_value(a@) >= be_value(b@),
    ensures
        be_value(r@) == be_value(a@) - be_value(b@),
{
    (BigUint::from_bytes_be(a) - BigUint::from_bytes_be(b)).to_bytes_be()
}

/// Compares with `num_bigint::BigUint`'s `>`: true exactly when the first
/// argument spells the larger number.
#[verifier::external_body]
fn be_exceeds(a: &Vec<u8>, b: &Vec<u8>) -> (r: bool)
    ensures
        r == (be_value(a@) > be_value(b@)),
{
    BigUint::from_bytes_be(a) > BigUint::from_bytes_be(b)
}

/// The first `n` bytes never spell more than the whole sequence does.
proof fn lemma_prefix_bound(bytes: Seq<u8>, n: int)
    requires
        0 <= n <= bytes.len(),
    ensures
        be_value(bytes.take(n)) <= be_value(bytes),
    decreases bytes.len(),
{
    if n == bytes.len() {
        assert(bytes.take(n) =~= bytes);
    } else {
        assert(bytes.drop_last().take(n) =~= bytes.take(n));
        lemma_prefix_bound(bytes.drop_last(), n);
    }
}

/// Appends the lowest base-256 digit of `q` to bytes that spell `q / 256`, so
/// that they spell `q`.
fn push_digit(bytes: &mut Vec<u8>, q: u64)
    requires
        be_value(old(bytes)@) == q / 256,
    ensures
        be_value(final(bytes)@) == q,
{
    let ghost before = bytes@;
    let digit: u64 = q % 256;
    bytes.push(digit as u8);
    proof {
        assert(bytes@.drop_last() =~= before);
        assert(bytes@.last() == digit);
    }
}

impl Amount {
    /// The amount zero.
    pub fn zero() -> (r: Amount)
        ensures
            r@ == 0,
    {
        Amount { bytes: Vec::new() }
    }

    /// The sum of two amounts.
    pub fn plus(&self, other: &Amount) -> (r: Amount)
        ensures
            r@ == self@ + other@,
    {
        Amount { bytes: be_sum(&self.bytes, &other.bytes) }
    }

    /// The difference of two amounts, where the second is not the larger one.
    pub fn checked_sub(&self, other: &Amount) -> (r: Option<Amount>)
        ensures
            r is Some <==> self@ >= other@,
            r matches Some(d) ==> d@ == self@ - other@,
    {
        if be_exceeds(&other.bytes, &self.bytes) {
            None
        } else {
            Some(Amount { bytes: be_difference(&self.bytes, &other.bytes) })
        }
    }

    /// Whether this amount is zero.
    pub fn is_zero(&self) -> (r: bool)
        ensures
            r == (self@ == 0),
    {
        let none: Vec<u8> = Vec::new();
        !be_exceeds(&self.bytes, &none)
    }

    /// The amount that the given big-endian bytes spell.
    pub fn from_bytes_be(bytes: Vec<u8>) -> (r: Amount)
        ensures
            r@ == be_value(bytes@),
    {
        Amount { bytes }
    }

    /// Big-endian bytes that spell this amount.
    pub fn to_bytes_be(&self) -> (r: Vec<u8>)
        ensures
            be_value(r@) == self@,
    {
        self.bytes.clone()
    }

    /// The amount equal to a machine integer.
    pub fn from_u64(value: u64) -> (r: Amount)
        ensures
            r@ == value,
    {
        let q1: u64 = value / 256;
        let q2: u64 = q1 / 256;
        let q3: u64 = q2 / 256;
        let q4: u64 = q3 / 256;
        let q5: u64 = q4 / 256;
        let q6: u64 = q5 / 256;
        let q7: u64 = q6 / 256;
        let mut bytes: Vec<u8> = Vec::new();
        push_digit(&mut bytes, q7);
        push_digit(&mut bytes, q6);
        push_digit(&mut bytes, q5);
        push_digit(&mut bytes, q4);
        push_digit(&mut bytes, q3);
        push_digit(&mut bytes, q2);
        push_digit(&mut bytes, q1);
        push_digit(&mut bytes, value);
        Amount { bytes }
    }

    /// This amount as a machine integer, where it fits in one.
    pub fn to_u64(&self) -> (r: Option<u64>)
        ensures
            r is Some <==> self@ <= u64::MAX,
            r matches Some(v) ==> v == self@,
    {
        let mut acc: u64 = 0;
        let mut i: usize = 0;
        while i < self.bytes.len()
            invariant
                i <= self.bytes@.len(),
                acc == be_value(self.bytes@.take(i as int)),
            decreases self.bytes@.len() - i,
        {
            let digit: u64 = self.bytes[i] as u64;
            proof {
                let next = self.bytes@.take(i + 1);
                assert(next.drop_last() =~= self.bytes@.take(i as int));
                assert(next.last() == digit);
                lemma_prefix_bound(self.bytes@, i + 1);
            }
            if acc > (u64::MAX - digit) / 256 {
                return None;
            }
            acc = acc * 256 + digit;
            i = i + 1;
        }
        proof {
            assert(self.bytes@.take(i as int) =~= self.bytes@);
        }
        Some(acc)
    }

    /// Whether this amount is strictly larger than the other.
    pub fn exceeds(&self, other: &Amount) -> (r: bool)
        ensures
            r == (self@ > other@),
    {
        be_exceeds(&self.bytes, &other.bytes)
    }
}

impl Clone for Amount {
    fn clone(&self) -> (r: Amount)
        ensures
            r@ == self@,
    {
        Amount { bytes: self.bytes.clone() }
    }
}

impl PartialEq for Amount {
    fn eq(&self, other: &Amount) -> (r: bool) {
        !be_exceeds(&self.bytes, &other.bytes) && !be_exceeds(&other.bytes, &self.bytes)
    }
}

impl Eq for Amount {

}

impl vstd::std_specs::cmp::PartialEqSpecImpl for Amount {
    open spec fn obeys_eq_spec() -> bool {
        true
    }

    open spec fn eq_spec(&self, other: &Amount) -> bool {
        self@ == other@
    }
}

} // verus!
