use num_bigint::BigInt;
use num_bigint::ToBigInt;
use vstd::prelude::*;

verus! {

/// An integer of any size, held as its two's complement bytes, most
/// significant byte first. Every byte string stands for a number; the empty
/// one stands for zero.
///
/// A number has more than one spelling: bytes that only repeat the sign may
/// stand in front. `==` compares the bytes, not the value, so two spellings
/// of one number are not `==`; the view is the value.
#[derive(Debug, PartialEq, Eq)]
pub struct Number {
    pub bytes: Vec<u8>,
}

/// The natural number that `digits` spell in base 256, most significant
/// digit first.
pub open spec fn unsigned_value(digits: Seq<u8>) -> nat
    decreases digits.len(),
{
    if digits.len() == 0 {
        0
    } else {
        256 * unsigned_value(digits.drop_last()) + digits.last() as nat
    }
}

/// 256 to the power `n`.
pub open spec fn radix_power(n: nat) -> nat
    decreases n,
{
    if n == 0 {
        1
    } else {
        256 * radix_power((n - 1) as nat)
    }
}

/// The integer that `digits` spell in two's complement, most significant
/// byte first: the top bit of the first byte is the sign.
pub open spec fn signed_value(digits: Seq<u8>) -> int {
    if digits.len() > 0 && digits[0] >= 128 {
        unsigned_value(digits) - radix_power(digits.len())
    } else {
        unsigned_value(digits) as int
    }
}

impl View for Number {
    type V = int;

    open spec fn view(&self) -> int {
        signed_value(self.bytes@)
    }
}

/// `num_bigint`'s `ToBigInt::to_bigint` on an `i32`, which always gives a
/// value, written out by `BigInt::to_signed_bytes_be`: the result is the
/// number `v`.
#[verifier::external_body]
pub(crate) fn bigint_from_i32(v: i32) -> (n: Number)
    ensures
        n@ == v,
{
    Number { bytes: v.to_bigint().unwrap().to_signed_bytes_be() }
}

/// `num_bigint`'s `+` on two `BigInt`s read by `BigInt::from_signed_bytes_be`
/// and written out by `BigInt::to_signed_bytes_be`: the result is the exact
/// sum.
#[verifier::external_body]
pub(crate) fn bigint_add(a: &Number, b: &Number) -> (n: Number)
    ensures
        n@ == a@ + b@,
{
    let sum = BigInt::from_signed_bytes_be(&a.bytes) + BigInt::from_signed_bytes_be(&b.bytes);
    Number { bytes: sum.to_signed_bytes_be() }
}

/// `num_bigint`'s `*` on two `BigInt`s read by `BigInt::from_signed_bytes_be`
/// and written out by `BigInt::to_signed_bytes_be`: the result is the exact
/// product.
#[verifier::external_body]
pub(crate) fn bigint_mul(a: &Number, b: &Number) -> (n: Number)
    ensures
        n@ == a@ * b@,
{
    let product = BigInt::from_signed_bytes_be(&a.bytes) * BigInt::from_signed_bytes_be(&b.bytes);
    Number { bytes: product.to_signed_bytes_be() }
}

/// The number one.
pub fn bi_one() -> (n: Number)
    ensures
        n@ == 1,
{
    bigint_from_i32(1)
}

} // verus!
