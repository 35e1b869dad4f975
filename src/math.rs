use cosmwasm_std::{Isqrt, Uint128};
use vstd::prelude::*;

verus! {

/// `a * num / den` over the integers, rounded down.
pub open spec fn mul_div_floor(a: int, num: int, den: int) -> int {
    a * num / den
}

/// `a * num / den` over the integers, rounded up.
pub open spec fn mul_div_ceil(a: int, num: int, den: int) -> int {
    (a * num + den - 1) / den
}

/// Relies on `cosmwasm_std::Uint128::checked_multiply_ratio`: the product is
/// taken in 256 bits and divided with the result rounded down; it fails when
/// the denominator is zero or the quotient does not fit in 128 bits.
#[verifier::external_body]
pub(crate) fn multiply_ratio_floor(a: u128, num: u128, den: u128) -> (r: Option<u128>)
    ensures
        r is Some <==> (den != 0 && mul_div_floor(a as int, num as int, den as int) <= u128::MAX),
        r is Some ==> r->0 == mul_div_floor(a as int, num as int, den as int),
{
    Uint128::new(a).checked_multiply_ratio(num, den).ok().map(|v| v.u128())
}

/// Relies on `cosmwasm_std::Uint128::checked_mul_ceil` with the fraction
/// `(num, den)`: the product is taken in 256 bits and divided with the result
/// rounded up; it fails when the denominator is zero or the result does not
/// fit in 128 bits.
#[verifier::external_body]
pub(crate) fn multiply_ratio_ceil(a: u128, num: u128, den: u128) -> (r: Option<u128>)
    ensures
        r is Some <==> (den != 0 && mul_div_ceil(a as int, num as int, den as int) <= u128::MAX),
        r is Some ==> r->0 == mul_div_ceil(a as int, num as int, den as int),
{
    Uint128::new(a).checked_mul_ceil((num, den)).ok().map(|v| v.u128())
}

/// Relies on `cosmwasm_std::Uint128::full_mul` and the `Isqrt` impl of
/// `cosmwasm_std::Uint256`: the integer square root of the exact 256-bit
/// product, which always fits back in 128 bits.
#[verifier::external_body]
pub(crate) fn sqrt_of_product(a: u128, b: u128) -> (r: u128)
    ensures
        r as int * r as int <= a as int * b as int,
        (a as int) * (b as int) < (r as int + 1) * (r as int + 1),
{
    Uint128::try_from(Uint128::new(a).full_mul(b).isqrt()).unwrap().u128()
}

/// `10` raised to `n`.
pub open spec fn pow10(n: nat) -> int
    decreases n,
{
    if n == 0 {
        1
    } else {
        10 * pow10((n - 1) as nat)
    }
}

/// `10^n`, or `None` when it does not fit in 128 bits.
pub fn checked_pow10(n: u8) -> (r: Option<u128>)
    ensures
        r is Some <==> pow10(n as nat) <= u128::MAX,
        r is Some ==> r->0 == pow10(n as nat),
{
    let mut acc: u128 = 1;
    let mut i: u8 = 0;
    while i < n
        invariant
            i <= n,
            acc == pow10(i as nat),
        decreases n - i,
    {
        if acc > u128::MAX / 10 {
            proof {
                lemma_pow10_grows(i as nat, n as nat);
            }
            return None;
        }
        acc = acc * 10;
        i = i + 1;
    }
    Some(acc)
}

/// Powers of ten grow with the exponent.
proof fn lemma_pow10_grows(m: nat, n: nat)
    requires
        m < n,
    ensures
        10 * pow10(m) <= pow10(n),
    decreases n - m,
{
    lemma_pow10_positive(m);
    if m + 1 < n {
        lemma_pow10_grows((m + 1) as nat, n);
        lemma_pow10_positive((m + 1) as nat);
    }
}

/// Powers of ten are positive.
proof fn lemma_pow10_positive(n: nat)
    ensures
        pow10(n) >= 1,
    decreases n,
{
    if n > 0 {
        lemma_pow10_positive((n - 1) as nat);
    }
}

} // verus!
