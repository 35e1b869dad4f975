use vstd::prelude::*;

use crate::error::ContractError;
use crate::math::{
    mul_div_ceil, multiply_ratio_ceil, multiply_ratio_floor, sqrt_of_product,
};

verus! {

/// Share of the pre-fee return that the pool keeps: three parts in a thousand.
pub const COMMISSION_NUMERATOR: u128 = 3;

pub const COMMISSION_DENOMINATOR: u128 = 1000;

/// What the pool pays out for `offer_amount` before its fee: the constant
/// product curve, rounded down.
pub open spec fn return_before_fee(offer_pool: int, ask_pool: int, offer_amount: int) -> int {
    ask_pool * offer_amount / (offer_pool + offer_amount)
}

/// The fee taken from a pre-fee return: three tenths of a percent rounded
/// down, plus one unit, so that it is never rounded away.
pub open spec fn commission_of(before_fee: int) -> int {
    before_fee * 3 / 1000 + 1
}

/// What the trader would get at the current exchange rate, less what the
/// curve gives; never negative.
pub open spec fn spread_of(offer_pool: int, ask_pool: int, offer_amount: int, before_fee: int) -> int {
    let at_rate = offer_amount * ask_pool / offer_pool;
    if at_rate >= before_fee {
        at_rate - before_fee
    } else {
        0
    }
}

/// The inputs on which a swap can be priced.
pub open spec fn swap_priceable(offer_pool: int, ask_pool: int, offer_amount: int) -> bool {
    &&& offer_pool > 0
    &&& offer_pool + offer_amount <= u128::MAX
    &&& offer_amount * ask_pool / offer_pool <= u128::MAX
    &&& return_before_fee(offer_pool, ask_pool, offer_amount) > 0
}

/// The error that pricing a swap ends in, on inputs where it cannot be priced.
pub open spec fn swap_error(offer_pool: int, ask_pool: int, offer_amount: int) -> ContractError {
    if offer_pool == 0 {
        ContractError::DivideByZero
    } else {
        ContractError::Overflow
    }
}

/// What a trader receives for `offer_amount`, after the fee.
pub open spec fn swap_return(offer_pool: int, ask_pool: int, offer_amount: int) -> int {
    let before_fee = return_before_fee(offer_pool, ask_pool, offer_amount);
    before_fee - commission_of(before_fee)
}

proof fn lemma_before_fee_bounded(offer_pool: int, ask_pool: int, offer_amount: int)
    requires
        0 <= offer_pool,
        0 <= ask_pool,
        0 <= offer_amount,
        offer_pool + offer_amount > 0,
    ensures
        0 <= return_before_fee(offer_pool, ask_pool, offer_amount) <= ask_pool,
{
    let d = offer_pool + offer_amount;
    assert(ask_pool * offer_amount <= ask_pool * d) by (nonlinear_arith)
        requires
            0 <= ask_pool,
            offer_amount <= d,
    ;
    assert(ask_pool * offer_amount >= 0) by (nonlinear_arith)
        requires
            0 <= ask_pool,
            0 <= offer_amount,
    ;
    vstd::arithmetic::div_mod::lemma_div_is_ordered(ask_pool * offer_amount, ask_pool * d, d);
    vstd::arithmetic::div_mod::lemma_div_multiples_vanish(ask_pool, d);
    vstd::arithmetic::div_mod::lemma_div_pos_is_pos(ask_pool * offer_amount, d);
}

proof fn lemma_commission_fits(before_fee: int)
    requires
        before_fee >= 1,
    ensures
        1 <= commission_of(before_fee) <= before_fee,
{
    assert(before_fee * 3 / 1000 <= before_fee - 1) by (nonlinear_arith)
        requires
            before_fee >= 1,
    ;
    assert(before_fee * 3 / 1000 >= 0) by (nonlinear_arith)
        requires
            before_fee >= 1,
    ;
}

/// Prices a swap of `offer_amount` against reserves `offer_pool` and
/// `ask_pool` (which do not yet include the offer): the amount returned to
/// the trader, the spread and the commission.
pub fn compute_swap(offer_pool: u128, ask_pool: u128, offer_amount: u128) -> (r: Result<
    (u128, u128, u128),
    ContractError,
>)
    ensures
        r is Ok <==> swap_priceable(offer_pool as int, ask_pool as int, offer_amount as int),
        r is Ok ==> ({
            let before_fee = return_before_fee(
                offer_pool as int,
                ask_pool as int,
                offer_amount as int,
            );
            let (return_amount, spread_amount, commission_amount) = r->Ok_0;
            &&& commission_amount == commission_of(before_fee)
            &&& return_amount == before_fee - commission_of(before_fee)
            &&& spread_amount == spread_of(
                offer_pool as int,
                ask_pool as int,
                offer_amount as int,
                before_fee,
            )
        }),
        r is Err ==> r->Err_0 == swap_error(offer_pool as int, ask_pool as int, offer_amount as int),
{
    if offer_pool == 0 {
        return Err(ContractError::DivideByZero);
    }
    if offer_amount > u128::MAX - offer_pool {
        return Err(ContractError::Overflow);
    }
    let total = offer_pool + offer_amount;
    proof {
        lemma_before_fee_bounded(offer_pool as int, ask_pool as int, offer_amount as int);
    }
    let before_fee = match multiply_ratio_floor(ask_pool, offer_amount, total) {
        Some(v) => v,
        None => return Err(ContractError::Overflow),
    };
    let at_rate = match multiply_ratio_floor(offer_amount, ask_pool, offer_pool) {
        Some(v) => v,
        None => return Err(ContractError::Overflow),
    };
    if before_fee == 0 {
        return Err(ContractError::Overflow);
    }
    proof {
        lemma_commission_fits(before_fee as int);
    }
    let commission = match multiply_ratio_floor(before_fee, COMMISSION_NUMERATOR, COMMISSION_DENOMINATOR) {
        Some(v) => v + 1,
        None => return Err(ContractError::Overflow),
    };
    let spread = if at_rate >= before_fee {
        at_rate - before_fee
    } else {
        0
    };
    Ok((before_fee - commission, spread, commission))
}

/// The least pre-fee return whose after-fee return reaches `ask_amount`.
pub open spec fn before_fee_for(ask_amount: int) -> int {
    ask_amount * 1000 / 997 + 1
}

/// The inputs on which a swap can be priced backwards from the amount asked.
pub open spec fn reverse_priceable(offer_pool: int, ask_pool: int, ask_amount: int) -> bool {
    let before_fee = before_fee_for(ask_amount);
    &&& offer_pool > 0
    &&& before_fee <= u128::MAX
    &&& ask_pool > before_fee
    &&& mul_div_ceil(before_fee, offer_pool, ask_pool - before_fee) <= u128::MAX
    &&& mul_div_ceil(before_fee, offer_pool, ask_pool - before_fee) * ask_pool / offer_pool
        <= u128::MAX
}

/// The offer that the curve asks for a pre-fee return of `before_fee`,
/// rounded up.
pub open spec fn offer_for(offer_pool: int, ask_pool: int, before_fee: int) -> int {
    mul_div_ceil(before_fee, offer_pool, ask_pool - before_fee)
}

/// The offer of [`offer_for`] is the curve's form: the reserve that keeps the
/// product with `ask_pool - before_fee` left, rounded up, less what is there.
pub proof fn lemma_offer_for_is_curve(offer_pool: int, ask_pool: int, before_fee: int)
    requires
        offer_pool >= 0,
        0 <= before_fee < ask_pool,
    ensures
        offer_for(offer_pool, ask_pool, before_fee) == mul_div_ceil(
            offer_pool,
            ask_pool,
            ask_pool - before_fee,
        ) - offer_pool,
{
    let g = ask_pool - before_fee;
    assert(offer_pool * ask_pool + g - 1 == (before_fee * offer_pool + g - 1) + offer_pool * g)
        by (nonlinear_arith)
        requires
            g == ask_pool - before_fee,
    ;
    vstd::arithmetic::div_mod::lemma_hoist_over_denominator(
        before_fee * offer_pool + g - 1,
        offer_pool,
        g as nat,
    );
}

/// Prices a swap backwards: the offer needed for the trader to receive
/// `ask_amount`, with the spread and the commission of that trade.
pub fn compute_offer_amount(offer_pool: u128, ask_pool: u128, ask_amount: u128) -> (r: Result<
    (u128, u128, u128),
    ContractError,
>)
    ensures
        r is Ok <==> reverse_priceable(offer_pool as int, ask_pool as int, ask_amount as int),
        r is Ok ==> ({
            let before_fee = before_fee_for(ask_amount as int);
            let offer = offer_for(offer_pool as int, ask_pool as int, before_fee);
            let (offer_amount, spread_amount, commission_amount) = r->Ok_0;
            &&& offer_amount == offer
            &&& commission_amount == commission_of(before_fee)
            &&& spread_amount == spread_of(offer_pool as int, ask_pool as int, offer, before_fee)
        }),
        r is Err ==> r->Err_0 == swap_error(offer_pool as int, ask_pool as int, ask_amount as int),
{
    if offer_pool == 0 {
        return Err(ContractError::DivideByZero);
    }
    let scaled = match multiply_ratio_floor(ask_amount, 1000, 997) {
        Some(v) => v,
        None => return Err(ContractError::Overflow),
    };
    if scaled == u128::MAX {
        return Err(ContractError::Overflow);
    }
    let before_fee = scaled + 1;
    if ask_pool <= before_fee {
        return Err(ContractError::Overflow);
    }
    let offer_amount = match multiply_ratio_ceil(before_fee, offer_pool, ask_pool - before_fee) {
        Some(v) => v,
        None => return Err(ContractError::Overflow),
    };
    let at_rate = match multiply_ratio_floor(offer_amount, ask_pool, offer_pool) {
        Some(v) => v,
        None => return Err(ContractError::Overflow),
    };
    proof {
        lemma_commission_fits(before_fee as int);
    }
    let commission = match multiply_ratio_floor(before_fee, COMMISSION_NUMERATOR, COMMISSION_DENOMINATOR) {
        Some(v) => v + 1,
        None => return Err(ContractError::Overflow),
    };
    let spread = if at_rate >= before_fee {
        at_rate - before_fee
    } else {
        0
    };
    Ok((offer_amount, spread, commission))
}

/// Rounding down lands within one denominator below the exact quotient.
proof fn lemma_div_bounds(x: int, d: int)
    requires
        d > 0,
    ensures
        d * (x / d) <= x < d * (x / d) + d,
{
    vstd::arithmetic::div_mod::lemma_fundamental_div_mod(x, d);
    vstd::arithmetic::div_mod::lemma_mod_bound(x, d);
}

/// `root` is the integer square root of `n`.
pub open spec fn is_isqrt(root: int, n: int) -> bool {
    root >= 0 && root * root <= n < (root + 1) * (root + 1)
}

/// Share minted for `deposit` of one asset against its reserve `pool`, when
/// `total_share` units exist.
pub open spec fn share_for(deposit: int, pool: int, total_share: int) -> int {
    deposit * total_share / pool
}

/// The least of the two per-asset shares.
pub open spec fn min_share(deposits: [u128; 2], pools: [u128; 2], total_share: int) -> int {
    let c0 = share_for(deposits[0] as int, pools[0] as int, total_share);
    let c1 = share_for(deposits[1] as int, pools[1] as int, total_share);
    if c0 <= c1 {
        c0
    } else {
        c1
    }
}

/// What is handed back of asset `i` when `share` is minted: on the side whose
/// own share is larger, the declared amount less what the minted share needs.
pub open spec fn provide_refund(
    deposits: [u128; 2],
    pools: [u128; 2],
    total_share: int,
    share: int,
    i: int,
) -> int {
    if total_share == 0 || share_for(deposits[i] as int, pools[i] as int, total_share) <= share {
        0
    } else {
        deposits[i] - pools[i] * share / total_share
    }
}

/// The inputs on which a deposit can be accounted.
pub open spec fn provide_ok(deposits: [u128; 2], pools: [u128; 2], total_share: int) -> bool {
    &&& deposits[0] > 0
    &&& deposits[1] > 0
    &&& total_share > 0 ==> {
        &&& pools[0] > 0
        &&& pools[1] > 0
        &&& share_for(deposits[0] as int, pools[0] as int, total_share) <= u128::MAX
        &&& share_for(deposits[1] as int, pools[1] as int, total_share) <= u128::MAX
    }
}

/// The error that accounting a deposit ends in, where it cannot be done.
pub open spec fn provide_error(deposits: [u128; 2], pools: [u128; 2], total_share: int) -> ContractError {
    if deposits[0] == 0 || deposits[1] == 0 {
        ContractError::InvalidZeroAmount
    } else if pools[0] == 0 || pools[1] == 0 {
        ContractError::DivideByZero
    } else {
        ContractError::Overflow
    }
}

/// The accounting of one deposit of liquidity.
#[derive(Debug, Clone, Copy, PartialEq, Eq)]
pub struct ProvideAmounts {
    /// Share units minted to the receiver.
    pub share: u128,
    /// Surplus handed back of each asset, by position.
    pub refunds: [u128; 2],
}

/// Deposits past the minted share need nothing beyond what was declared.
proof fn lemma_needed_within_deposit(deposit: int, pool: int, total_share: int, share: int)
    requires
        deposit >= 0,
        pool > 0,
        total_share > 0,
        0 <= share <= share_for(deposit, pool, total_share),
    ensures
        0 <= pool * share / total_share <= deposit,
{
    lemma_div_bounds(deposit * total_share, pool);
    let c = share_for(deposit, pool, total_share);
    assert(pool * share <= deposit * total_share) by (nonlinear_arith)
        requires
            pool * c <= deposit * total_share,
            share <= c,
            pool > 0,
            share >= 0,
    ;
    assert(deposit * total_share == total_share * deposit) by (nonlinear_arith);
    vstd::arithmetic::div_mod::lemma_multiply_divide_le(pool * share, total_share, deposit);
    assert(pool * share >= 0) by (nonlinear_arith)
        requires
            pool > 0,
            share >= 0,
    ;
    vstd::arithmetic::div_mod::lemma_div_pos_is_pos(pool * share, total_share);
}

/// Share owed for a deposit of `deposits` against reserves `pools` (taken
/// before the deposit), when `total_share` share units exist; and the surplus
/// that goes back to the depositor.
pub fn compute_provide(deposits: [u128; 2], pools: [u128; 2], total_share: u128) -> (r: Result<
    ProvideAmounts,
    ContractError,
>)
    ensures
        r is Ok <==> provide_ok(deposits, pools, total_share as int),
        r is Ok && total_share == 0 ==> {
            &&& is_isqrt(r->Ok_0.share as int, deposits[0] as int * deposits[1] as int)
            &&& r->Ok_0.refunds[0] == 0
            &&& r->Ok_0.refunds[1] == 0
        },
        r is Ok && total_share > 0 ==> {
            &&& r->Ok_0.share == min_share(deposits, pools, total_share as int)
            &&& r->Ok_0.refunds[0] == provide_refund(
                deposits,
                pools,
                total_share as int,
                r->Ok_0.share as int,
                0,
            )
            &&& r->Ok_0.refunds[1] == provide_refund(
                deposits,
                pools,
                total_share as int,
                r->Ok_0.share as int,
                1,
            )
        },
        r is Err ==> r->Err_0 == provide_error(deposits, pools, total_share as int),
{
    if deposits[0] == 0 || deposits[1] == 0 {
        return Err(ContractError::InvalidZeroAmount);
    }
    if total_share == 0 {
        let share = sqrt_of_product(deposits[0], deposits[1]);
        return Ok(ProvideAmounts { share, refunds: [0, 0] });
    }
    if pools[0] == 0 || pools[1] == 0 {
        return Err(ContractError::DivideByZero);
    }
    let c0 = match multiply_ratio_floor(deposits[0], total_share, pools[0]) {
        Some(v) => v,
        None => return Err(ContractError::Overflow),
    };
    let c1 = match multiply_ratio_floor(deposits[1], total_share, pools[1]) {
        Some(v) => v,
        None => return Err(ContractError::Overflow),
    };
    let share = if c0 <= c1 {
        c0
    } else {
        c1
    };
    let mut refunds: [u128; 2] = [0, 0];
    if c0 > share {
        proof {
            lemma_needed_within_deposit(deposits[0] as int, pools[0] as int, total_share as int, share as int);
        }
        let needed = match multiply_ratio_floor(pools[0], share, total_share) {
            Some(v) => v,
            None => return Err(ContractError::Overflow),
        };
        refunds = [deposits[0] - needed, 0];
    } else if c1 > share {
        proof {
            lemma_needed_within_deposit(deposits[1] as int, pools[1] as int, total_share as int, share as int);
        }
        let needed = match multiply_ratio_floor(pools[1], share, total_share) {
            Some(v) => v,
            None => return Err(ContractError::Overflow),
        };
        refunds = [0, deposits[1] - needed];
    }
    Ok(ProvideAmounts { share, refunds })
}

/// The inputs on which a withdrawal can be accounted.
pub open spec fn withdraw_ok(pools: [u128; 2], total_share: int, burn_amount: int) -> bool {
    &&& total_share > 0
    &&& pools[0] * burn_amount / total_share <= u128::MAX
    &&& pools[1] * burn_amount / total_share <= u128::MAX
}

/// What burning `burn_amount` of `total_share` share units gives back of
/// each reserve in `pools`: a proportional part, rounded down.
pub fn compute_withdraw(pools: [u128; 2], total_share: u128, burn_amount: u128) -> (r: Result<
    [u128; 2],
    ContractError,
>)
    ensures
        r is Ok <==> withdraw_ok(pools, total_share as int, burn_amount as int),
        r is Ok ==> {
            &&& r->Ok_0[0] == pools[0] * burn_amount / total_share as int
            &&& r->Ok_0[1] == pools[1] * burn_amount / total_share as int
        },
        r is Err ==> r->Err_0 == (if total_share == 0 {
            ContractError::DivideByZero
        } else {
            ContractError::Overflow
        }),
{
    if total_share == 0 {
        return Err(ContractError::DivideByZero);
    }
    let a = match multiply_ratio_floor(pools[0], burn_amount, total_share) {
        Some(v) => v,
        None => return Err(ContractError::Overflow),
    };
    let b = match multiply_ratio_floor(pools[1], burn_amount, total_share) {
        Some(v) => v,
        None => return Err(ContractError::Overflow),
    };
    Ok([a, b])
}

/// A fraction rounded down is at most any larger fraction rounded down.
proof fn lemma_floor_fraction_ordered(a: int, b: int, c: int, d: int)
    requires
        a >= 0,
        b > 0,
        d > 0,
        a * d <= c * b,
    ensures
        a / b <= c / d,
{
    lemma_div_bounds(a, b);
    lemma_div_bounds(c, d);
    let q = a / b;
    assert(q * d <= c) by (nonlinear_arith)
        requires
            b * q <= a,
            a * d <= c * b,
            b > 0,
            d > 0,
    ;
    vstd::arithmetic::div_mod::lemma_div_pos_is_pos(a, b);
    if q > c / d {
        assert(q * d >= (c / d + 1) * d) by (nonlinear_arith)
            requires
                q >= c / d + 1,
                d > 0,
        ;
        assert((c / d + 1) * d == d * (c / d) + d) by (nonlinear_arith);
        assert(false);
    }
}

/// What remains after the fee never shrinks as the pre-fee return grows.
proof fn lemma_after_fee_monotonic(x: int, y: int)
    requires
        0 <= x <= y,
    ensures
        x - commission_of(x) <= y - commission_of(y),
{
    lemma_div_bounds(x * 3, 1000);
    lemma_div_bounds(y * 3, 1000);
}

/// The pre-fee return never shrinks as the offer grows.
proof fn lemma_before_fee_monotonic(offer_pool: int, ask_pool: int, o1: int, o2: int)
    requires
        offer_pool > 0,
        ask_pool >= 0,
        0 <= o1 <= o2,
    ensures
        return_before_fee(offer_pool, ask_pool, o1) <= return_before_fee(offer_pool, ask_pool, o2),
{
    assert((ask_pool * o1) * (offer_pool + o2) <= (ask_pool * o2) * (offer_pool + o1))
        by (nonlinear_arith)
        requires
            offer_pool > 0,
            ask_pool >= 0,
            0 <= o1 <= o2,
    ;
    assert(ask_pool * o1 >= 0) by (nonlinear_arith)
        requires
            ask_pool >= 0,
            o1 >= 0,
    ;
    lemma_floor_fraction_ordered(ask_pool * o1, offer_pool + o1, ask_pool * o2, offer_pool + o2);
}

/// For fixed reserves, offering more never returns less: the amount
/// returned, after the fee, grows with the offer (weakly, because of
/// rounding).
pub proof fn lemma_swap_return_monotonic(offer_pool: int, ask_pool: int, o1: int, o2: int)
    requires
        offer_pool > 0,
        ask_pool >= 0,
        0 <= o1 <= o2,
    ensures
        return_before_fee(offer_pool, ask_pool, o1) <= return_before_fee(offer_pool, ask_pool, o2),
        swap_return(offer_pool, ask_pool, o1) <= swap_return(offer_pool, ask_pool, o2),
{
    lemma_before_fee_monotonic(offer_pool, ask_pool, o1, o2);
    lemma_before_fee_bounded(offer_pool, ask_pool, o1);
    lemma_after_fee_monotonic(
        return_before_fee(offer_pool, ask_pool, o1),
        return_before_fee(offer_pool, ask_pool, o2),
    );
}

/// The least pre-fee return for an amount already reached by `before_fee`
/// is no larger than `before_fee`.
proof fn lemma_before_fee_for_at_most(before_fee: int)
    requires
        before_fee >= 1,
    ensures
        before_fee - commission_of(before_fee) >= 0,
        1 <= before_fee_for(before_fee - commission_of(before_fee)) <= before_fee,
{
    lemma_commission_fits(before_fee);
    let r = before_fee - commission_of(before_fee);
    lemma_div_bounds(before_fee * 3, 1000);
    lemma_div_bounds(r * 1000, 997);
    vstd::arithmetic::div_mod::lemma_div_pos_is_pos(r * 1000, 997);
}

/// A pre-fee return of `before_fee_for(r)` leaves at least `r` after the fee.
proof fn lemma_before_fee_for_reaches(r: int)
    requires
        r >= 0,
    ensures
        before_fee_for(r) - commission_of(before_fee_for(r)) >= r,
{
    let b = before_fee_for(r);
    lemma_div_bounds(r * 1000, 997);
    lemma_div_bounds(b * 3, 1000);
}

/// The pre-fee return reaches `b` exactly when the offer covers
/// `b * offer_pool / (ask_pool - b)`.
proof fn lemma_offer_covers(offer_pool: int, ask_pool: int, offer: int, b: int)
    requires
        offer_pool > 0,
        0 <= b < ask_pool,
        offer >= 0,
        offer * (ask_pool - b) >= b * offer_pool,
    ensures
        return_before_fee(offer_pool, ask_pool, offer) >= b,
{
    assert(ask_pool * offer >= b * (offer_pool + offer)) by (nonlinear_arith)
        requires
            offer * (ask_pool - b) >= b * offer_pool,
    ;
    vstd::arithmetic::div_mod::lemma_div_multiples_vanish(b, offer_pool + offer);
    assert(b * (offer_pool + offer) == (offer_pool + offer) * b) by (nonlinear_arith);
    vstd::arithmetic::div_mod::lemma_div_is_ordered(b * (offer_pool + offer), ask_pool * offer, offer_pool + offer);
}

/// Pricing backwards undoes pricing forwards, up to rounding: asked for what
/// an offer returns, the reverse pricing can be done, and names an offer no
/// larger than the original that still returns at least as much.
pub proof fn lemma_reverse_inverts_forward(offer_pool: int, ask_pool: int, offer_amount: int)
    requires
        0 <= offer_pool <= u128::MAX,
        0 <= ask_pool <= u128::MAX,
        0 <= offer_amount <= u128::MAX,
        swap_priceable(offer_pool, ask_pool, offer_amount),
    ensures
        ({
            let r = swap_return(offer_pool, ask_pool, offer_amount);
            let back = offer_for(offer_pool, ask_pool, before_fee_for(r));
            &&& reverse_priceable(offer_pool, ask_pool, r)
            &&& 0 <= back <= offer_amount
            &&& swap_priceable(offer_pool, ask_pool, back)
            &&& swap_return(offer_pool, ask_pool, back) >= r
        }),
{
    let f = return_before_fee(offer_pool, ask_pool, offer_amount);
    let r = swap_return(offer_pool, ask_pool, offer_amount);
    let b = before_fee_for(r);
    lemma_before_fee_for_at_most(f);
    lemma_before_fee_bounded(offer_pool, ask_pool, offer_amount);
    // The pre-fee return stays below the whole reserve.
    let d = offer_pool + offer_amount;
    lemma_div_bounds(ask_pool * offer_amount, d);
    assert(ask_pool * offer_amount < ask_pool * d) by (nonlinear_arith)
        requires
            ask_pool > 0,
            offer_amount < d,
    ;
    assert(f < ask_pool) by (nonlinear_arith)
        requires
            d * f <= ask_pool * offer_amount,
            ask_pool * offer_amount < ask_pool * d,
            d > 0,
    ;
    // The original offer covers the least pre-fee return.
    assert(offer_amount * (ask_pool - b) >= b * offer_pool) by (nonlinear_arith)
        requires
            d * f <= ask_pool * offer_amount,
            d == offer_pool + offer_amount,
            b <= f,
            b >= 0,
            offer_pool >= 0,
            offer_amount >= 0,
    ;
    let gap = ask_pool - b;
    let back = offer_for(offer_pool, ask_pool, b);
    lemma_div_bounds(b * offer_pool + gap - 1, gap);
    assert(b * offer_pool >= 0) by (nonlinear_arith)
        requires
            b >= 0,
            offer_pool >= 0,
    ;
    vstd::arithmetic::div_mod::lemma_div_pos_is_pos(b * offer_pool + gap - 1, gap);
    assert(back <= offer_amount) by (nonlinear_arith)
        requires
            gap * back <= b * offer_pool + gap - 1,
            offer_amount * gap >= b * offer_pool,
            gap > 0,
    ;
    assert(back * gap >= b * offer_pool) by (nonlinear_arith)
        requires
            b * offer_pool + gap - 1 < gap * back + gap,
            gap > 0,
    ;
    lemma_offer_covers(offer_pool, ask_pool, back, b);
    lemma_before_fee_for_reaches(r);
    lemma_after_fee_monotonic(b, return_before_fee(offer_pool, ask_pool, back));
    // The spread of the smaller offer stays in range.
    assert(back * ask_pool <= offer_amount * ask_pool) by (nonlinear_arith)
        requires
            0 <= back <= offer_amount,
            ask_pool >= 0,
    ;
    assert(back * ask_pool >= 0) by (nonlinear_arith)
        requires
            back >= 0,
            ask_pool >= 0,
    ;
    vstd::arithmetic::div_mod::lemma_div_is_ordered(back * ask_pool, offer_amount * ask_pool, offer_pool);
}

/// Burning the whole share supply gives back the whole of both reserves.
pub proof fn lemma_withdraw_all(pools: [u128; 2], total_share: int)
    requires
        total_share > 0,
    ensures
        withdraw_ok(pools, total_share, total_share),
        pools[0] * total_share / total_share == pools[0],
        pools[1] * total_share / total_share == pools[1],
{
    vstd::arithmetic::div_mod::lemma_div_multiples_vanish(pools[0] as int, total_share);
    vstd::arithmetic::div_mod::lemma_div_multiples_vanish(pools[1] as int, total_share);
    assert(pools[0] * total_share == total_share * pools[0]) by (nonlinear_arith);
    assert(pools[1] * total_share == total_share * pools[1]) by (nonlinear_arith);
}

/// A partial withdrawal never gives back more than the reserves.
pub proof fn lemma_withdraw_within_pools(pools: [u128; 2], total_share: int, burn_amount: int)
    requires
        total_share > 0,
        0 <= burn_amount <= total_share,
    ensures
        withdraw_ok(pools, total_share, burn_amount),
        pools[0] * burn_amount / total_share <= pools[0],
        pools[1] * burn_amount / total_share <= pools[1],
{
    lemma_withdraw_all(pools, total_share);
    assert(pools[0] * burn_amount <= pools[0] * total_share && pools[0] * burn_amount >= 0)
        by (nonlinear_arith)
        requires
            0 <= burn_amount <= total_share,
            pools[0] >= 0,
    ;
    assert(pools[1] * burn_amount <= pools[1] * total_share && pools[1] * burn_amount >= 0)
        by (nonlinear_arith)
        requires
            0 <= burn_amount <= total_share,
            pools[1] >= 0,
    ;
    vstd::arithmetic::div_mod::lemma_div_is_ordered(pools[0] * burn_amount, pools[0] * total_share, total_share);
    vstd::arithmetic::div_mod::lemma_div_is_ordered(pools[1] * burn_amount, pools[1] * total_share, total_share);
}

} // verus!
