use vstd::prelude::*;

use crate::asset::{
    amount_in, coin_amount_in, find_coin_amount, find_index, index_in, label_bytes,
    lemma_index_in_matches, lemma_lookup_respects_identity, Asset, AssetInfo, Coin,
};
use crate::bytes::{
    bytes_lt, compare_bytes, lemma_bytes_lt_irreflexive, lemma_bytes_lt_total,
    lemma_bytes_lt_transitive,
};
use crate::decimal::{Decimal, DECIMAL_FRACTIONAL};
use crate::error::ContractError;
use crate::math::{checked_pow10, mul_div_floor, multiply_ratio_floor, pow10};

verus! {

/// Refuses an operation whose deadline has passed: a deadline equal to the
/// block time counts as passed.
pub fn assert_deadline(blocktime: u64, deadline: Option<u64>) -> (r: Result<(), ContractError>)
    ensures
        r is Err <==> (deadline is Some && deadline->0 <= blocktime),
        r is Err ==> r->Err_0 == ContractError::ExpiredDeadline,
{
    match deadline {
        Some(d) => {
            if d <= blocktime {
                Err(ContractError::ExpiredDeadline)
            } else {
                Ok(())
            }
        },
        None => Ok(()),
    }
}

/// `e` reports that only `actual` of `min`'s asset was given where `min` was
/// asked for.
pub open spec fn reports_shortfall(e: ContractError, min: Asset, actual: int) -> bool {
    match e {
        ContractError::MinAmountAssertion { min_asset, asset } => {
            &&& min_asset.same_as(&min)
            &&& asset.info.same_as(&min.info)
            &&& asset.amount == actual
        },
        _ => false,
    }
}

/// Every requested minimum is met by what `assets` holds of that asset.
pub open spec fn minimums_met(assets: Seq<Asset>, min_assets: [Asset; 2]) -> bool {
    &&& amount_in(assets, min_assets[0].info) >= min_assets[0].amount
    &&& amount_in(assets, min_assets[1].info) >= min_assets[1].amount
}

/// `a` falls short of what `assets` holds of its asset.
pub open spec fn falls_short(assets: Seq<Asset>, a: Asset) -> bool {
    amount_in(assets, a.info) < a.amount
}

/// The order in which shortfalls are reported: minimums on assets that
/// `assets` holds come first, in the order of `assets`; then the others, by
/// the bytes of their text, a native denomination before a token of the same
/// text; the larger minimum first on the same asset.
pub open spec fn precedes(assets: Seq<Asset>, a: Asset, b: Asset) -> bool {
    let i = index_in(assets, a.info);
    let j = index_in(assets, b.info);
    if i >= 0 && j >= 0 {
        i < j || (i == j && a.amount >= b.amount)
    } else if i >= 0 {
        true
    } else if j >= 0 {
        false
    } else {
        let x = label_bytes(a.info);
        let y = label_bytes(b.info);
        bytes_lt(x, y) || (x == y && ((a.info is NativeToken && b.info is Token) || ((a.info
            is NativeToken) == (b.info is NativeToken) && a.amount >= b.amount)))
    }
}

/// The minimum whose shortfall is reported, if any falls short.
pub open spec fn first_shortfall(assets: Seq<Asset>, min_assets: [Asset; 2]) -> Option<Asset> {
    let a = min_assets[0];
    let b = min_assets[1];
    if falls_short(assets, a) && falls_short(assets, b) {
        if precedes(assets, a, b) {
            Some(a)
        } else {
            Some(b)
        }
    } else if falls_short(assets, a) {
        Some(a)
    } else if falls_short(assets, b) {
        Some(b)
    } else {
        None
    }
}

/// Of two minimums one is reported before the other, and two that each come
/// first are the same minimum.
proof fn lemma_precedes_total(assets: Seq<Asset>, a: Asset, b: Asset)
    ensures
        precedes(assets, a, b) || precedes(assets, b, a),
        precedes(assets, a, b) && precedes(assets, b, a) ==> a.same_as(&b),
{
    lemma_index_in_matches(assets, a.info);
    lemma_index_in_matches(assets, b.info);
    let x = label_bytes(a.info);
    let y = label_bytes(b.info);
    if x != y {
        lemma_bytes_lt_total(x, y);
    }
    if bytes_lt(x, y) && bytes_lt(y, x) {
        lemma_bytes_lt_transitive(x, y, x);
        lemma_bytes_lt_irreflexive(x);
    }
    lemma_bytes_lt_irreflexive(x);
    if x == y {
        vstd::utf8::encode_utf8_decode_utf8(a.info.label());
        vstd::utf8::encode_utf8_decode_utf8(b.info.label());
    }
}

/// The minimum check does not depend on the order in which the two minimums
/// are given: it passes for both orders or for neither, and reports the same
/// minimum, with the same amount found, either way.
pub proof fn lemma_minimums_order_free(assets: Seq<Asset>, min_assets: [Asset; 2])
    ensures
        ({
            let swapped = [min_assets[1], min_assets[0]];
            let f = first_shortfall(assets, min_assets);
            let g = first_shortfall(assets, swapped);
            &&& minimums_met(assets, min_assets) == minimums_met(assets, swapped)
            &&& f is Some <==> g is Some
            &&& f is Some ==> f->0.same_as(&g->0) && amount_in(assets, f->0.info) == amount_in(
                assets,
                g->0.info,
            )
        }),
{
    lemma_precedes_total(assets, min_assets[0], min_assets[1]);
    let f = first_shortfall(assets, min_assets);
    let g = first_shortfall(assets, [min_assets[1], min_assets[0]]);
    if f is Some && g is Some {
        lemma_lookup_respects_identity(assets, f->0.info, g->0.info);
    }
}

/// An asset that `assets` does not hold counts as a refund of zero.
pub proof fn lemma_unmatched_is_zero(assets: Seq<Asset>, info: AssetInfo)
    requires
        forall|j: int| 0 <= j < assets.len() ==> !(#[trigger] assets[j]).info.same_as(&info),
    ensures
        amount_in(assets, info) == 0,
    decreases assets.len(),
{
    if assets.len() > 0 {
        let rest = assets.subrange(1, assets.len() as int);
        assert forall|j: int| 0 <= j < rest.len() implies !(#[trigger] rest[j]).info.same_as(&info) by {
            assert(rest[j] == assets[j + 1]);
        }
        lemma_unmatched_is_zero(rest, info);
    }
}

/// Checks each requested minimum against what `assets` holds of its asset
/// (zero for an asset it does not hold), and reports a shortfall in an order
/// that does not depend on the order of `min_assets` (see [`precedes`]).
pub fn assert_minimum_assets(assets: Vec<Asset>, min_assets: Option<[Asset; 2]>) -> (r: Result<
    (),
    ContractError,
>)
    ensures
        min_assets is None ==> r is Ok,
        min_assets is Some ==> ({
            let m = min_assets->0;
            let f = first_shortfall(assets@, m);
            &&& r is Ok <==> minimums_met(assets@, m)
            &&& r is Ok <==> f is None
            &&& r is Err ==> reports_shortfall(r->Err_0, f->0, amount_in(assets@, f->0.info))
        }),
{
    match min_assets {
        None => Ok(()),
        Some(m) => {
            let i0 = find_index(&assets, &m[0].info);
            let i1 = find_index(&assets, &m[1].info);
            proof {
                lemma_index_in_matches(assets@, m[0].info);
                lemma_index_in_matches(assets@, m[1].info);
            }
            let a0 = match i0 {
                Some(i) => assets[i].amount,
                None => 0,
            };
            let a1 = match i1 {
                Some(i) => assets[i].amount,
                None => 0,
            };
            let short0 = a0 < m[0].amount;
            let short1 = a1 < m[1].amount;
            if short0 && short1 {
                if reported_before(&m[0], i0, &m[1], i1) {
                    Err(shortfall(&m[0], a0))
                } else {
                    Err(shortfall(&m[1], a1))
                }
            } else if short0 {
                Err(shortfall(&m[0], a0))
            } else if short1 {
                Err(shortfall(&m[1], a1))
            } else {
                Ok(())
            }
        },
    }
}

/// Whether the shortfall of `a`, found at `ia`, is reported before that of
/// `b`, found at `ib`.
fn reported_before(a: &Asset, ia: Option<usize>, b: &Asset, ib: Option<usize>) -> (r: bool)
    requires
        ia is Some ==> ia->0 >= 0,
        ib is Some ==> ib->0 >= 0,
    ensures
        forall|assets: Seq<Asset>|
            (ia is Some <==> index_in(assets, a.info) >= 0) && (ia is Some ==> ia->0 == index_in(
                assets,
                a.info,
            )) && (ib is Some <==> index_in(assets, b.info) >= 0) && (ib is Some ==> ib->0
                == index_in(assets, b.info)) ==> r == #[trigger] precedes(assets, *a, *b),
{
    match (ia, ib) {
        (Some(i), Some(j)) => i < j || (i == j && a.amount >= b.amount),
        (Some(_), None) => true,
        (None, Some(_)) => false,
        (None, None) => {
            let x = a.info.label_bytes();
            let y = b.info.label_bytes();
            let c = compare_bytes(&x, &y);
            let an = a.info.is_native_token();
            let bn = b.info.is_native_token();
            c < 0 || (c == 0 && ((an && !bn) || (an == bn && a.amount >= b.amount)))
        },
    }
}

fn shortfall(min: &Asset, actual: u128) -> (e: ContractError)
    ensures
        reports_shortfall(e, *min, actual as int),
{
    ContractError::MinAmountAssertion {
        min_asset: min.duplicate(),
        asset: Asset { info: min.info.duplicate(), amount: actual },
    }
}

impl Asset {
    /// For a native asset, checks that the funds attached to the call hold
    /// exactly the declared amount of its denomination (none at all counts
    /// as zero). A token asset passes.
    pub fn assert_sent_native_token_balance(&self, funds: &Vec<Coin>) -> (r: Result<
        (),
        ContractError,
    >)
        ensures
            r is Err <==> match self.info {
                AssetInfo::NativeToken { denom } => coin_amount_in(funds@, denom@) != self.amount,
                AssetInfo::Token { .. } => false,
            },
            r is Err ==> r->Err_0 == ContractError::NativeBalanceMismatch,
    {
        match &self.info {
            AssetInfo::NativeToken { denom } => {
                if find_coin_amount(funds, denom) == self.amount {
                    Ok(())
                } else {
                    Err(ContractError::NativeBalanceMismatch)
                }
            },
            AssetInfo::Token { .. } => Ok(()),
        }
    }
}

/// Factor by which an amount with `from` decimals is raised to `to`
/// decimals, when `to` is the larger.
pub open spec fn raise_factor(from: u8, to: u8) -> int {
    if to > from {
        pow10((to - from) as nat)
    } else {
        1
    }
}

/// The verdict of the spread check on amounts already brought to a common
/// precision.
pub open spec fn spread_verdict(
    belief_price: Option<Decimal>,
    max_spread: Decimal,
    offer: int,
    ret: int,
    spread: int,
) -> Result<(), ContractError> {
    match belief_price {
        Some(b) => {
            if b.atomics == 0 {
                Err(ContractError::DivideByZero)
            } else if mul_div_floor(offer, DECIMAL_FRACTIONAL as int, b.atomics as int)
                > u128::MAX {
                Err(ContractError::Overflow)
            } else {
                let expected = mul_div_floor(offer, DECIMAL_FRACTIONAL as int, b.atomics as int);
                if ret < expected && mul_div_floor(
                    expected - ret,
                    DECIMAL_FRACTIONAL as int,
                    expected,
                ) > max_spread.atomics {
                    Err(ContractError::MaxSpreadAssertion)
                } else {
                    Ok(())
                }
            }
        },
        None => {
            if ret + spread > u128::MAX {
                Err(ContractError::Overflow)
            } else if ret + spread > 0 && mul_div_floor(
                spread,
                DECIMAL_FRACTIONAL as int,
                ret + spread,
            ) > max_spread.atomics {
                Err(ContractError::MaxSpreadAssertion)
            } else {
                Ok(())
            }
        },
    }
}

/// Whether bringing the amounts to a common precision stays in range.
pub open spec fn scalable(offer: int, ret: int, spread: int, offer_decimal: u8, return_decimal: u8) -> bool {
    &&& raise_factor(offer_decimal, return_decimal) <= u128::MAX
    &&& raise_factor(return_decimal, offer_decimal) <= u128::MAX
    &&& offer * raise_factor(offer_decimal, return_decimal) <= u128::MAX
    &&& ret * raise_factor(return_decimal, offer_decimal) <= u128::MAX
    &&& spread * raise_factor(return_decimal, offer_decimal) <= u128::MAX
}

/// `x * factor`, or `None` when that leaves the range of `u128`.
fn scale(x: u128, factor: u128) -> (r: Option<u128>)
    ensures
        r is Some <==> x * factor <= u128::MAX,
        r is Some ==> r->0 == x * factor,
{
    x.checked_mul(factor)
}

/// Refuses a swap whose result strays too far from what the trader expected.
/// Both amounts are first brought to the larger of the two precisions. With
/// a belief price the expected return is `offer / belief_price`, and the
/// check fails when `(expected - actual) / expected` exceeds `max_spread`;
/// without one it fails when `spread / (actual + spread)` does. Without a
/// `max_spread` nothing is checked.
pub fn assert_max_spread(
    belief_price: Option<Decimal>,
    max_spread: Option<Decimal>,
    offer_asset: Asset,
    return_asset: Asset,
    spread_amount: u128,
    offer_decimal: u8,
    return_decimal: u8,
) -> (r: Result<(), ContractError>)
    ensures
        max_spread is None ==> r is Ok,
        max_spread is Some ==> {
            let offer = offer_asset.amount as int;
            let ret = return_asset.amount as int;
            let spread = spread_amount as int;
            if scalable(offer, ret, spread, offer_decimal, return_decimal) {
                r == spread_verdict(
                    belief_price,
                    max_spread->0,
                    offer * raise_factor(offer_decimal, return_decimal),
                    ret * raise_factor(return_decimal, offer_decimal),
                    spread * raise_factor(return_decimal, offer_decimal),
                )
            } else {
                r == Err::<(), ContractError>(ContractError::Overflow)
            }
        },
{
    let max_spread = match max_spread {
        Some(m) => m,
        None => return Ok(()),
    };
    let offer_factor = if return_decimal > offer_decimal {
        match checked_pow10(return_decimal - offer_decimal) {
            Some(f) => f,
            None => return Err(ContractError::Overflow),
        }
    } else {
        1
    };
    let return_factor = if offer_decimal > return_decimal {
        match checked_pow10(offer_decimal - return_decimal) {
            Some(f) => f,
            None => return Err(ContractError::Overflow),
        }
    } else {
        1
    };
    let offer = match scale(offer_asset.amount, offer_factor) {
        Some(v) => v,
        None => return Err(ContractError::Overflow),
    };
    let ret = match scale(return_asset.amount, return_factor) {
        Some(v) => v,
        None => return Err(ContractError::Overflow),
    };
    let spread = match scale(spread_amount, return_factor) {
        Some(v) => v,
        None => return Err(ContractError::Overflow),
    };
    match belief_price {
        Some(b) => {
            if b.atomics == 0 {
                return Err(ContractError::DivideByZero);
            }
            let expected = match multiply_ratio_floor(offer, DECIMAL_FRACTIONAL, b.atomics) {
                Some(v) => v,
                None => return Err(ContractError::Overflow),
            };
            if ret < expected {
                proof {
                    lemma_ratio_at_most_one((expected - ret) as int, expected as int);
                }
                let ratio = match multiply_ratio_floor(expected - ret, DECIMAL_FRACTIONAL, expected) {
                    Some(v) => v,
                    None => return Err(ContractError::Overflow),
                };
                if ratio > max_spread.atomics {
                    return Err(ContractError::MaxSpreadAssertion);
                }
            }
            Ok(())
        },
        None => {
            if spread > u128::MAX - ret {
                return Err(ContractError::Overflow);
            }
            let total = ret + spread;
            if total > 0 {
                proof {
                    lemma_ratio_at_most_one(spread as int, total as int);
                }
                let ratio = match multiply_ratio_floor(spread, DECIMAL_FRACTIONAL, total) {
                    Some(v) => v,
                    None => return Err(ContractError::Overflow),
                };
                if ratio > max_spread.atomics {
                    return Err(ContractError::MaxSpreadAssertion);
                }
            }
            Ok(())
        },
    }
}

/// A part of a whole, as a decimal, is at most one.
proof fn lemma_ratio_at_most_one(part: int, whole: int)
    requires
        0 <= part <= whole,
        whole > 0,
    ensures
        0 <= mul_div_floor(part, DECIMAL_FRACTIONAL as int, whole) <= DECIMAL_FRACTIONAL,
{
    let f = DECIMAL_FRACTIONAL as int;
    assert(part * f <= whole * f && part * f >= 0) by (nonlinear_arith)
        requires
            0 <= part <= whole,
            f > 0,
    ;
    vstd::arithmetic::div_mod::lemma_multiply_divide_le(part * f, whole, f);
    vstd::arithmetic::div_mod::lemma_div_pos_is_pos(part * f, whole);
}

} // verus!
