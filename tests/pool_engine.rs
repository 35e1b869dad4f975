use terraswap::assertions::{assert_deadline, assert_max_spread, assert_minimum_assets};
use terraswap::asset::{Asset, AssetInfo, Coin};
use terraswap::decimal::Decimal;
use terraswap::error::ContractError;
use terraswap::pair;
use terraswap::pair::{
    assert_direct_offer, query_reverse_simulation, query_simulation, swap, token_offer, PoolMsg,
};
use terraswap::pool::{compute_offer_amount, compute_provide, compute_swap, compute_withdraw};

fn native(denom: &str) -> AssetInfo {
    AssetInfo::NativeToken { denom: denom.to_string() }
}

fn token(addr: &str) -> AssetInfo {
    AssetInfo::Token { contract_addr: addr.to_string() }
}

fn asset(info: AssetInfo, amount: u128) -> Asset {
    Asset { info, amount }
}

fn coin(denom: &str, amount: u128) -> Coin {
    Coin { denom: denom.to_string(), amount }
}

fn pair_infos() -> [AssetInfo; 2] {
    [native("uusd"), token("asset0000")]
}

fn ratio(n: u128, d: u128) -> Decimal {
    Decimal::from_ratio(n, d).unwrap()
}

#[test]
fn test_assert_deadline_with_normal() {
    assert_deadline(5u64, Some(10u64)).unwrap();
}

#[test]
fn test_assert_deadline_with_expired() {
    let err = assert_deadline(10u64, Some(5u64)).unwrap_err();
    assert_eq!(err, ContractError::ExpiredDeadline)
}

#[test]
fn test_assert_deadline_with_same() {
    let err = assert_deadline(10u64, Some(10u64)).unwrap_err();
    assert_eq!(err, ContractError::ExpiredDeadline)
}

#[test]
fn test_assert_deadline_with_none() {
    assert_deadline(5u64, None).unwrap();
}

#[test]
fn test_assert_minimum_assets_with_equals() {
    let assets = vec![asset(native("uluna"), 1), asset(native("uusd"), 1)];
    let minimum_assets = Some([asset(native("uluna"), 1), asset(native("uusd"), 1)]);
    assert_minimum_assets(assets, minimum_assets).unwrap();
}

#[test]
fn test_assert_minimum_assets_with_normal() {
    let assets = vec![asset(native("uluna"), 2), asset(native("uusd"), 2)];
    let minimum_assets = Some([asset(native("uluna"), 1), asset(native("uusd"), 1)]);
    assert_minimum_assets(assets, minimum_assets).unwrap();
}

#[test]
fn test_assert_minimum_assets_with_less_all() {
    let assets = vec![asset(native("uluna"), 1), asset(native("uusd"), 1)];
    let minimum_assets = Some([asset(native("uluna"), 2), asset(native("uusd"), 2)]);
    let err = assert_minimum_assets(assets, minimum_assets).unwrap_err();
    assert_eq!(
        err,
        ContractError::MinAmountAssertion {
            min_asset: asset(native("uluna"), 2),
            asset: asset(native("uluna"), 1),
        }
    )
}

#[test]
fn test_assert_minimum_assets_with_less_second_asset() {
    let assets = vec![asset(native("uluna"), 1), asset(native("uusd"), 1)];
    let minimum_assets = Some([asset(native("uluna"), 1), asset(native("uusd"), 2)]);
    let err = assert_minimum_assets(assets, minimum_assets).unwrap_err();
    assert_eq!(
        err,
        ContractError::MinAmountAssertion {
            min_asset: asset(native("uusd"), 2),
            asset: asset(native("uusd"), 1),
        }
    )
}

#[test]
fn test_assert_minimum_assets_with_less_first_asset() {
    let assets = vec![asset(native("uluna"), 1), asset(native("uusd"), 1)];
    let minimum_assets = Some([asset(native("uluna"), 2), asset(native("uusd"), 1)]);
    let err = assert_minimum_assets(assets, minimum_assets).unwrap_err();
    assert_eq!(
        err,
        ContractError::MinAmountAssertion {
            min_asset: asset(native("uluna"), 2),
            asset: asset(native("uluna"), 1),
        }
    )
}

#[test]
fn test_assert_minimum_assets_with_unsorted_less_first_asset() {
    let assets = vec![asset(native("uluna"), 1), asset(native("uusd"), 1)];
    let minimum_assets = Some([asset(native("uusd"), 1), asset(native("uluna"), 2)]);
    let err = assert_minimum_assets(assets, minimum_assets).unwrap_err();
    assert_eq!(
        err,
        ContractError::MinAmountAssertion {
            min_asset: asset(native("uluna"), 2),
            asset: asset(native("uluna"), 1),
        }
    )
}

#[test]
fn test_assert_minimum_assets_with_unknown_asset() {
    let assets = vec![asset(native("uluna"), 2), asset(native("uusd"), 2)];
    let minimum_assets = Some([asset(native("ukrw"), 1), asset(native("uluna"), 1)]);
    let err = assert_minimum_assets(assets, minimum_assets).unwrap_err();
    assert_eq!(
        err,
        ContractError::MinAmountAssertion {
            min_asset: asset(native("ukrw"), 1),
            asset: asset(native("ukrw"), 0),
        }
    )
}

#[test]
fn minimum_check_fails_for_either_order_of_minimums() {
    let refunds = vec![asset(native("uluna"), 5), asset(native("uusd"), 5)];
    let a = asset(native("uluna"), 6);
    let b = asset(native("uusd"), 1);
    let first = assert_minimum_assets(
        refunds,
        Some([asset(native("uluna"), 6), asset(native("uusd"), 1)]),
    );
    let refunds = vec![asset(native("uluna"), 5), asset(native("uusd"), 5)];
    let second = assert_minimum_assets(refunds, Some([b, a]));
    assert!(first.is_err());
    assert_eq!(first, second);
}

#[test]
fn test_max_spread() {
    let offer_asset_info = native("offer_asset");
    let ask_asset_info = native("ask_asset_info");

    assert_max_spread(
        Some(ratio(1200, 1)),
        Some(Decimal::percent(1)),
        asset(offer_asset_info.duplicate(), 1200000000),
        asset(ask_asset_info.duplicate(), 989999),
        0,
        6u8,
        6u8,
    )
    .unwrap_err();

    assert_max_spread(
        Some(ratio(1200, 1)),
        Some(Decimal::percent(1)),
        asset(offer_asset_info.duplicate(), 1200000000),
        asset(ask_asset_info.duplicate(), 990000),
        0,
        6u8,
        6u8,
    )
    .unwrap();

    assert_max_spread(
        None,
        Some(Decimal::percent(1)),
        asset(offer_asset_info.duplicate(), 0),
        asset(ask_asset_info.duplicate(), 989999),
        10001,
        6u8,
        6u8,
    )
    .unwrap_err();

    assert_max_spread(
        None,
        Some(Decimal::percent(1)),
        asset(offer_asset_info, 0),
        asset(ask_asset_info, 990000),
        10000,
        6u8,
        6u8,
    )
    .unwrap();
}

#[test]
fn test_max_spread_with_diff_decimal() {
    let offer_asset_info = native("offer_asset");
    let ask_asset_info = token("ask_asset_info");

    assert_max_spread(
        Some(ratio(1200, 1)),
        Some(Decimal::percent(1)),
        asset(offer_asset_info.duplicate(), 1200000000),
        asset(ask_asset_info.duplicate(), 100000000),
        0,
        6u8,
        8u8,
    )
    .unwrap();

    assert_max_spread(
        Some(ratio(1200, 1)),
        Some(Decimal::percent(1)),
        asset(offer_asset_info, 1200000000),
        asset(ask_asset_info, 98999999),
        0,
        6u8,
        8u8,
    )
    .unwrap_err();

    let offer_asset_info = token("ask_asset_info");
    let ask_asset_info = native("offer_asset");

    assert_max_spread(
        Some(ratio(1200, 1)),
        Some(Decimal::percent(1)),
        asset(offer_asset_info.duplicate(), 120000000000),
        asset(ask_asset_info.duplicate(), 1000000),
        0,
        8u8,
        6u8,
    )
    .unwrap();

    assert_max_spread(
        Some(ratio(1200, 1)),
        Some(Decimal::percent(1)),
        asset(offer_asset_info, 120000000000),
        asset(ask_asset_info, 989999),
        0,
        8u8,
        6u8,
    )
    .unwrap_err();
}

#[test]
fn max_spread_not_checked_without_tolerance() {
    assert_max_spread(None, None, asset(native("a"), 1), asset(native("b"), 0), 1_000_000, 6, 6)
        .unwrap();
}

#[test]
fn max_spread_with_zero_belief_price_is_refused() {
    let err = assert_max_spread(
        Some(Decimal { atomics: 0 }),
        Some(Decimal::percent(1)),
        asset(native("a"), 10),
        asset(native("b"), 10),
        0,
        6,
        6,
    )
    .unwrap_err();
    assert_eq!(err, ContractError::DivideByZero);
}

#[test]
fn max_spread_with_unscalable_decimals_overflows() {
    let err = assert_max_spread(
        None,
        Some(Decimal::percent(1)),
        asset(native("a"), 10),
        asset(native("b"), 10),
        0,
        0,
        60,
    )
    .unwrap_err();
    assert_eq!(err, ContractError::Overflow);
}

#[test]
fn compute_swap_matches_worked_example() {
    let (ret, spread, commission) =
        compute_swap(30_000_000_000, 20_000_000_000, 1_500_000_000).unwrap();
    assert_eq!(commission, 2_857_143);
    assert_eq!(ret, 952_380_952 - 2_857_143);
    assert_eq!(spread, 1_000_000_000 - 952_380_952);
}

#[test]
fn compute_swap_return_grows_with_offer() {
    let mut last = 0u128;
    for offer in [1_000u128, 10_000, 100_000, 1_000_000, 10_000_000] {
        let (ret, _, _) = compute_swap(30_000_000, 20_000_000, offer).unwrap();
        assert!(ret >= last);
        last = ret;
    }
}

#[test]
fn compute_swap_errors() {
    assert_eq!(compute_swap(0, 100, 10), Err(ContractError::DivideByZero));
    assert_eq!(compute_swap(u128::MAX, 100, 10), Err(ContractError::Overflow));
    // nothing left after the fee
    assert_eq!(compute_swap(1_000_000, 1, 1), Err(ContractError::Overflow));
}

#[test]
fn reverse_simulation_recovers_offer() {
    let offer = 1_500_000_000u128;
    let (ret, _, _) = compute_swap(30_000_000_000, 20_000_000_000, offer).unwrap();
    let (back, _, commission) = compute_offer_amount(30_000_000_000, 20_000_000_000, ret).unwrap();
    assert!(back <= offer && offer - back < 3);
    assert_eq!(commission, 2_857_143);
    let (again, _, _) = compute_swap(30_000_000_000, 20_000_000_000, back).unwrap();
    assert!(again >= ret);
}

#[test]
fn reverse_simulation_asking_whole_pool_fails() {
    assert_eq!(compute_offer_amount(1_000, 1_000, 1_000), Err(ContractError::Overflow));
    assert_eq!(compute_offer_amount(0, 1_000, 10), Err(ContractError::DivideByZero));
}

#[test]
fn first_deposit_mints_geometric_mean() {
    let out = compute_provide([100, 100], [0, 0], 0).unwrap();
    assert_eq!(out.share, 100);
    assert_eq!(out.refunds, [0, 0]);
    let out = compute_provide([2, 8], [0, 0], 0).unwrap();
    assert_eq!(out.share, 4);
    let out = compute_provide([3, 5], [0, 0], 0).unwrap();
    assert_eq!(out.share, 3);
}

#[test]
fn later_deposit_mints_smaller_share_and_refunds_excess() {
    let out = compute_provide([100, 200], [200, 200], 100).unwrap();
    assert_eq!(out.share, 50);
    assert_eq!(out.refunds, [0, 100]);
}

#[test]
fn deposit_errors() {
    assert_eq!(compute_provide([0, 5], [1, 1], 1), Err(ContractError::InvalidZeroAmount));
    assert_eq!(compute_provide([5, 5], [0, 1], 1), Err(ContractError::DivideByZero));
    assert_eq!(compute_provide([u128::MAX, 5], [1, 1], 2), Err(ContractError::Overflow));
}

#[test]
fn withdrawing_everything_empties_pool() {
    assert_eq!(compute_withdraw([1234, 5678], 999, 999), Ok([1234, 5678]));
    assert_eq!(compute_withdraw([100, 100], 1000, 100), Ok([10, 10]));
    assert_eq!(compute_withdraw([100, 100], 0, 0), Err(ContractError::DivideByZero));
}

#[test]
fn provide_liquidity() {
    let infos = pair_infos();
    // first deposit: the native funds are already in the balance
    let out = pair::provide_liquidity(
        &infos,
        [100, 0],
        0,
        [asset(token("asset0000"), 100), asset(native("uusd"), 100)],
        &vec![coin("uusd", 100)],
        &"addr0000".to_string(),
        &"addr0000".to_string(),
        5,
        None,
    )
    .unwrap();
    assert_eq!(out.share, 100);
    assert_eq!(
        out.messages,
        vec![
            PoolMsg::TokenTransferFrom {
                token: "asset0000".to_string(),
                owner: "addr0000".to_string(),
                amount: 100,
            },
            PoolMsg::MintShare { recipient: "addr0000".to_string(), amount: 100 },
        ]
    );

    // provide more liquidity 1:2, which is not proportional to 1:1:
    // only 1:1 is taken, and the rest of the native side goes back
    let out = pair::provide_liquidity(
        &infos,
        [200 + 200, 200],
        100,
        [asset(token("asset0000"), 100), asset(native("uusd"), 200)],
        &vec![coin("uusd", 200)],
        &"addr0000".to_string(),
        &"staking0000".to_string(),
        5,
        None,
    )
    .unwrap();
    assert_eq!(out.share, 50);
    assert_eq!(out.refunds, [100, 0]);
    assert_eq!(
        out.messages,
        vec![
            PoolMsg::BankSend {
                to_address: "addr0000".to_string(),
                denom: "uusd".to_string(),
                amount: 100,
            },
            PoolMsg::TokenTransferFrom {
                token: "asset0000".to_string(),
                owner: "addr0000".to_string(),
                amount: 100,
            },
            PoolMsg::MintShare { recipient: "staking0000".to_string(), amount: 50 },
        ]
    );

    // declared native amount differs from the attached funds
    let err = pair::provide_liquidity(
        &infos,
        [100, 100],
        100,
        [asset(token("asset0000"), 100), asset(native("uusd"), 50)],
        &vec![coin("uusd", 100)],
        &"addr0000".to_string(),
        &"addr0000".to_string(),
        5,
        None,
    )
    .unwrap_err();
    assert_eq!(err, ContractError::NativeBalanceMismatch);

    // the token side is the surplus: only what the share needs is drawn
    let out = pair::provide_liquidity(
        &infos,
        [100 + 98, 100],
        100,
        [asset(token("asset0000"), 100), asset(native("uusd"), 98)],
        &vec![coin("uusd", 98)],
        &"addr0001".to_string(),
        &"addr0001".to_string(),
        5,
        None,
    )
    .unwrap();
    assert_eq!(out.share, 98);
    assert_eq!(
        out.messages,
        vec![
            PoolMsg::TokenTransferFrom {
                token: "asset0000".to_string(),
                owner: "addr0001".to_string(),
                amount: 98,
            },
            PoolMsg::MintShare { recipient: "addr0001".to_string(), amount: 98 },
        ]
    );

    // expired deadline
    let err = pair::provide_liquidity(
        &infos,
        [100, 100],
        100,
        [asset(token("asset0000"), 100), asset(native("uusd"), 100)],
        &vec![coin("uusd", 100)],
        &"addr0000".to_string(),
        &"addr0000".to_string(),
        10,
        Some(10),
    )
    .unwrap_err();
    assert_eq!(err, ContractError::ExpiredDeadline);
}

#[test]
fn provide_liquidity_with_foreign_asset_is_refused() {
    let err = pair::provide_liquidity(
        &pair_infos(),
        [100, 100],
        100,
        [asset(token("asset0001"), 100), asset(native("uusd"), 100)],
        &vec![coin("uusd", 100)],
        &"addr0000".to_string(),
        &"addr0000".to_string(),
        5,
        None,
    )
    .unwrap_err();
    assert_eq!(err, ContractError::AssetMismatch);
}

#[test]
fn withdraw_liquidity() {
    let out = pair::withdraw_liquidity(
        &pair_infos(),
        [100, 100],
        100,
        &"addr0000".to_string(),
        100,
        None,
        5,
        None,
    )
    .unwrap();
    assert_eq!(out.refunds, [100, 100]);
    assert_eq!(
        out.messages,
        vec![
            PoolMsg::BankSend {
                to_address: "addr0000".to_string(),
                denom: "uusd".to_string(),
                amount: 100,
            },
            PoolMsg::TokenTransfer {
                token: "asset0000".to_string(),
                recipient: "addr0000".to_string(),
                amount: 100,
            },
            PoolMsg::BurnShare { amount: 100 },
        ]
    );
}

#[test]
fn withdraw_liquidity_below_minimum_is_refused() {
    let err = pair::withdraw_liquidity(
        &pair_infos(),
        [100, 100],
        100,
        &"addr0000".to_string(),
        10,
        Some([asset(token("asset0000"), 10), asset(native("uusd"), 11)]),
        5,
        None,
    )
    .unwrap_err();
    assert_eq!(
        err,
        ContractError::MinAmountAssertion {
            min_asset: asset(native("uusd"), 11),
            asset: asset(native("uusd"), 10),
        }
    );
}

#[test]
fn try_native_to_token() {
    let asset_pool_amount = 20000000000u128;
    let collateral_pool_amount = 30000000000u128;
    let offer_amount = 1500000000u128;
    let expected_ret_amount = 952_380_952u128;
    // the exchange rate is taken exactly: 1500000000 * 2/3
    let expected_spread_amount = 1_000_000_000u128 - expected_ret_amount;
    let expected_commission_amount = expected_ret_amount * 3 / 1000 + 1;
    let expected_return_amount = expected_ret_amount - expected_commission_amount;

    assert_direct_offer(&asset(native("uusd"), offer_amount)).unwrap();
    let out = swap(
        &pair_infos(),
        [6, 8],
        [collateral_pool_amount + offer_amount, asset_pool_amount],
        asset(native("uusd"), offer_amount),
        None,
        None,
        &"addr0000".to_string(),
        5,
        None,
    )
    .unwrap();
    assert_eq!(out.return_amount, expected_return_amount);
    assert_eq!(out.spread_amount, expected_spread_amount);
    assert_eq!(out.commission_amount, expected_commission_amount);
    assert_eq!(
        out.messages,
        vec![PoolMsg::TokenTransfer {
            token: "asset0000".to_string(),
            recipient: "addr0000".to_string(),
            amount: expected_return_amount,
        }]
    );

    let (ret, spread, commission) = query_simulation(
        &pair_infos(),
        [collateral_pool_amount, asset_pool_amount],
        &asset(native("uusd"), offer_amount),
    )
    .unwrap();
    assert_eq!(ret, expected_return_amount);
    assert_eq!(commission, expected_commission_amount);
    assert_eq!(spread, expected_spread_amount);

    let (offer, spread, commission) = query_reverse_simulation(
        &pair_infos(),
        [collateral_pool_amount, asset_pool_amount],
        &asset(token("asset0000"), expected_return_amount),
    )
    .unwrap();
    assert!((offer_amount as i128 - offer as i128).abs() < 3i128);
    assert!((expected_commission_amount as i128 - commission as i128).abs() < 3i128);
    assert!((expected_spread_amount as i128 - spread as i128).abs() < 3i128);
}

#[test]
fn try_token_to_native() {
    let asset_pool_amount = 30000000000u128;
    let collateral_pool_amount = 20000000000u128;
    let offer_amount = 1500000000u128;
    let expected_ret_amount = 952_380_952u128;
    let expected_spread_amount = 1_000_000_000u128 - expected_ret_amount;
    let expected_commission_amount = expected_ret_amount * 3 / 1000 + 1;
    let expected_return_amount = expected_ret_amount - expected_commission_amount;

    // a token cannot be offered by a direct call
    assert_eq!(
        assert_direct_offer(&asset(token("asset0000"), offer_amount)),
        Err(ContractError::Unauthorized)
    );
    // nor through a contract that is not one of the pool's tokens
    assert_eq!(
        token_offer(&pair_infos(), &"liquidity0000".to_string(), offer_amount),
        Err(ContractError::Unauthorized)
    );
    let offer = token_offer(&pair_infos(), &"asset0000".to_string(), offer_amount).unwrap();
    assert_eq!(offer, asset(token("asset0000"), offer_amount));

    let out = swap(
        &pair_infos(),
        [6, 8],
        [collateral_pool_amount, asset_pool_amount + offer_amount],
        offer,
        None,
        None,
        &"addr0000".to_string(),
        5,
        None,
    )
    .unwrap();
    assert_eq!(out.return_amount, expected_return_amount);
    assert_eq!(out.spread_amount, expected_spread_amount);
    assert_eq!(out.commission_amount, expected_commission_amount);
    assert_eq!(
        out.messages,
        vec![PoolMsg::BankSend {
            to_address: "addr0000".to_string(),
            denom: "uusd".to_string(),
            amount: expected_return_amount,
        }]
    );

    let (offer, _, commission) = query_reverse_simulation(
        &pair_infos(),
        [collateral_pool_amount, asset_pool_amount],
        &asset(native("uusd"), expected_return_amount),
    )
    .unwrap();
    assert!((offer_amount as i128 - offer as i128).abs() < 3i128);
    assert!((expected_commission_amount as i128 - commission as i128).abs() < 3i128);
}

#[test]
fn swap_with_spread_limit_and_expired_deadline() {
    let err = swap(
        &pair_infos(),
        [6, 6],
        [31_500_000_000, 20_000_000_000],
        asset(native("uusd"), 1_500_000_000),
        None,
        Some(Decimal::percent(1)),
        &"addr0000".to_string(),
        5,
        None,
    )
    .unwrap_err();
    assert_eq!(err, ContractError::MaxSpreadAssertion);
    let err = swap(
        &pair_infos(),
        [6, 6],
        [31_500_000_000, 20_000_000_000],
        asset(native("uusd"), 1_500_000_000),
        None,
        None,
        &"addr0000".to_string(),
        5,
        Some(5),
    )
    .unwrap_err();
    assert_eq!(err, ContractError::ExpiredDeadline);
    let err = swap(
        &pair_infos(),
        [6, 6],
        [31_500_000_000, 20_000_000_000],
        asset(native("uluna"), 1_500_000_000),
        None,
        None,
        &"addr0000".to_string(),
        5,
        None,
    )
    .unwrap_err();
    assert_eq!(err, ContractError::AssetMismatch);
}

#[test]
fn largest_amounts_are_handled_in_wide_arithmetic() {
    let out = compute_provide([u128::MAX, u128::MAX], [0, 0], 0).unwrap();
    assert_eq!(out.share, u128::MAX);
    let out = compute_provide([u128::MAX, 1], [0, 0], 0).unwrap();
    assert_eq!(out.share, 18446744073709551615);
    assert_eq!(compute_withdraw([u128::MAX, 1], u128::MAX, u128::MAX), Ok([u128::MAX, 1]));
    let (ret, _, _) = compute_swap(u128::MAX / 2, u128::MAX, u128::MAX / 2).unwrap();
    let before_fee = u128::MAX / 2;
    assert_eq!(ret, before_fee - (before_fee / 1000 * 3 + (before_fee % 1000) * 3 / 1000) - 1);
}

#[test]
fn minimum_check_reports_in_pool_order_for_either_input_order() {
    let refunds = || vec![asset(native("uluna"), 1), asset(native("uusd"), 1)];
    let expected = ContractError::MinAmountAssertion {
        min_asset: asset(native("uluna"), 2),
        asset: asset(native("uluna"), 1),
    };
    let a = assert_minimum_assets(
        refunds(),
        Some([asset(native("uusd"), 3), asset(native("uluna"), 2)]),
    );
    let b = assert_minimum_assets(
        refunds(),
        Some([asset(native("uluna"), 2), asset(native("uusd"), 3)]),
    );
    assert_eq!(a, Err(expected));
    assert_eq!(a, b);
}

#[test]
fn minimum_check_orders_unheld_assets_by_name() {
    let refunds = || vec![asset(native("uluna"), 1), asset(native("uusd"), 1)];
    let expected = ContractError::MinAmountAssertion {
        min_asset: asset(native("ujpy"), 1),
        asset: asset(native("ujpy"), 0),
    };
    let a = assert_minimum_assets(refunds(), Some([asset(native("ukrw"), 1), asset(native("ujpy"), 1)]));
    let b = assert_minimum_assets(refunds(), Some([asset(native("ujpy"), 1), asset(native("ukrw"), 1)]));
    assert_eq!(a, Err(expected));
    assert_eq!(a, b);
    // a held asset is reported before one that is not held
    let c = assert_minimum_assets(refunds(), Some([asset(native("ukrw"), 1), asset(native("uusd"), 2)]));
    assert_eq!(
        c,
        Err(ContractError::MinAmountAssertion {
            min_asset: asset(native("uusd"), 2),
            asset: asset(native("uusd"), 1),
        })
    );
    // an unheld asset with a minimum of zero passes
    assert_minimum_assets(refunds(), Some([asset(native("ukrw"), 0), asset(native("uusd"), 1)]))
        .unwrap();
}
