use vstd::prelude::*;

use crate::assertions::{
    assert_deadline, assert_max_spread, assert_minimum_assets, first_shortfall, minimums_met,
    reports_shortfall,
    scalable, raise_factor, spread_verdict,
};
use crate::asset::{amount_in, coin_amount_in, index_in, Asset, AssetInfo, Coin};
use crate::decimal::Decimal;
use crate::error::ContractError;
use crate::pool::{
    before_fee_for, commission_of, compute_offer_amount, compute_provide, compute_swap,
    compute_withdraw, min_share, offer_for, provide_error, provide_ok, provide_refund,
    return_before_fee, reverse_priceable, spread_of, swap_error, swap_priceable, withdraw_ok,
    is_isqrt,
};

verus! {

/// A transfer that a pool asks the host to make on its behalf.
#[derive(Debug, PartialEq, Eq)]
pub enum PoolMsg {
    /// Send native funds held by the pool.
    BankSend { to_address: String, denom: String, amount: u128 },
    /// Transfer tokens held by the pool.
    TokenTransfer { token: String, recipient: String, amount: u128 },
    /// Draw tokens from `owner` into the pool.
    TokenTransferFrom { token: String, owner: String, amount: u128 },
    /// Mint share tokens to `recipient`.
    MintShare { recipient: String, amount: u128 },
    /// Burn share tokens that the pool holds.
    BurnShare { amount: u128 },
}

/// `m` pays `amount` of `info` out of the pool to `recipient`: a bank send
/// for a native asset, a token transfer for a token.
pub open spec fn is_payout(m: PoolMsg, info: AssetInfo, recipient: String, amount: int) -> bool {
    match (m, info) {
        (
            PoolMsg::BankSend { to_address, denom, amount: a },
            AssetInfo::NativeToken { denom: d },
        ) => to_address == recipient && denom@ == d@ && a == amount,
        (
            PoolMsg::TokenTransfer { token, recipient: r, amount: a },
            AssetInfo::Token { contract_addr },
        ) => token@ == contract_addr@ && r == recipient && a == amount,
        _ => false,
    }
}

/// Position of `info` among the pool's two assets.
pub open spec fn position(asset_infos: [AssetInfo; 2], info: AssetInfo) -> Option<int> {
    if asset_infos[0].same_as(&info) {
        Some(0)
    } else if asset_infos[1].same_as(&info) {
        Some(1)
    } else {
        None
    }
}

/// Position of `info` among the pool's two assets.
pub fn find_position(asset_infos: &[AssetInfo; 2], info: &AssetInfo) -> (r: Option<usize>)
    ensures
        r is Some <==> position(*asset_infos, *info) is Some,
        r is Some ==> r->0 == position(*asset_infos, *info)->0,
{
    if asset_infos[0].equal(info) {
        Some(0)
    } else if asset_infos[1].equal(info) {
        Some(1)
    } else {
        None
    }
}

/// A payout of `amount` of `info` to `recipient`.
pub fn payout(info: &AssetInfo, recipient: &String, amount: u128) -> (m: PoolMsg)
    ensures
        is_payout(m, *info, *recipient, amount as int),
{
    match info {
        AssetInfo::NativeToken { denom } => PoolMsg::BankSend {
            to_address: recipient.clone(),
            denom: denom.clone(),
            amount,
        },
        AssetInfo::Token { contract_addr } => PoolMsg::TokenTransfer {
            token: contract_addr.clone(),
            recipient: recipient.clone(),
            amount,
        },
    }
}

/// The result of a swap: the amounts priced and the payout to the receiver.
#[derive(Debug, PartialEq, Eq)]
pub struct SwapOutcome {
    pub return_amount: u128,
    pub spread_amount: u128,
    pub commission_amount: u128,
    pub messages: Vec<PoolMsg>,
}

/// A swap called directly must offer a native asset, which travels with the
/// call; a token is offered only through its own contract.
pub fn assert_direct_offer(offer_asset: &Asset) -> (r: Result<(), ContractError>)
    ensures
        r is Ok <==> offer_asset.info is NativeToken,
        r is Err ==> r->Err_0 == ContractError::Unauthorized,
{
    if offer_asset.info.is_native_token() {
        Ok(())
    } else {
        Err(ContractError::Unauthorized)
    }
}

/// The offer that a token contract makes by sending `amount` of its token to
/// the pool: only a token of the pool may do so.
pub fn token_offer(asset_infos: &[AssetInfo; 2], token_contract: &String, amount: u128) -> (r: Result<
    Asset,
    ContractError,
>)
    ensures
        r is Ok <==> (exists|i: int|
            0 <= i < 2 && #[trigger] asset_infos[i] is Token && asset_infos[i]->Token_contract_addr@
                == token_contract@),
        r is Ok ==> r->Ok_0.info == (AssetInfo::Token { contract_addr: *token_contract })
            && r->Ok_0.amount == amount,
        r is Err ==> r->Err_0 == ContractError::Unauthorized,
{
    let offer = AssetInfo::Token { contract_addr: token_contract.clone() };
    match find_position(asset_infos, &offer) {
        Some(_) => Ok(Asset { info: offer, amount }),
        None => {
            assert(!asset_infos[0].same_as(&offer));
            assert(!asset_infos[1].same_as(&offer));
            Err(ContractError::Unauthorized)
        },
    }
}

/// What a swap ends in, given the pool's balances (which already hold the
/// offer): the error, or `Ok` with the priced amounts.
pub open spec fn swap_result(
    asset_infos: [AssetInfo; 2],
    asset_decimals: [u8; 2],
    balances: [u128; 2],
    offer_asset: Asset,
    belief_price: Option<Decimal>,
    max_spread: Option<Decimal>,
    blocktime: u64,
    deadline: Option<u64>,
) -> Result<(int, int, int), ContractError> {
    if deadline is Some && deadline->0 <= blocktime {
        Err(ContractError::ExpiredDeadline)
    } else if position(asset_infos, offer_asset.info) is None {
        Err(ContractError::AssetMismatch)
    } else {
        let p = position(asset_infos, offer_asset.info)->0;
        let q = 1 - p;
        let offer_pool = balances[p] - offer_asset.amount;
        let ask_pool = balances[q] as int;
        let o = offer_asset.amount as int;
        if offer_pool < 0 {
            Err(ContractError::Overflow)
        } else if !swap_priceable(offer_pool, ask_pool, o) {
            Err(swap_error(offer_pool, ask_pool, o))
        } else {
            let before_fee = return_before_fee(offer_pool, ask_pool, o);
            let ret = before_fee - commission_of(before_fee);
            let spread = spread_of(offer_pool, ask_pool, o, before_fee);
            let check: Result<(), ContractError> = if max_spread is None {
                Ok(())
            } else if scalable(o, ret, spread, asset_decimals[p], asset_decimals[q]) {
                spread_verdict(
                    belief_price,
                    max_spread->0,
                    o * raise_factor(asset_decimals[p], asset_decimals[q]),
                    ret * raise_factor(asset_decimals[q], asset_decimals[p]),
                    spread * raise_factor(asset_decimals[q], asset_decimals[p]),
                )
            } else {
                Err(ContractError::Overflow)
            };
            match check {
                Err(e) => Err(e),
                Ok(_) => Ok((ret, spread, commission_of(before_fee))),
            }
        }
    }
}

/// Swaps `offer_asset` for the pool's other asset, paying the return to
/// `receiver`. `balances` are the pool's balances of its two assets, which
/// already hold the offer; the price is taken against the reserves without
/// it. The deadline, and the spread when `max_spread` is given, are checked.
pub fn swap(
    asset_infos: &[AssetInfo; 2],
    asset_decimals: [u8; 2],
    balances: [u128; 2],
    offer_asset: Asset,
    belief_price: Option<Decimal>,
    max_spread: Option<Decimal>,
    receiver: &String,
    blocktime: u64,
    deadline: Option<u64>,
) -> (r: Result<SwapOutcome, ContractError>)
    ensures
        ({
            let expected = swap_result(
                *asset_infos,
                asset_decimals,
                balances,
                offer_asset,
                belief_price,
                max_spread,
                blocktime,
                deadline,
            );
            &&& r is Ok <==> expected is Ok
            &&& r is Err ==> r->Err_0 == expected->Err_0
            &&& r is Ok ==> {
                let out = r->Ok_0;
                let q = 1 - position(*asset_infos, offer_asset.info)->0;
                &&& out.return_amount == expected->Ok_0.0
                &&& out.spread_amount == expected->Ok_0.1
                &&& out.commission_amount == expected->Ok_0.2
                &&& out.return_amount == 0 ==> out.messages@.len() == 0
                &&& out.return_amount > 0 ==> out.messages@.len() == 1 && is_payout(
                    out.messages@[0],
                    asset_infos[q],
                    *receiver,
                    out.return_amount as int,
                )
            }
        }),
{
    assert_deadline(blocktime, deadline)?;
    let p = match find_position(asset_infos, &offer_asset.info) {
        Some(p) => p,
        None => return Err(ContractError::AssetMismatch),
    };
    let q: usize = 1 - p;
    if balances[p] < offer_asset.amount {
        return Err(ContractError::Overflow);
    }
    let offer_pool = balances[p] - offer_asset.amount;
    let ask_pool = balances[q];
    let (return_amount, spread_amount, commission_amount) = compute_swap(
        offer_pool,
        ask_pool,
        offer_asset.amount,
    )?;
    let ask_asset = Asset { info: asset_infos[q].duplicate(), amount: return_amount };
    assert_max_spread(
        belief_price,
        max_spread,
        offer_asset,
        ask_asset,
        spread_amount,
        asset_decimals[p],
        asset_decimals[q],
    )?;
    let mut messages: Vec<PoolMsg> = Vec::new();
    if return_amount > 0 {
        messages.push(payout(&asset_infos[q], receiver, return_amount));
    }
    Ok(SwapOutcome { return_amount, spread_amount, commission_amount, messages })
}

/// The result of a deposit: the share minted, the surplus handed back of
/// each asset (by pool position), and the transfers that carry it out.
#[derive(Debug, PartialEq, Eq)]
pub struct ProvideOutcome {
    pub share: u128,
    pub refunds: [u128; 2],
    pub messages: Vec<PoolMsg>,
}

/// The amount declared for `info` among the two deposited `assets`.
pub open spec fn declared(assets: [Asset; 2], info: AssetInfo) -> Option<int> {
    if assets[0].info.same_as(&info) {
        Some(assets[0].amount as int)
    } else if assets[1].info.same_as(&info) {
        Some(assets[1].amount as int)
    } else {
        None
    }
}

/// The native funds attached to the call match what `a` declares.
pub open spec fn funds_match(a: Asset, funds: Seq<Coin>) -> bool {
    match a.info {
        AssetInfo::NativeToken { denom } => coin_amount_in(funds, denom@) == a.amount,
        AssetInfo::Token { .. } => true,
    }
}

/// The reserve of the asset at a position before the deposit: the native
/// funds that came with the call are already in the balance.
pub open spec fn reserve_before(info: AssetInfo, balance: int, deposit: int) -> int {
    if info is NativeToken {
        balance - deposit
    } else {
        balance
    }
}

/// The deposits and pre-deposit reserves of a deposit call, by position,
/// once its checks have passed; or the error it ends in before the
/// accounting.
pub open spec fn provide_inputs(
    asset_infos: [AssetInfo; 2],
    balances: [u128; 2],
    assets: [Asset; 2],
    funds: Seq<Coin>,
    blocktime: u64,
    deadline: Option<u64>,
) -> Result<([u128; 2], [u128; 2]), ContractError> {
    if deadline is Some && deadline->0 <= blocktime {
        Err(ContractError::ExpiredDeadline)
    } else if !funds_match(assets[0], funds) || !funds_match(assets[1], funds) {
        Err(ContractError::NativeBalanceMismatch)
    } else if declared(assets, asset_infos[0]) is None || declared(assets, asset_infos[1]) is None {
        Err(ContractError::AssetMismatch)
    } else {
        let d0 = declared(assets, asset_infos[0])->0;
        let d1 = declared(assets, asset_infos[1])->0;
        let p0 = reserve_before(asset_infos[0], balances[0] as int, d0);
        let p1 = reserve_before(asset_infos[1], balances[1] as int, d1);
        if p0 < 0 || p1 < 0 {
            Err(ContractError::Overflow)
        } else {
            Ok(([d0 as u128, d1 as u128], [p0 as u128, p1 as u128]))
        }
    }
}

/// The step that draws a token deposit of `amount` at position `i` from
/// `sender`.
pub open spec fn is_draw(m: PoolMsg, info: AssetInfo, sender: String, amount: int) -> bool {
    match (m, info) {
        (
            PoolMsg::TokenTransferFrom { token, owner, amount: a },
            AssetInfo::Token { contract_addr },
        ) => token@ == contract_addr@ && owner == sender && a == amount,
        _ => false,
    }
}

/// Number of transfers a deposit makes for one asset: a draw of a token
/// when anything of it is kept, a refund of native funds when there is a
/// surplus.
pub open spec fn deposit_steps(info: AssetInfo, deposit: int, refund: int) -> int {
    if (info is Token && deposit > refund) || (info is NativeToken && refund > 0) {
        1
    } else {
        0
    }
}

/// `m` is the transfer a deposit makes for one asset: the draw of what is
/// kept of a token, or the refund of the native surplus.
pub open spec fn is_deposit_step(m: PoolMsg, info: AssetInfo, sender: String, deposit: int, refund: int) -> bool {
    if info is Token {
        is_draw(m, info, sender, deposit - refund)
    } else {
        is_payout(m, info, sender, refund)
    }
}

/// Appends the transfer that a deposit makes for one asset, if any.
fn push_deposit_step(
    messages: &mut Vec<PoolMsg>,
    info: &AssetInfo,
    sender: &String,
    deposit: u128,
    refund: u128,
)
    requires
        refund <= deposit,
    ensures
        final(messages)@.len() == old(messages)@.len() + deposit_steps(
            *info,
            deposit as int,
            refund as int,
        ),
        forall|k: int| 0 <= k < old(messages)@.len() ==> #[trigger] final(messages)@[k] == old(messages)@[k],
        deposit_steps(*info, deposit as int, refund as int) == 1 ==> is_deposit_step(
            final(messages)@[old(messages)@.len() as int],
            *info,
            *sender,
            deposit as int,
            refund as int,
        ),
{
    match info {
        AssetInfo::Token { contract_addr } => {
            if deposit > refund {
                messages.push(
                    PoolMsg::TokenTransferFrom {
                        token: contract_addr.clone(),
                        owner: sender.clone(),
                        amount: deposit - refund,
                    },
                );
            }
        },
        AssetInfo::NativeToken { .. } => {
            if refund > 0 {
                messages.push(payout(info, sender, refund));
            }
        },
    }
}

/// Deposits `assets` into the pool whose assets are `asset_infos`, minting
/// share to `receiver`. `balances` are the pool's balances now, which hold
/// the native funds attached to the call (`funds`); `total_share` is the
/// share supply. Each token deposit is drawn in full from `sender`; the
/// surplus past what the minted share needs goes back to `sender`.
pub fn provide_liquidity(
    asset_infos: &[AssetInfo; 2],
    balances: [u128; 2],
    total_share: u128,
    assets: [Asset; 2],
    funds: &Vec<Coin>,
    sender: &String,
    receiver: &String,
    blocktime: u64,
    deadline: Option<u64>,
) -> (r: Result<ProvideOutcome, ContractError>)
    ensures
        ({
            let inputs = provide_inputs(*asset_infos, balances, assets, funds@, blocktime, deadline);
            let deposits = inputs->Ok_0.0;
            let pools = inputs->Ok_0.1;
            &&& inputs is Err ==> r is Err && r->Err_0 == inputs->Err_0
            &&& inputs is Ok ==> (r is Ok <==> provide_ok(deposits, pools, total_share as int))
            &&& inputs is Ok && r is Err ==> r->Err_0 == provide_error(
                deposits,
                pools,
                total_share as int,
            )
            &&& r is Ok ==> {
                let out = r->Ok_0;
                let share = out.share as int;
                let m = out.messages@;
                &&& inputs is Ok
                &&& total_share == 0 ==> is_isqrt(share, deposits[0] * deposits[1])
                &&& total_share > 0 ==> share == min_share(deposits, pools, total_share as int)
                &&& out.refunds[0] == provide_refund(deposits, pools, total_share as int, share, 0)
                &&& out.refunds[1] == provide_refund(deposits, pools, total_share as int, share, 1)
                &&& m.len() == deposit_steps(asset_infos[0], deposits[0] as int, out.refunds[0] as int)
                    + deposit_steps(asset_infos[1], deposits[1] as int, out.refunds[1] as int) + 1
                &&& m[m.len() - 1] == (PoolMsg::MintShare { recipient: *receiver, amount: out.share })
                &&& deposit_steps(asset_infos[0], deposits[0] as int, out.refunds[0] as int) == 1
                    ==> is_deposit_step(
                    m[0],
                    asset_infos[0],
                    *sender,
                    deposits[0] as int,
                    out.refunds[0] as int,
                )
                &&& deposit_steps(asset_infos[1], deposits[1] as int, out.refunds[1] as int) == 1
                    ==> is_deposit_step(
                    m[deposit_steps(asset_infos[0], deposits[0] as int, out.refunds[0] as int)],
                    asset_infos[1],
                    *sender,
                    deposits[1] as int,
                    out.refunds[1] as int,
                )
            }
        }),
{
    assert_deadline(blocktime, deadline)?;
    assets[0].assert_sent_native_token_balance(funds)?;
    assets[1].assert_sent_native_token_balance(funds)?;
    let d0 = match declared_amount(&assets, &asset_infos[0]) {
        Some(d) => d,
        None => return Err(ContractError::AssetMismatch),
    };
    let d1 = match declared_amount(&assets, &asset_infos[1]) {
        Some(d) => d,
        None => return Err(ContractError::AssetMismatch),
    };
    let p0 = match reserve(&asset_infos[0], balances[0], d0) {
        Some(p) => p,
        None => return Err(ContractError::Overflow),
    };
    let p1 = match reserve(&asset_infos[1], balances[1], d1) {
        Some(p) => p,
        None => return Err(ContractError::Overflow),
    };
    let amounts = compute_provide([d0, d1], [p0, p1], total_share)?;
    let mut messages: Vec<PoolMsg> = Vec::new();
    push_deposit_step(&mut messages, &asset_infos[0], sender, d0, amounts.refunds[0]);
    push_deposit_step(&mut messages, &asset_infos[1], sender, d1, amounts.refunds[1]);
    messages.push(PoolMsg::MintShare { recipient: receiver.clone(), amount: amounts.share });
    Ok(ProvideOutcome { share: amounts.share, refunds: amounts.refunds, messages })
}

/// The amount declared for `info` among the two deposited `assets`.
fn declared_amount(assets: &[Asset; 2], info: &AssetInfo) -> (r: Option<u128>)
    ensures
        r is Some <==> declared(*assets, *info) is Some,
        r is Some ==> r->0 == declared(*assets, *info)->0,
{
    if assets[0].info.equal(info) {
        Some(assets[0].amount)
    } else if assets[1].info.equal(info) {
        Some(assets[1].amount)
    } else {
        None
    }
}

/// The reserve of `info` before a deposit of `deposit`.
fn reserve(info: &AssetInfo, balance: u128, deposit: u128) -> (r: Option<u128>)
    ensures
        r is Some <==> reserve_before(*info, balance as int, deposit as int) >= 0,
        r is Some ==> r->0 == reserve_before(*info, balance as int, deposit as int),
{
    if info.is_native_token() {
        balance.checked_sub(deposit)
    } else {
        Some(balance)
    }
}

/// The result of a withdrawal: what goes back of each asset (by pool
/// position), and the transfers that carry it out.
#[derive(Debug, PartialEq, Eq)]
pub struct WithdrawOutcome {
    pub refunds: [u128; 2],
    pub messages: Vec<PoolMsg>,
}

/// Burns `amount` of share that `sender` sent in and pays out the matching
/// part of each reserve to `sender`. `balances` are the pool's balances and
/// `total_share` the share supply. With `min_assets`, each minimum must be
/// met by the refund of its asset.
pub fn withdraw_liquidity(
    asset_infos: &[AssetInfo; 2],
    balances: [u128; 2],
    total_share: u128,
    sender: &String,
    amount: u128,
    min_assets: Option<[Asset; 2]>,
    blocktime: u64,
    deadline: Option<u64>,
) -> (r: Result<WithdrawOutcome, ContractError>)
    ensures
        deadline is Some && deadline->0 <= blocktime ==> r == Err::<WithdrawOutcome, ContractError>(
            ContractError::ExpiredDeadline,
        ),
        !(deadline is Some && deadline->0 <= blocktime) ==> {
            let ok = withdraw_ok(balances, total_share as int, amount as int);
            let r0 = balances[0] * amount / total_share as int;
            let r1 = balances[1] * amount / total_share as int;
            &&& !ok ==> r is Err && r->Err_0 == (if total_share == 0 {
                ContractError::DivideByZero
            } else {
                ContractError::Overflow
            })
            &&& ok ==> match min_assets {
                None => r is Ok,
                Some(m) => {
                    let given = seq![
                        Asset { info: asset_infos[0], amount: r0 as u128 },
                        Asset { info: asset_infos[1], amount: r1 as u128 },
                    ];
                    let f = first_shortfall(given, m);
                    &&& r is Ok <==> minimums_met(given, m)
                    &&& r is Ok <==> f is None
                    &&& r is Err ==> reports_shortfall(r->Err_0, f->0, amount_in(given, f->0.info))
                },
            }
            &&& r is Ok ==> {
                let out = r->Ok_0;
                &&& out.refunds[0] == r0
                &&& out.refunds[1] == r1
                &&& out.messages@.len() == 3
                &&& is_payout(out.messages@[0], asset_infos[0], *sender, r0)
                &&& is_payout(out.messages@[1], asset_infos[1], *sender, r1)
                &&& out.messages@[2] == (PoolMsg::BurnShare { amount })
            }
        },
{
    assert_deadline(blocktime, deadline)?;
    let refunds = compute_withdraw(balances, total_share, amount)?;
    let given = vec![
        Asset { info: asset_infos[0].duplicate(), amount: refunds[0] },
        Asset { info: asset_infos[1].duplicate(), amount: refunds[1] },
    ];
    proof {
        let want = seq![
            Asset { info: asset_infos[0], amount: refunds[0] },
            Asset { info: asset_infos[1], amount: refunds[1] },
        ];
        same_amounts(given@, want, m_info(min_assets, 0));
        same_amounts(given@, want, m_info(min_assets, 1));
    }
    assert_minimum_assets(given, min_assets)?;
    let mut messages: Vec<PoolMsg> = Vec::new();
    messages.push(payout(&asset_infos[0], sender, refunds[0]));
    messages.push(payout(&asset_infos[1], sender, refunds[1]));
    messages.push(PoolMsg::BurnShare { amount });
    Ok(WithdrawOutcome { refunds, messages })
}

/// The identity of the `i`-th minimum, if minimums were given.
spec fn m_info(min_assets: Option<[Asset; 2]>, i: int) -> AssetInfo {
    min_assets->0[i].info
}

/// Two lists of two assets whose identities match position by position hold
/// the same amount of anything.
proof fn same_amounts(a: Seq<Asset>, b: Seq<Asset>, info: AssetInfo)
    requires
        a.len() == 2,
        b.len() == 2,
        a[0].info.same_as(&b[0].info),
        a[1].info.same_as(&b[1].info),
        a[0].amount == b[0].amount,
        a[1].amount == b[1].amount,
    ensures
        amount_in(a, info) == amount_in(b, info),
        index_in(a, info) == index_in(b, info),
{
    reveal_with_fuel(amount_in, 3);
    reveal_with_fuel(index_in, 3);
    let a1 = a.subrange(1, 2);
    let b1 = b.subrange(1, 2);
    assert(a1[0] == a[1]);
    assert(b1[0] == b[1]);
    assert(amount_in(a1.subrange(1, 1), info) == 0);
    assert(amount_in(b1.subrange(1, 1), info) == 0);
    assert(index_in(a1.subrange(1, 1), info) == -1);
    assert(index_in(b1.subrange(1, 1), info) == -1);
}

/// Prices a swap of `offer_asset` against the pool's balances, without
/// checks: the return, the spread and the commission.
pub fn query_simulation(asset_infos: &[AssetInfo; 2], balances: [u128; 2], offer_asset: &Asset) -> (r:
    Result<(u128, u128, u128), ContractError>)
    ensures
        position(*asset_infos, offer_asset.info) is None ==> r == Err::<(u128, u128, u128), ContractError>(
            ContractError::AssetMismatch,
        ),
        position(*asset_infos, offer_asset.info) is Some ==> {
            let p = position(*asset_infos, offer_asset.info)->0;
            let offer_pool = balances[p] as int;
            let ask_pool = balances[1 - p] as int;
            let o = offer_asset.amount as int;
            let before_fee = return_before_fee(offer_pool, ask_pool, o);
            &&& r is Ok <==> swap_priceable(offer_pool, ask_pool, o)
            &&& r is Err ==> r->Err_0 == swap_error(offer_pool, ask_pool, o)
            &&& r is Ok ==> r->Ok_0 == (
                (before_fee - commission_of(before_fee)) as u128,
                spread_of(offer_pool, ask_pool, o, before_fee) as u128,
                commission_of(before_fee) as u128,
            )
        },
{
    let p = match find_position(asset_infos, &offer_asset.info) {
        Some(p) => p,
        None => return Err(ContractError::AssetMismatch),
    };
    compute_swap(balances[p], balances[1 - p], offer_asset.amount)
}

/// Prices a swap backwards from `ask_asset`, the amount to be received,
/// against the pool's balances: the offer needed, the spread and the
/// commission.
pub fn query_reverse_simulation(asset_infos: &[AssetInfo; 2], balances: [u128; 2], ask_asset: &Asset) -> (r:
    Result<(u128, u128, u128), ContractError>)
    ensures
        position(*asset_infos, ask_asset.info) is None ==> r == Err::<(u128, u128, u128), ContractError>(
            ContractError::AssetMismatch,
        ),
        position(*asset_infos, ask_asset.info) is Some ==> {
            let q = position(*asset_infos, ask_asset.info)->0;
            let ask_pool = balances[q] as int;
            let offer_pool = balances[1 - q] as int;
            let a = ask_asset.amount as int;
            let before_fee = before_fee_for(a);
            let offer = offer_for(offer_pool, ask_pool, before_fee);
            &&& r is Ok <==> reverse_priceable(offer_pool, ask_pool, a)
            &&& r is Err ==> r->Err_0 == swap_error(offer_pool, ask_pool, a)
            &&& r is Ok ==> r->Ok_0 == (
                offer as u128,
                spread_of(offer_pool, ask_pool, offer, before_fee) as u128,
                commission_of(before_fee) as u128,
            )
        },
{
    let q = match find_position(asset_infos, &ask_asset.info) {
        Some(q) => q,
        None => return Err(ContractError::AssetMismatch),
    };
    compute_offer_amount(balances[1 - q], balances[q], ask_asset.amount)
}

} // verus!
