use terraswap::asset::{AssetInfoRaw, AssetRaw, Coin};
use terraswap::wire::parse_reply_address;
use terraswap::registry::{
    calc_range_start, pair_key, CreationMsg, MigratePair, Registry,
    RegistryError, CREATE_PAIR_REPLY_ID,
};

fn raw_native(denom: &str) -> AssetInfoRaw {
    AssetInfoRaw::NativeToken { denom: denom.to_string() }
}

fn raw_token(addr: &str) -> AssetInfoRaw {
    AssetInfoRaw::Token { contract_addr: addr.as_bytes().to_vec() }
}

fn raw_asset(info: AssetInfoRaw, amount: u128) -> AssetRaw {
    AssetRaw { info, amount }
}

fn addr(s: &str) -> Vec<u8> {
    s.as_bytes().to_vec()
}

fn init() -> Registry {
    Registry::new(addr("addr0000"), 321u64, 123u64)
}

/// A reply payload naming `address` as the new pool.
fn reply_data(address: &str) -> Vec<u8> {
    let mut data = vec![10u8, address.len() as u8];
    data.extend_from_slice(address.as_bytes());
    data
}

#[test]
fn testing_proper_initialization() {
    let registry = init();
    assert_eq!(123u64, registry.config.token_code_id);
    assert_eq!(321u64, registry.config.pair_code_id);
    assert_eq!(addr("addr0000"), registry.config.owner);
}

#[test]
fn update_config() {
    let mut registry = init();
    // update owner
    registry
        .execute_update_config(&addr("addr0000"), Some(addr("addr0001")), None, None)
        .unwrap();
    assert_eq!(123u64, registry.config.token_code_id);
    assert_eq!(321u64, registry.config.pair_code_id);
    assert_eq!(addr("addr0001"), registry.config.owner);

    // update left items
    registry
        .execute_update_config(&addr("addr0001"), None, Some(200u64), Some(100u64))
        .unwrap();
    assert_eq!(200u64, registry.config.token_code_id);
    assert_eq!(100u64, registry.config.pair_code_id);
    assert_eq!(addr("addr0001"), registry.config.owner);

    // Unauthorized err
    let res = registry.execute_update_config(&addr("addr0000"), None, None, None);
    assert_eq!(res, Err(RegistryError::Unauthorized));
}

#[test]
fn create_pair() {
    let mut registry = init();
    registry
        .execute_add_native_token_decimals(&addr("addr0000"), "uusd".to_string(), 6u8, 10)
        .unwrap();
    let assets = [raw_asset(raw_native("uusd"), 0), raw_asset(raw_token("asset0001"), 0)];
    let msg = registry
        .execute_create_pair(assets, [None, Some(8u8)], [10, 0], "addr0000".to_string())
        .unwrap();
    assert_eq!(msg.code_id, 321u64);
    assert_eq!(msg.token_code_id, 123u64);
    assert_eq!(msg.asset_infos, [raw_native("uusd"), raw_token("asset0001")]);
    assert_eq!(msg.asset_decimals, [6u8, 8u8]);
    assert_eq!(msg.reply_id, CREATE_PAIR_REPLY_ID);
    let pending = registry.pending.as_ref().unwrap();
    assert_eq!(pending.pair_key, pair_key(&[raw_native("uusd"), raw_token("asset0001")]));
    assert_eq!(
        pending.assets,
        [raw_asset(raw_native("uusd"), 0), raw_asset(raw_token("asset0001"), 0)]
    );
    assert_eq!(pending.sender, "addr0000".to_string());
    assert_eq!(pending.asset_decimals, [6u8, 8u8]);
}

#[test]
fn create_pair_native_token_and_ibc_token() {
    let mut registry = init();
    registry
        .execute_add_native_token_decimals(&addr("addr0000"), "uusd".to_string(), 6u8, 10)
        .unwrap();
    registry
        .execute_add_native_token_decimals(&addr("addr0000"), "ibc/HASH".to_string(), 6u8, 10)
        .unwrap();
    let assets = [raw_asset(raw_native("uusd"), 0), raw_asset(raw_native("ibc/HASH"), 0)];
    let msg = registry.execute_create_pair(assets, [None, None], [10, 10], "addr0000".to_string()).unwrap();
    assert_eq!(msg.asset_infos, [raw_native("uusd"), raw_native("ibc/HASH")]);
    assert_eq!(msg.asset_decimals, [6u8, 6u8]);
    let pending = registry.pending.as_ref().unwrap();
    assert_eq!(pending.pair_key, b"ibc/HASHuusd".to_vec());
}

#[test]
fn fail_to_create_same_pair() {
    let mut registry = init();
    registry
        .execute_add_native_token_decimals(&addr("addr0000"), "uusd".to_string(), 6u8, 10)
        .unwrap();
    let assets = [raw_asset(raw_native("uusd"), 0), raw_asset(raw_native("uusd"), 0)];
    let res = registry.execute_create_pair(assets, [None, None], [10, 10], "addr0000".to_string());
    assert_eq!(res, Err(RegistryError::SameAsset));
    assert!(registry.pending.is_none());
}

#[test]
fn fail_to_create_pair_with_unknown_denom() {
    let mut registry = init();
    registry
        .execute_add_native_token_decimals(&addr("addr0000"), "uusd".to_string(), 6u8, 10)
        .unwrap();
    let assets = [raw_asset(raw_native("uxxx"), 0), raw_asset(raw_native("uusd"), 0)];
    let res = registry.execute_create_pair(assets, [None, None], [10, 10], "addr0000".to_string());
    assert_eq!(res, Err(RegistryError::InvalidFirstAsset));
}

#[test]
fn fail_to_create_pair_with_unknown_token() {
    let mut registry = init();
    registry
        .execute_add_native_token_decimals(&addr("addr0000"), "uluna".to_string(), 6u8, 10)
        .unwrap();
    let assets = [raw_asset(raw_native("uluna"), 0), raw_asset(raw_token("terra123"), 0)];
    let res = registry.execute_create_pair(assets, [None, None], [10, 10], "addr0000".to_string());
    assert_eq!(res, Err(RegistryError::InvalidSecondAsset));
}

#[test]
fn reply_only_create_pair() {
    let mut registry = init();
    let assets = [raw_asset(raw_token("asset0000"), 0), raw_asset(raw_token("asset0001"), 0)];
    registry
        .execute_create_pair(assets, [Some(8u8), Some(8u8)], [10, 10], "addr0000".to_string())
        .unwrap();
    let data = vec![10, 13, 108, 105, 113, 117, 105, 100, 105, 116, 121, 48, 48, 48, 48];
    let (tmp, pair_contract) = registry.reply(1, &data).unwrap();
    assert_eq!(pair_contract, b"liquidity0000".to_vec());
    assert!(registry.pending.is_none());
    let msgs = registry.finish_pair_creation(
        tmp,
        "liquidity0000".to_string(),
        pair_contract,
        addr("liquidity_token_addr"),
    );
    assert_eq!(msgs.len(), 0);
    let info = registry
        .query_pair(&[raw_token("asset0001"), raw_token("asset0000")])
        .unwrap();
    assert_eq!(info.contract_addr, b"liquidity0000".to_vec());
    assert_eq!(info.liquidity_token, addr("liquidity_token_addr"));
    assert_eq!(info.asset_infos, [raw_token("asset0000"), raw_token("asset0001")]);
    assert_eq!(info.asset_decimals, [8u8, 8u8]);

    // the same pair cannot be created twice
    let assets = [raw_asset(raw_token("asset0001"), 0), raw_asset(raw_token("asset0000"), 0)];
    let res = registry.execute_create_pair(assets, [Some(8u8), Some(8u8)], [10, 10], "addr0000".to_string());
    assert_eq!(res, Err(RegistryError::AlreadyExists));
}

#[test]
fn reply_create_pair_with_provide() {
    let mut registry = init();
    registry
        .execute_add_native_token_decimals(&addr("addr0000"), "uluna".to_string(), 18u8, 100)
        .unwrap();
    let assets = [raw_asset(raw_native("uluna"), 100), raw_asset(raw_token("asset0000"), 100)];
    registry.execute_create_pair(assets, [None, Some(8u8)], [10, 10], "addr0000".to_string()).unwrap();
    let data = vec![10, 8, 112, 97, 105, 114, 48, 48, 48, 48];
    let (tmp, pair_contract) = registry.reply(1, &data).unwrap();
    assert_eq!(pair_contract, b"pair0000".to_vec());
    assert_eq!(tmp.asset_decimals, [18u8, 8u8]);
    let msgs = registry.finish_pair_creation(
        tmp,
        "pair0000".to_string(),
        pair_contract,
        addr("liquidity0000"),
    );
    assert_eq!(msgs.len(), 3);
    assert_eq!(
        msgs[0],
        CreationMsg::IncreaseAllowance {
            token: addr("asset0000"),
            spender: "pair0000".to_string(),
            amount: 100,
        }
    );
    assert_eq!(
        msgs[1],
        CreationMsg::TransferFrom {
            token: addr("asset0000"),
            owner: "addr0000".to_string(),
            amount: 100,
        }
    );
    assert_eq!(
        msgs[2],
        CreationMsg::ProvideLiquidity {
            pair_contract: "pair0000".to_string(),
            assets: [raw_asset(raw_native("uluna"), 100), raw_asset(raw_token("asset0000"), 100)],
            receiver: "addr0000".to_string(),
            funds: vec![Coin { denom: "uluna".to_string(), amount: 100 }],
        }
    );
}

#[test]
fn first_deposit_funds_are_sorted_by_denomination() {
    let mut registry = init();
    registry
        .execute_add_native_token_decimals(&addr("addr0000"), "uusd".to_string(), 6u8, 1)
        .unwrap();
    registry
        .execute_add_native_token_decimals(&addr("addr0000"), "uluna".to_string(), 6u8, 1)
        .unwrap();
    let assets = [raw_asset(raw_native("uusd"), 5), raw_asset(raw_native("uluna"), 7)];
    registry.execute_create_pair(assets, [None, None], [10, 10], "addr0000".to_string()).unwrap();
    let (tmp, pair_contract) = registry.reply(1, &reply_data("pair0001")).unwrap();
    let msgs =
        registry.finish_pair_creation(tmp, "pair0001".to_string(), pair_contract, addr("lp"));
    assert_eq!(msgs.len(), 1);
    match &msgs[0] {
        CreationMsg::ProvideLiquidity { funds, .. } => assert_eq!(
            funds,
            &vec![
                Coin { denom: "uluna".to_string(), amount: 7 },
                Coin { denom: "uusd".to_string(), amount: 5 },
            ]
        ),
        other => panic!("unexpected step {:?}", other),
    }
}

#[test]
fn failed_reply_with_unknown_id() {
    let mut registry = init();
    let res = registry.reply(9, &vec![]);
    assert_eq!(res, Err(RegistryError::InvalidReplyId));
}

#[test]
fn reply_without_pending_creation_fails() {
    let mut registry = init();
    let res = registry.reply(1, &reply_data("pair0000"));
    assert_eq!(res, Err(RegistryError::NoPendingCreation));
}

#[test]
fn malformed_reply_keeps_creation_pending() {
    let mut registry = init();
    let assets = [raw_asset(raw_token("a"), 0), raw_asset(raw_token("b"), 0)];
    registry.execute_create_pair(assets, [Some(6), Some(6)], [10, 10], "addr0000".to_string()).unwrap();
    assert_eq!(registry.reply(1, &vec![18, 2, 1, 1]), Err(RegistryError::MalformedReply));
    assert!(registry.pending.is_some());
    // a second creation waits until the first is answered
    let assets = [raw_asset(raw_token("c"), 0), raw_asset(raw_token("d"), 0)];
    let res = registry.execute_create_pair(assets, [Some(6), Some(6)], [10, 10], "addr0000".to_string());
    assert_eq!(res, Err(RegistryError::CreationPending));
}

#[test]
fn reply_address_with_two_byte_length() {
    let address = "a".repeat(200);
    let mut data = vec![10u8, 200 - 128 + 128, 1];
    data.extend_from_slice(address.as_bytes());
    data.extend_from_slice(&[18, 0]);
    assert_eq!(parse_reply_address(&data), Some(address.as_bytes().to_vec()));
    assert_eq!(parse_reply_address(&vec![10, 5, 1, 2]), None);
    assert_eq!(parse_reply_address(&vec![]), None);
}

#[test]
fn normal_add_allow_native_token() {
    let mut registry = init();
    registry
        .execute_add_native_token_decimals(&addr("addr0000"), "uluna".to_string(), 6u8, 1)
        .unwrap();
    assert_eq!(registry.query_native_token_decimal(&"uluna".to_string()), Ok(6u8));
}

#[test]
fn failed_add_allow_native_token_with_non_admin() {
    let mut registry = init();
    let res = registry.execute_add_native_token_decimals(&addr("noadmin"), "uluna".to_string(), 6u8, 1);
    assert_eq!(res, Err(RegistryError::Unauthorized));
}

#[test]
fn failed_add_allow_native_token_with_zero_factory_balance() {
    let mut registry = init();
    let res = registry.execute_add_native_token_decimals(&addr("addr0000"), "uluna".to_string(), 6u8, 0);
    assert_eq!(res, Err(RegistryError::ZeroBalance));
}

#[test]
fn append_add_allow_native_token_with_already_exist_token() {
    let mut registry = init();
    registry
        .execute_add_native_token_decimals(&addr("addr0000"), "uluna".to_string(), 6u8, 1)
        .unwrap();
    assert_eq!(registry.query_native_token_decimal(&"uluna".to_string()), Ok(6u8));
    registry
        .execute_add_native_token_decimals(&addr("addr0000"), "uluna".to_string(), 7u8, 1)
        .unwrap();
    assert_eq!(registry.query_native_token_decimal(&"uluna".to_string()), Ok(7u8));
    assert_eq!(registry.native_decimals.len(), 1);
}

#[test]
fn unknown_denomination_has_no_decimals() {
    let registry = init();
    assert_eq!(
        registry.query_native_token_decimal(&"uxxx".to_string()),
        Err(RegistryError::DenomNotFound)
    );
}

#[test]
fn normal_migrate_pair() {
    let registry = init();
    let res = registry
        .execute_migrate_pair(&addr("addr0000"), "contract0000".to_string(), Some(123u64))
        .unwrap();
    assert_eq!(res, MigratePair { contract: "contract0000".to_string(), code_id: 123u64 });
}

#[test]
fn normal_migrate_pair_with_none_code_id_will_config_code_id() {
    let registry = init();
    let res = registry.execute_migrate_pair(&addr("addr0000"), "contract0000".to_string(), None).unwrap();
    assert_eq!(res, MigratePair { contract: "contract0000".to_string(), code_id: 321u64 });
}

#[test]
fn failed_migrate_pair_with_no_admin() {
    let registry = init();
    let res = registry.execute_migrate_pair(&addr("noadmin"), "contract0000".to_string(), None);
    assert_eq!(res, Err(RegistryError::Unauthorized));
}

#[test]
fn pair_key_ignores_order() {
    let a = [raw_native("uusd"), raw_token("asset0001")];
    let b = [raw_token("asset0001"), raw_native("uusd")];
    assert_eq!(pair_key(&a), pair_key(&b));
    assert_eq!(pair_key(&a), b"asset0001uusd".to_vec());
    let mut bound = b"asset0001uusd".to_vec();
    bound.push(1);
    assert_eq!(calc_range_start(Some(a)), Some(bound));
    assert_eq!(calc_range_start(None), None);
}

fn register(registry: &mut Registry, a: &str, b: &str) {
    let assets = [raw_asset(raw_token(a), 0), raw_asset(raw_token(b), 0)];
    registry.execute_create_pair(assets, [Some(6), Some(6)], [10, 10], "addr0000".to_string()).unwrap();
    let name = format!("pair{}{}", a, b);
    let (tmp, pair_contract) = registry.reply(1, &reply_data(&name)).unwrap();
    registry.finish_pair_creation(tmp, name, pair_contract, addr("lp"));
}

#[test]
fn pairs_are_listed_in_key_order_by_pages() {
    let mut registry = init();
    register(&mut registry, "c", "d");
    register(&mut registry, "b", "a");
    register(&mut registry, "e", "f");
    let all = registry.query_pairs(None, None);
    let keys: Vec<Vec<u8>> = all.iter().map(|p| p.contract_addr.clone()).collect();
    assert_eq!(keys, vec![addr("pairba"), addr("paircd"), addr("pairef")]);
    let page = registry.query_pairs(Some([raw_token("a"), raw_token("b")]), Some(1));
    assert_eq!(page.len(), 1);
    assert_eq!(page[0].contract_addr, addr("paircd"));
    let page = registry.query_pairs(Some([raw_token("e"), raw_token("f")]), None);
    assert_eq!(page.len(), 0);
}

#[test]
fn pairs_page_size_is_capped() {
    let mut registry = init();
    for i in 0..35u8 {
        let a = format!("x{:02}", i);
        register(&mut registry, &a, "y");
    }
    assert_eq!(registry.query_pairs(None, None).len(), 10);
    assert_eq!(registry.query_pairs(None, Some(100)).len(), 30);
    assert_eq!(registry.query_pairs(None, Some(3)).len(), 3);
}

#[test]
fn query_unknown_pair_fails() {
    let registry = init();
    assert_eq!(
        registry.query_pair(&[raw_token("a"), raw_token("b")]),
        Err(RegistryError::PairNotFound)
    );
}

#[test]
fn native_asset_without_registry_balance_is_refused() {
    let mut registry = init();
    registry
        .execute_add_native_token_decimals(&addr("addr0000"), "uusd".to_string(), 6u8, 10)
        .unwrap();
    let assets = [raw_asset(raw_token("asset0001"), 0), raw_asset(raw_native("uusd"), 0)];
    let res = registry.execute_create_pair(assets, [Some(8u8), None], [0, 0], "addr0000".to_string());
    assert_eq!(res, Err(RegistryError::InvalidSecondAsset));
    assert!(registry.pending.is_none());
}

#[test]
fn pairs_cursor_is_exclusive_at_the_pair_key() {
    let mut registry = init();
    // keys "ab" and "ab" followed by a zero byte
    register(&mut registry, "a", "b");
    register(&mut registry, "a", "b\u{0}");
    let page = registry.query_pairs(Some([raw_token("b"), raw_token("a")]), None);
    assert_eq!(page.len(), 1);
    assert_eq!(page[0].asset_infos[1], raw_token("b\u{0}"));
    let all = registry.query_pairs(None, None);
    assert_eq!(all.len(), 2);
}

#[test]
fn stored_registry_is_checked() {
    let mut registry = init();
    register(&mut registry, "c", "d");
    register(&mut registry, "a", "b");
    assert!(registry.is_well_formed());
    registry.pairs.swap(0, 1);
    assert!(!registry.is_well_formed());
    registry.pairs.swap(0, 1);
    registry
        .execute_add_native_token_decimals(&addr("addr0000"), "uluna".to_string(), 6u8, 1)
        .unwrap();
    registry.native_decimals.push(terraswap::registry::NativeDecimals {
        denom: "uluna".to_string(),
        decimals: 7,
    });
    assert!(!registry.is_well_formed());
}

#[test]
fn reply_address_in_any_field_order() {
    // field 2 (bytes) first, then an unknown varint field 3, then field 1
    let mut data = vec![18u8, 3, 7, 7, 7, 24, 0x96, 0x01, 10, 4];
    data.extend_from_slice(b"pair");
    assert_eq!(parse_reply_address(&data), Some(b"pair".to_vec()));
    // fixed-width fields are skipped too
    let mut data = vec![9u8, 1, 2, 3, 4, 5, 6, 7, 8, 21, 1, 2, 3, 4, 10, 2];
    data.extend_from_slice(b"ok");
    assert_eq!(parse_reply_address(&data), Some(b"ok".to_vec()));
    // a length of three bytes
    let address = "b".repeat(20000);
    let mut data = vec![10u8, 0xa0, 0x9c, 0x01];
    data.extend_from_slice(address.as_bytes());
    assert_eq!(parse_reply_address(&data), Some(address.as_bytes().to_vec()));
    // a message without field 1, and one cut short
    assert_eq!(parse_reply_address(&vec![18, 1, 0]), None);
    assert_eq!(parse_reply_address(&vec![10, 3, 1]), None);
    // an unknown wire type
    assert_eq!(parse_reply_address(&vec![11, 0]), None);
}
