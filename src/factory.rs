use vstd::prelude::*;

use crate::asset::{Asset, AssetInfo, PairInfo};

verus! {

/// Settings of a new registry.
#[derive(Debug, PartialEq, Eq)]
pub struct InstantiateMsg {
    /// Code of the pools that the registry instantiates.
    pub pair_code_id: u64,
    /// Code of the share tokens of those pools.
    pub token_code_id: u64,
}

/// Requests that change the registry.
#[derive(Debug, PartialEq, Eq)]
pub enum ExecuteMsg {
    UpdateConfig { owner: Option<String>, token_code_id: Option<u64>, pair_code_id: Option<u64> },
    CreatePair { assets: [Asset; 2] },
    AddNativeTokenDecimals { denom: String, decimals: u8 },
    MigratePair { contract: String, code_id: Option<u64> },
}

/// Questions put to the registry.
#[derive(Debug, PartialEq, Eq)]
pub enum QueryMsg {
    Config,
    Pair { asset_infos: [AssetInfo; 2] },
    Pairs { start_after: Option<[AssetInfo; 2]>, limit: Option<u32> },
    NativeTokenDecimals { denom: String },
}

/// The registry's settings, with the owner's address in readable form.
#[derive(Debug, PartialEq, Eq)]
pub struct ConfigResponse {
    pub owner: String,
    pub pair_code_id: u64,
    pub token_code_id: u64,
}

/// A migration of the registry takes no arguments.
#[derive(Debug, PartialEq, Eq)]
pub struct MigrateMsg {}

/// A page of registered pools.
#[derive(Debug, PartialEq, Eq)]
pub struct PairsResponse {
    pub pairs: Vec<PairInfo>,
}

/// The declared precision of a native denomination.
#[derive(Debug, PartialEq, Eq)]
pub struct NativeTokenDecimalsResponse {
    pub decimals: u8,
}

} // verus!
