//! A two-asset constant-product exchange pool and the registry that creates
//! such pools, with their arithmetic and state changes proved against their
//! contracts.
//!
//! - [`pool`]: swap pricing and liquidity accounting on plain amounts;
//! - [`pair`]: the pool's operations, from ledger balances to transfers;
//! - [`assertions`]: deadline, spread, minimum-refund and attached-funds checks;
//! - [`registry`]: the pair registry and its two-step creation of a pool;
//! - [`wire`]: the protobuf reply that names a newly created contract;
//! - [`asset`], [`decimal`], [`bytes`], [`math`]: the shared model.
use vstd::prelude::*;

pub mod assertions;
pub mod asset;
pub mod bytes;
pub mod decimal;
pub mod error;
pub mod factory;
pub mod math;
pub mod migration;
pub mod pair;
pub mod pool;
pub mod registry;
pub mod wire;

verus! {

} // verus!
