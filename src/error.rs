use vstd::prelude::*;

use crate::asset::Asset;

verus! {

/// Why an operation of a pool was refused.
#[derive(Debug, PartialEq, Eq)]
pub enum ContractError {
    /// A checked integer operation left the range of its type.
    Overflow,
    /// A division had a zero denominator.
    DivideByZero,
    Unauthorized,
    InvalidZeroAmount,
    MaxSpreadAssertion,
    AssetMismatch,
    /// A refund fell short of what the caller asked for: the requested
    /// minimum, and what the withdrawal actually gives of that asset.
    MinAmountAssertion { min_asset: Asset, asset: Asset },
    ExpiredDeadline,
    /// The native funds attached to a call differ from the declared amount.
    NativeBalanceMismatch,
}

} // verus!
