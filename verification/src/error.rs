//! Every way an operation of the transmuter can be refused.
use crate::coin::Coin;
use crate::decimal::Decimal;
use vstd::prelude::*;

verus! {

/// The reasons an operation is refused. A refused operation changes nothing.
#[allow(inconsistent_fields)]
#[derive(Debug, PartialEq, Eq)]
pub enum ContractError {
    /// The in- and out-denominations given to a swap estimate are the same.
    TokenDenomsIdentical,
    /// A division by zero in an amount conversion.
    DivideByZero,
    /// An amount left the range of `u128`.
    Overflow,
    /// The sender is not allowed to do this.
    Unauthorized,
    /// Exactly one coin must be attached.
    SingleCoinExpected,
    /// At least one coin must be given.
    AtLeastSingleTokenExpected,
    /// A coin of amount zero was given.
    ZeroValueOperation,
    /// The sender holds fewer shares than required.
    InsufficientShares { required: u128, available: u128 },
    /// Supply is only accepted in the pool's out-denomination.
    InvalidSupplyDenom { denom: String, expected_denom: String },
    /// Transmutation is only accepted from the pool's in-denomination.
    InvalidTransmuteDenom { denom: String, expected_denom: String },
    /// The pool holds less of a denomination than required.
    InsufficientPoolAsset { required: Coin, available: Coin },
    /// Only an empty asset can be removed from the pool.
    InvalidAssetRemoval { denom: String },
    /// The denomination is not one of the pool's assets.
    InvalidPoolAssetDenom { denom: String },
    /// The in- and out-denominations of a swap are the same.
    SameDenomNotAllowed { denom: String },
    /// A swap would give out less than the minimum asked for.
    InsufficientTokenOut { min_required: u128, amount_out: u128 },
    /// A swap would take in more than the maximum allowed.
    ExcessiveRequiredTokenIn { limit: u128, required: u128 },
    /// The out-coin of a swap differs from the one asked for.
    InvalidTokenOutAmount { expected: u128, actual: u128 },
    /// The rate limiters refused the pool a swap would leave behind.
    RateLimited { reason: String },
    /// The swap fee must be zero.
    InvalidSwapFee { expected: Decimal, actual: Decimal },
}

} // verus!
