//! Amounts of a swap from pool assets to the alloyed asset.
use crate::alloyed_asset::{sum_converted, sum_converted_amounts};
use crate::coin::Coin;
use crate::error::ContractError;
use crate::math::{conversion, convert_amount, Rounding};
use vstd::prelude::*;

verus! {

/// The alloyed amount out for the given coins in: each is converted, rounded
/// down, and the sum must reach `token_out_min_amount`.
pub open spec fn out_amount_via_exact_in_result(
    tokens_in_with_norm_factor: Seq<(Coin, u128)>,
    token_out_min_amount: u128,
    alloyed_normalization_factor: u128,
) -> Result<u128, ContractError> {
    match sum_converted(tokens_in_with_norm_factor, alloyed_normalization_factor, Rounding::Down) {
        Err(e) => Err(e),
        Ok(out) => if out < token_out_min_amount {
            Err(ContractError::InsufficientTokenOut { min_required: token_out_min_amount, amount_out: out })
        } else {
            Ok(out)
        },
    }
}

/// The amount in of one asset for a fixed alloyed amount out: converted,
/// rounded up, and at most `token_in_max_amount`.
pub open spec fn in_amount_via_exact_out_result(
    token_in_norm_factor: u128,
    token_in_max_amount: u128,
    token_out_amount: u128,
    alloyed_normalization_factor: u128,
) -> Result<u128, ContractError> {
    match conversion(token_out_amount, alloyed_normalization_factor, token_in_norm_factor, Rounding::Up) {
        Err(e) => Err(e),
        Ok(required) => if required > token_in_max_amount {
            Err(ContractError::ExcessiveRequiredTokenIn { limit: token_in_max_amount, required })
        } else {
            Ok(required)
        },
    }
}

/// The alloyed amount minted for `tokens_in_with_norm_factor`.
pub fn out_amount_via_exact_in(
    tokens_in_with_norm_factor: &[(Coin, u128)],
    token_out_min_amount: u128,
    alloyed_normalization_factor: u128,
) -> (r: Result<u128, ContractError>)
    ensures
        r == out_amount_via_exact_in_result(
            tokens_in_with_norm_factor@,
            token_out_min_amount,
            alloyed_normalization_factor,
        ),
{
    let out = match sum_converted_amounts(tokens_in_with_norm_factor, alloyed_normalization_factor, Rounding::Down) {
        Err(e) => {
            return Err(e);
        },
        Ok(out) => out,
    };
    if out < token_out_min_amount {
        return Err(ContractError::InsufficientTokenOut { min_required: token_out_min_amount, amount_out: out });
    }
    Ok(out)
}

/// The amount of one asset needed to mint `token_out_amount` of the alloyed
/// asset.
pub fn in_amount_via_exact_out(
    token_in_norm_factor: u128,
    token_in_max_amount: u128,
    token_out_amount: u128,
    alloyed_normalization_factor: u128,
) -> (r: Result<u128, ContractError>)
    ensures
        r == in_amount_via_exact_out_result(
            token_in_norm_factor,
            token_in_max_amount,
            token_out_amount,
            alloyed_normalization_factor,
        ),
{
    let required = match convert_amount(token_out_amount, alloyed_normalization_factor, token_in_norm_factor, Rounding::Up) {
        Err(e) => {
            return Err(e);
        },
        Ok(v) => v,
    };
    if required > token_in_max_amount {
        return Err(ContractError::ExcessiveRequiredTokenIn { limit: token_in_max_amount, required });
    }
    Ok(required)
}

} // verus!
