//! Amounts of a swap from the alloyed asset to pool assets.
use crate::alloyed_asset::{sum_converted, sum_converted_amounts};
use crate::coin::Coin;
use crate::error::ContractError;
use crate::math::{conversion, convert_amount, Rounding};
use vstd::prelude::*;

verus! {

/// The amount out of one asset for a fixed alloyed amount in: converted,
/// rounded down, and at least `token_out_min_amount`.
pub open spec fn out_amount_via_exact_in_result(
    token_in_amount: u128,
    alloyed_normalization_factor: u128,
    token_out_norm_factor: u128,
    token_out_min_amount: u128,
) -> Result<u128, ContractError> {
    match conversion(token_in_amount, alloyed_normalization_factor, token_out_norm_factor, Rounding::Down) {
        Err(e) => Err(e),
        Ok(out) => if out < token_out_min_amount {
            Err(ContractError::InsufficientTokenOut { min_required: token_out_min_amount, amount_out: out })
        } else {
            Ok(out)
        },
    }
}

/// The alloyed amount to burn for the given coins out: each is converted,
/// rounded up, and the sum is at most `token_in_max_amount`.
pub open spec fn in_amount_via_exact_out_result(
    token_in_max_amount: u128,
    alloyed_normalization_factor: u128,
    tokens_out_with_norm_factor: Seq<(Coin, u128)>,
) -> Result<u128, ContractError> {
    match sum_converted(tokens_out_with_norm_factor, alloyed_normalization_factor, Rounding::Up) {
        Err(e) => Err(e),
        Ok(required) => if required > token_in_max_amount {
            Err(ContractError::ExcessiveRequiredTokenIn { limit: token_in_max_amount, required })
        } else {
            Ok(required)
        },
    }
}

/// The amount of one asset paid out for burning `token_in_amount` of the
/// alloyed asset.
pub fn out_amount_via_exact_in(
    token_in_amount: u128,
    alloyed_normalization_factor: u128,
    token_out_norm_factor: u128,
    token_out_min_amount: u128,
) -> (r: Result<u128, ContractError>)
    ensures
        r == out_amount_via_exact_in_result(
            token_in_amount,
            alloyed_normalization_factor,
            token_out_norm_factor,
            token_out_min_amount,
        ),
{
    let out = match convert_amount(token_in_amount, alloyed_normalization_factor, token_out_norm_factor, Rounding::Down) {
        Err(e) => {
            return Err(e);
        },
        Ok(v) => v,
    };
    if out < token_out_min_amount {
        return Err(ContractError::InsufficientTokenOut { min_required: token_out_min_amount, amount_out: out });
    }
    Ok(out)
}

/// The alloyed amount burned to pay out `tokens_out_with_norm_factor`.
pub fn in_amount_via_exact_out(
    token_in_max_amount: u128,
    alloyed_normalization_factor: u128,
    tokens_out_with_norm_factor: &[(Coin, u128)],
) -> (r: Result<u128, ContractError>)
    ensures
        r == in_amount_via_exact_out_result(
            token_in_max_amount,
            alloyed_normalization_factor,
            tokens_out_with_norm_factor@,
        ),
{
    let required = match sum_converted_amounts(tokens_out_with_norm_factor, alloyed_normalization_factor, Rounding::Up) {
        Err(e) => {
            return Err(e);
        },
        Ok(v) => v,
    };
    if required > token_in_max_amount {
        return Err(ContractError::ExcessiveRequiredTokenIn { limit: token_in_max_amount, required });
    }
    Ok(required)
}

} // verus!
