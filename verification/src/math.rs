//! Amount conversion between denominations with different normalization factors.
use crate::error::ContractError;
use cosmwasm_std::Uint128;
use vstd::arithmetic::div_mod::{lemma_div_by_multiple, lemma_fundamental_div_mod, lemma_mod_pos_bound};
use vstd::prelude::*;

verus! {

/// `amount * numerator / denominator`, rounded down.
pub open spec fn floor_ratio(amount: int, numerator: int, denominator: int) -> int {
    (amount * numerator) / denominator
}

/// `amount * numerator / denominator`, rounded up.
pub open spec fn ceil_ratio(amount: int, numerator: int, denominator: int) -> int {
    (amount * numerator + denominator - 1) / denominator
}

/// Direction in which a converted amount is rounded.
#[derive(Debug, Clone, Copy, PartialEq, Eq)]
pub enum Rounding {
    Up,
    Down,
}

/// The exact value of a conversion from one normalization factor to another:
/// `amount * to / from`, rounded as asked.
pub open spec fn converted_amount(amount: int, from: int, to: int, rounding: Rounding) -> int {
    match rounding {
        Rounding::Up => ceil_ratio(amount, to, from),
        Rounding::Down => floor_ratio(amount, to, from),
    }
}

/// `Uint128::checked_mul_floor` of cosmwasm-std with the fraction
/// `(numerator, denominator)`: the product is taken in 256 bits, divided and
/// rounded down; it fails on a zero denominator or a result above `u128::MAX`.
#[verifier::external_body]
fn checked_mul_floor(amount: u128, numerator: u128, denominator: u128) -> (r: Option<u128>)
    ensures
        denominator == 0 ==> r is None,
        denominator != 0 ==> (r is Some <==> floor_ratio(
            amount as int,
            numerator as int,
            denominator as int,
        ) <= u128::MAX),
        r matches Some(v) ==> v == floor_ratio(amount as int, numerator as int, denominator as int),
{
    match Uint128::new(amount).checked_mul_floor((Uint128::new(numerator), Uint128::new(denominator))) {
        Ok(v) => Some(v.u128()),
        Err(_) => None,
    }
}

/// `Uint128::checked_mul_ceil` of cosmwasm-std with the fraction
/// `(numerator, denominator)`: like `checked_mul_floor`, but one is added when
/// the division leaves a remainder; it fails on a zero denominator or a result
/// above `u128::MAX`.
#[verifier::external_body]
fn checked_mul_ceil(amount: u128, numerator: u128, denominator: u128) -> (r: Option<u128>)
    ensures
        denominator == 0 ==> r is None,
        denominator != 0 ==> (r is Some <==> ceil_ratio(
            amount as int,
            numerator as int,
            denominator as int,
        ) <= u128::MAX),
        r matches Some(v) ==> v == ceil_ratio(amount as int, numerator as int, denominator as int),
{
    match Uint128::new(amount).checked_mul_ceil((Uint128::new(numerator), Uint128::new(denominator))) {
        Ok(v) => Some(v.u128()),
        Err(_) => None,
    }
}

/// The result of converting `amount` from normalization factor `from` to
/// normalization factor `to`: a zero `from` is a division by zero, and a
/// result above `u128::MAX` an overflow.
pub open spec fn conversion(amount: u128, from: u128, to: u128, rounding: Rounding) -> Result<
    u128,
    ContractError,
> {
    if from == 0 {
        Err(ContractError::DivideByZero)
    } else if converted_amount(amount as int, from as int, to as int, rounding) > u128::MAX {
        Err(ContractError::Overflow)
    } else {
        Ok(converted_amount(amount as int, from as int, to as int, rounding) as u128)
    }
}

/// Converts `amount` counted with normalization factor `from` into the amount
/// counted with normalization factor `to`.
pub fn convert_amount(amount: u128, from: u128, to: u128, rounding: Rounding) -> (r: Result<
    u128,
    ContractError,
>)
    ensures
        r == conversion(amount, from, to, rounding),
{
    if from == 0 {
        return Err(ContractError::DivideByZero);
    }
    let res = match rounding {
        Rounding::Up => checked_mul_ceil(amount, to, from),
        Rounding::Down => checked_mul_floor(amount, to, from),
    };
    match res {
        Some(v) => Ok(v),
        None => Err(ContractError::Overflow),
    }
}

/// Rounding down never gives more than the exact ratio, and misses it by
/// less than one unit.
pub proof fn lemma_floor_ratio_bounds(amount: int, numerator: int, denominator: int)
    requires
        amount >= 0,
        numerator >= 0,
        denominator > 0,
    ensures
        floor_ratio(amount, numerator, denominator) >= 0,
        denominator * floor_ratio(amount, numerator, denominator) <= amount * numerator,
        denominator * floor_ratio(amount, numerator, denominator) > amount * numerator
            - denominator,
{
    let x = amount * numerator;
    assert(amount * numerator >= 0) by (nonlinear_arith)
        requires
            amount >= 0,
            numerator >= 0,
    ;
    lemma_fundamental_div_mod(x, denominator);
    lemma_mod_pos_bound(x, denominator);
    assert(x / denominator >= 0) by (nonlinear_arith)
        requires
            x >= 0,
            denominator > 0,
    ;
}

/// Rounding up never gives less than the exact ratio, and exceeds it by
/// less than one unit.
pub proof fn lemma_ceil_ratio_bounds(amount: int, numerator: int, denominator: int)
    requires
        amount >= 0,
        numerator >= 0,
        denominator > 0,
    ensures
        ceil_ratio(amount, numerator, denominator) >= 0,
        denominator * ceil_ratio(amount, numerator, denominator) >= amount * numerator,
        denominator * ceil_ratio(amount, numerator, denominator) < amount * numerator
            + denominator,
{
    let x = amount * numerator;
    assert(amount * numerator >= 0) by (nonlinear_arith)
        requires
            amount >= 0,
            numerator >= 0,
    ;
    let y = x + denominator - 1;
    lemma_fundamental_div_mod(y, denominator);
    lemma_mod_pos_bound(y, denominator);
    assert(y / denominator >= 0) by (nonlinear_arith)
        requires
            y >= 0,
            denominator > 0,
    ;
}

/// Rounding down and then up again never comes back above the start.
pub proof fn lemma_floor_then_ceil(x: int, a: int, b: int)
    requires
        x >= 0,
        a > 0,
        b > 0,
    ensures
        ceil_ratio(floor_ratio(x, a, b), b, a) <= x,
{
    lemma_floor_ratio_bounds(x, a, b);
    let y = floor_ratio(x, a, b);
    lemma_ceil_ratio_bounds(y, b, a);
    let z = ceil_ratio(y, b, a);
    assert(z <= x) by (nonlinear_arith)
        requires
            b * y <= x * a,
            a * z < y * b + a,
            a > 0,
    ;
}

/// Converting between equal normalization factors changes nothing.
pub proof fn law_convert_same_factor(amount: u128, factor: u128, rounding: Rounding)
    requires
        factor > 0,
    ensures
        conversion(amount, factor, factor, rounding) == Ok::<u128, ContractError>(amount),
{
    let a = amount as int;
    let f = factor as int;
    lemma_div_by_multiple(a, f);
    assert((a * f + f - 1) / f == a) by {
        lemma_fundamental_div_mod(a * f + f - 1, f);
        lemma_mod_pos_bound(a * f + f - 1, f);
        let q = (a * f + f - 1) / f;
        let r = (a * f + f - 1) % f;
        assert(f * q + r == a * f + f - 1);
        assert(q == a) by (nonlinear_arith)
            requires
                f * q + r == a * f + f - 1,
                0 <= r < f,
                f > 0,
        ;
    }
}

/// A conversion never hands out more value than it takes in when rounded
/// down, and never takes in less value than it hands out when rounded up:
/// measured in the common unit, `result * from` against `amount * to`.
pub proof fn law_conversion_favors_pool(amount: u128, from: u128, to: u128)
    requires
        from > 0,
    ensures
        converted_amount(amount as int, from as int, to as int, Rounding::Down) * from
            <= amount * to,
        converted_amount(amount as int, from as int, to as int, Rounding::Up) * from >= amount
            * to,
{
    lemma_floor_ratio_bounds(amount as int, to as int, from as int);
    lemma_ceil_ratio_bounds(amount as int, to as int, from as int);
    let d = floor_ratio(amount as int, to as int, from as int);
    let u = ceil_ratio(amount as int, to as int, from as int);
    assert(d * from == from * d) by (nonlinear_arith);
    assert(u * from == from * u) by (nonlinear_arith);
}

/// Converting there and back, rounding down both times, never yields more
/// than the starting amount; rounding up both times, never less.
pub proof fn law_round_trip(amount: u128, from: u128, to: u128)
    requires
        from > 0,
        to > 0,
    ensures
        converted_amount(
            converted_amount(amount as int, from as int, to as int, Rounding::Down),
            to as int,
            from as int,
            Rounding::Down,
        ) <= amount,
        converted_amount(
            converted_amount(amount as int, from as int, to as int, Rounding::Up),
            to as int,
            from as int,
            Rounding::Up,
        ) >= amount,
{
    let a = amount as int;
    let f = from as int;
    let t = to as int;
    lemma_floor_ratio_bounds(a, t, f);
    let y = floor_ratio(a, t, f);
    lemma_floor_ratio_bounds(y, f, t);
    let z = floor_ratio(y, f, t);
    assert(z <= a) by (nonlinear_arith)
        requires
            f * y <= a * t,
            t * z <= y * f,
            t > 0,
    ;
    lemma_ceil_ratio_bounds(a, t, f);
    let y2 = ceil_ratio(a, t, f);
    lemma_ceil_ratio_bounds(y2, f, t);
    let z2 = ceil_ratio(y2, f, t);
    assert(z2 >= a) by (nonlinear_arith)
        requires
            f * y2 >= a * t,
            t * z2 >= y2 * f,
            t > 0,
    ;
}


/// A conversion from factor `from` to factor `to` gives the whole number
/// nearest to `amount * to / from` on the side asked for: rounded down it is
/// the largest `v` with `v * from <= amount * to`, rounded up the smallest
/// `v` with `v * from >= amount * to`. It fails on a zero `from`, and
/// otherwise exactly when that number is above `u128::MAX`.
pub proof fn law_conversion_exact(amount: u128, from: u128, to: u128, rounding: Rounding)
    ensures
        from == 0 ==> conversion(amount, from, to, rounding) == Err::<u128, ContractError>(
            ContractError::DivideByZero,
        ),
        from > 0 && rounding == Rounding::Down ==> (conversion(amount, from, to, rounding) is Ok
            <==> amount * to < (u128::MAX + 1) * from),
        from > 0 && rounding == Rounding::Up ==> (conversion(amount, from, to, rounding) is Ok
            <==> amount * to <= u128::MAX * from),
        conversion(amount, from, to, rounding) is Err && from > 0 ==> conversion(
            amount,
            from,
            to,
            rounding,
        ) == Err::<u128, ContractError>(ContractError::Overflow),
        rounding == Rounding::Down ==> (conversion(amount, from, to, rounding) matches Ok(v) ==> v
            * from <= amount * to < (v + 1) * from),
        rounding == Rounding::Up ==> (conversion(amount, from, to, rounding) matches Ok(v) ==> (v
            - 1) * from < amount * to <= v * from),
{
    if from > 0 {
        let a = amount as int;
        let f = from as int;
        let t = to as int;
        let m = u128::MAX as int;
        lemma_floor_ratio_bounds(a, t, f);
        lemma_ceil_ratio_bounds(a, t, f);
        let d = floor_ratio(a, t, f);
        let u = ceil_ratio(a, t, f);
        assert(d * f <= a * t < (d + 1) * f) by (nonlinear_arith)
            requires
                f * d <= a * t,
                f * d > a * t - f,
        ;
        assert((u - 1) * f < a * t <= u * f) by (nonlinear_arith)
            requires
                f * u >= a * t,
                f * u < a * t + f,
        ;
        assert(d <= m <==> a * t < (m + 1) * f) by (nonlinear_arith)
            requires
                d * f <= a * t < (d + 1) * f,
                f > 0,
        ;
        assert(u <= m <==> a * t <= m * f) by (nonlinear_arith)
            requires
                (u - 1) * f < a * t <= u * f,
                f > 0,
        ;
    }
}

} // verus!
