//! The pricing and share formulas of a constant-product pool.
//!
//! Every formula is a short chain of fixed-point operations, each rounded down
//! to whole attos before the next; a formula has no value where one of its
//! steps has none.

use crate::amount::{checked_product, checked_quotient, checked_sum, one, Amount};
use crate::error::PoolError;
use vstd::prelude::*;

verus! {

/// One hundred whole units: the fee that takes everything, and the shares that
/// the first deposit into an empty pool mints.
pub open spec fn hundred() -> nat {
    100_000_000_000_000_000_000
}

/// The shares minted by a deposit into an empty pool.
pub open spec fn bootstrap_shares() -> nat {
    hundred()
}

/// The part of an input that counts towards the price once the fee, a
/// percentage from 0 to 100, is taken: `(100 - fee) / 100`.
pub open spec fn fee_multiplier(fee: nat) -> nat
    recommends
        fee <= hundred(),
{
    (((hundred() - fee) as nat) * one()) / hundred()
}

/// The output for an input `dx`, with `x` the reserve of the input asset, `y`
/// the reserve of the output asset and `r` the fee multiplier:
/// `(dx * r * y) / (x + r * dx)`.
pub open spec fn quote_output(x: nat, y: nat, fee: nat, dx: nat) -> Option<nat> {
    match checked_product(dx, fee_multiplier(fee)) {
        Some(net) => match (checked_product(net, y), checked_sum(x, net)) {
            (Some(numerator), Some(denominator)) => checked_quotient(numerator, denominator),
            _ => None,
        },
        None => None,
    }
}

/// The input needed for an output `dy` below `y`, with `x` the reserve of the
/// input asset, `y` the reserve of the output asset and `r` the fee multiplier:
/// `(dy * x) / (r * (y - dy))`.
pub open spec fn quote_input(x: nat, y: nat, fee: nat, dy: nat) -> Option<nat>
    recommends
        dy < y,
{
    match (checked_product(dy, x), checked_product(fee_multiplier(fee), (y - dy) as nat)) {
        (Some(numerator), Some(denominator)) => checked_quotient(numerator, denominator),
        _ => None,
    }
}

/// How much of an offer `(dm, dn)` a pool with reserves `(m, n)` accepts. An
/// empty pool, or an offer in the pool's own ratio, is taken whole. Otherwise
/// the side that is short is taken whole and the other scaled to the pool's
/// ratio: `(dn * m / n, dn)` where `m / n < dm / dn`, else `(dm, dm * n / m)`.
pub open spec fn deposit_amounts(m: nat, n: nat, dm: nat, dn: nat) -> Option<(nat, nat)> {
    if m == 0 || n == 0 {
        Some((dm, dn))
    } else {
        match (checked_quotient(m, n), checked_quotient(dm, dn)) {
            (Some(held), Some(offered)) => if held == offered {
                Some((dm, dn))
            } else if held < offered {
                match checked_product(dn, m) {
                    Some(p) => match checked_quotient(p, n) {
                        Some(amount0) => Some((amount0, dn)),
                        None => None,
                    },
                    None => None,
                }
            } else {
                match checked_product(dm, n) {
                    Some(p) => match checked_quotient(p, m) {
                        Some(amount1) => Some((dm, amount1)),
                        None => None,
                    },
                    None => None,
                }
            },
            _ => None,
        }
    }
}

/// The shares minted for a deposit of `amount0` of the first asset into a pool
/// that held `(m, n)` with `supply` shares outstanding: the bootstrap amount
/// where the pool was empty, else `amount0 * supply / m`.
pub open spec fn minted_shares(m: nat, n: nat, supply: nat, amount0: nat) -> Option<nat> {
    if m == 0 || n == 0 {
        Some(bootstrap_shares())
    } else {
        match checked_product(amount0, supply) {
            Some(p) => checked_quotient(p, m),
            None => None,
        }
    }
}

/// The fraction of the pool that `shares` out of `supply` stand for.
pub open spec fn share_fraction(supply: nat, shares: nat) -> Option<nat> {
    checked_quotient(shares, supply)
}

/// What redeeming `shares` out of `supply` withdraws from reserves `(m, n)`:
/// the fraction `shares / supply` of each.
pub open spec fn withdrawal_amounts(
    m: nat,
    n: nat,
    supply: nat,
    shares: nat,
) -> Option<(nat, nat)> {
    match share_fraction(supply, shares) {
        Some(fraction) => match (checked_product(m, fraction), checked_product(n, fraction)) {
            (Some(amount0), Some(amount1)) => Some((amount0, amount1)),
            _ => None,
        },
        None => None,
    }
}

/// `a + b`, refused with `Overflow` where it cannot be held.
pub fn try_add(a: Amount, b: Amount) -> (r: Result<Amount, PoolError>)
    ensures
        r matches Ok(v) ==> checked_sum(a@, b@) == Some(v@),
        r matches Err(e) ==> e == PoolError::Overflow && checked_sum(a@, b@) is None,
{
    match a.checked_add(b) {
        Some(v) => Ok(v),
        None => Err(PoolError::Overflow),
    }
}

/// The fixed-point product, refused with `Overflow` where it cannot be held.
pub fn try_mul(a: Amount, b: Amount) -> (r: Result<Amount, PoolError>)
    ensures
        r matches Ok(v) ==> checked_product(a@, b@) == Some(v@),
        r matches Err(e) ==> e == PoolError::Overflow && checked_product(a@, b@) is None,
{
    match a.checked_mul(b) {
        Some(v) => Ok(v),
        None => Err(PoolError::Overflow),
    }
}

/// The fixed-point quotient, refused with `Overflow` where the divisor is zero
/// or the quotient cannot be held.
pub fn try_div(a: Amount, b: Amount) -> (r: Result<Amount, PoolError>)
    ensures
        r matches Ok(v) ==> checked_quotient(a@, b@) == Some(v@),
        r matches Err(e) ==> e == PoolError::Overflow && checked_quotient(a@, b@) is None,
{
    match a.checked_div(b) {
        Some(v) => Ok(v),
        None => Err(PoolError::Overflow),
    }
}

/// [`fee_multiplier`] on amounts. Refused with `Validation` where the fee is
/// above 100.
pub fn fee_modifier(fee: Amount) -> (r: Result<Amount, PoolError>)
    ensures
        r matches Ok(v) ==> fee@ <= hundred() && v@ == fee_multiplier(fee@),
        r matches Err(e) ==> fee@ > hundred() && e == PoolError::Validation,
{
    let full = Amount::from_units(100);
    match full.checked_sub(fee) {
        Some(kept) => Ok(kept.checked_div(full).unwrap()),
        None => Err(PoolError::Validation),
    }
}

/// [`quote_output`] on amounts. Refused with `Validation` where the fee is
/// above 100, and with `Overflow` where the formula has no value.
pub fn output_for_input(
    x: Amount,
    y: Amount,
    fee: Amount,
    dx: Amount,
) -> (r: Result<Amount, PoolError>)
    ensures
        r matches Ok(v) ==> fee@ <= hundred() && quote_output(x@, y@, fee@, dx@) == Some(v@),
        r matches Err(e) ==> (if fee@ > hundred() {
            e == PoolError::Validation
        } else {
            e == PoolError::Overflow && quote_output(x@, y@, fee@, dx@) is None
        }),
{
    let net = try_mul(dx, fee_modifier(fee)?)?;
    let numerator = try_mul(net, y)?;
    let denominator = try_add(x, net)?;
    try_div(numerator, denominator)
}

/// [`quote_input`] on amounts. Refused with `Validation` where the fee is
/// above 100, with `Liquidity` where the output is not less than the reserve
/// `y`, and with `Overflow` where the formula has no value.
pub fn input_for_output(
    x: Amount,
    y: Amount,
    fee: Amount,
    dy: Amount,
) -> (r: Result<Amount, PoolError>)
    ensures
        r matches Ok(v) ==> fee@ <= hundred() && dy@ < y@ && quote_input(x@, y@, fee@, dy@)
            == Some(v@),
        r matches Err(e) ==> (if fee@ > hundred() {
            e == PoolError::Validation
        } else if dy@ >= y@ {
            e == PoolError::Liquidity
        } else {
            e == PoolError::Overflow && quote_input(x@, y@, fee@, dy@) is None
        }),
{
    let r = fee_modifier(fee)?;
    if !dy.less_than(&y) {
        return Err(PoolError::Liquidity);
    }
    let numerator = try_mul(dy, x)?;
    let rest = y.checked_sub(dy).unwrap();
    let denominator = try_mul(r, rest)?;
    try_div(numerator, denominator)
}

/// [`deposit_amounts`] on amounts.
pub fn deposit_split(
    m: Amount,
    n: Amount,
    dm: Amount,
    dn: Amount,
) -> (r: Result<(Amount, Amount), PoolError>)
    ensures
        r matches Ok(v) ==> deposit_amounts(m@, n@, dm@, dn@) == Some((v.0@, v.1@)),
        r matches Err(e) ==> e == PoolError::Overflow && deposit_amounts(m@, n@, dm@, dn@) is None,
{
    if m.is_zero() || n.is_zero() {
        return Ok((dm, dn));
    }
    let held = try_div(m, n)?;
    let offered = try_div(dm, dn)?;
    if held.equals(&offered) {
        Ok((dm, dn))
    } else if held.less_than(&offered) {
        let scaled = try_mul(dn, m)?;
        let amount0 = try_div(scaled, n)?;
        Ok((amount0, dn))
    } else {
        let scaled = try_mul(dm, n)?;
        let amount1 = try_div(scaled, m)?;
        Ok((dm, amount1))
    }
}

/// [`minted_shares`] on amounts.
pub fn shares_for_deposit(
    m: Amount,
    n: Amount,
    supply: Amount,
    amount0: Amount,
) -> (r: Result<Amount, PoolError>)
    ensures
        r matches Ok(v) ==> minted_shares(m@, n@, supply@, amount0@) == Some(v@),
        r matches Err(e) ==> e == PoolError::Overflow && minted_shares(m@, n@, supply@, amount0@)
            is None,
{
    if m.is_zero() || n.is_zero() {
        return Ok(Amount::from_units(100));
    }
    let scaled = try_mul(amount0, supply)?;
    try_div(scaled, m)
}

/// [`withdrawal_amounts`] on amounts.
pub fn withdrawal_split(
    m: Amount,
    n: Amount,
    supply: Amount,
    shares: Amount,
) -> (r: Result<(Amount, Amount), PoolError>)
    ensures
        r matches Ok(v) ==> withdrawal_amounts(m@, n@, supply@, shares@) == Some((v.0@, v.1@)),
        r matches Err(e) ==> e == PoolError::Overflow && withdrawal_amounts(
            m@,
            n@,
            supply@,
            shares@,
        ) is None,
{
    let fraction = try_div(shares, supply)?;
    let amount0 = try_mul(m, fraction)?;
    let amount1 = try_mul(n, fraction)?;
    Ok((amount0, amount1))
}

} // verus!
