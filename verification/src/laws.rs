//! What holds of the formulas and of the pool's operations, whatever the
//! reserves and the amounts.

use crate::amount::{max_attos, one};
use crate::bucket::BucketView;
use crate::error::PoolError;
use crate::pool_math::{
    bootstrap_shares, deposit_amounts, fee_multiplier, hundred, minted_shares, quote_input,
    quote_output,
    withdrawal_amounts,
};
use crate::pool_model::PoolState;
use crate::router_model::RouterState;
use vstd::prelude::*;

verus! {

/// A quotient rounded down, times the divisor, is at most the dividend, and
/// misses it by less than the divisor.
pub proof fn lemma_floor(a: nat, d: nat)
    requires
        d > 0,
    ensures
        (a / d) * d <= a,
        a < (a / d) * d + d,
{
    vstd::arithmetic::div_mod::lemma_fundamental_div_mod(a as int, d as int);
    vstd::arithmetic::div_mod::lemma_mod_bound(a as int, d as int);
    assert((a / d) * d == d * (a / d)) by (nonlinear_arith);
}

/// The fee multiplier of a fee from 0 to 100 is at most one, and is one where
/// the fee is zero.
pub proof fn lemma_fee_multiplier(fee: nat)
    requires
        fee <= hundred(),
    ensures
        fee_multiplier(fee) <= one(),
        fee == 0 ==> fee_multiplier(fee) == one(),
{
}

/// What is known of a quoted output `dy` for an input `dx`, with `net` the
/// input after the fee: the output valued at the reserves after the trade is
/// worth no more than the net input valued at the reserves before, and what
/// rounding gave away is less than one atto of each of the two quotients.
pub proof fn lemma_quote_output(x: nat, y: nat, fee: nat, dx: nat)
    requires
        fee <= hundred(),
        quote_output(x, y, fee, dx) is Some,
    ensures
        ({
            let net = (dx * fee_multiplier(fee)) / one();
            let dy = quote_output(x, y, fee, dx)->0;
            &&& net <= dx
            &&& net * one() <= dx * fee_multiplier(fee)
            &&& x + net > 0
            &&& dy * (x + net) <= net * y
            &&& net * y < dy * (x + net) + (x + net) + one()
            &&& dy <= y
        }),
{
    let r = fee_multiplier(fee);
    let net = (dx * r) / one();
    let numerator = (net * y) / one();
    let denominator = x + net;
    let dy = (numerator * one()) / denominator;
    lemma_fee_multiplier(fee);
    lemma_floor(dx * r, one());
    lemma_floor(net * y, one());
    lemma_floor(numerator * one(), denominator);
    assert(net <= dx) by (nonlinear_arith)
        requires
            net * one() <= dx * r,
            r <= one(),
            one() > 0,
    ;
    assert(dy <= y) by (nonlinear_arith)
        requires
            dy * denominator <= numerator * one(),
            numerator * one() <= net * y,
            net <= denominator,
            denominator > 0,
    ;
}

/// A swap never lowers the product of the reserves: with reserves `x`, `y`,
/// an input `dx` and its quoted output `dy`, `(x + dx) * (y - dy) >= x * y`.
/// Where the fee is zero the product grows by less than one whole unit and the
/// new reserve of the input asset taken together, in square attos.
pub proof fn law_constant_product(x: nat, y: nat, fee: nat, dx: nat)
    requires
        fee <= hundred(),
        quote_output(x, y, fee, dx) is Some,
    ensures
        ({
            let dy = quote_output(x, y, fee, dx)->0;
            &&& dy <= y
            &&& (x + dx) * (y - dy) >= x * y
            &&& fee == 0 ==> (x + dx) * (y - dy) < x * y + one() + x + dx
        }),
{
    let net = (dx * fee_multiplier(fee)) / one();
    let dy = quote_output(x, y, fee, dx)->0;
    lemma_quote_output(x, y, fee, dx);
    assert((x + dx) * (y - dy) >= x * y) by (nonlinear_arith)
        requires
            dy * (x + net) <= net * y,
            net <= dx,
            dy <= y,
    ;
    if fee == 0 {
        lemma_fee_multiplier(fee);
        assert(net == dx) by (nonlinear_arith)
            requires
                net == (dx * one()) / one(),
                one() > 0,
        ;
        assert((x + dx) * (y - dy) < x * y + one() + x + dx) by (nonlinear_arith)
            requires
                dx * y < dy * (x + dx) + (x + dx) + one(),
                dy <= y,
        ;
    }
}

/// Across a swap the product of the pool's reserves does not fall, and where
/// the fee is zero it grows by less than one whole unit and the new reserve of
/// the input asset taken together, in square attos.
pub proof fn law_swap_keeps_product(pool: PoolState, input: BucketView)
    requires
        pool.wf(),
        pool.swap(input) is Ok,
    ensures
        ({
            let after = pool.swap(input)->Ok_0.0;
            &&& after.reserve0 * after.reserve1 >= pool.reserve0 * pool.reserve1
            &&& pool.fee == 0 ==> after.reserve0 * after.reserve1 < pool.reserve0 * pool.reserve1
                + one() + after.reserve_of(input.asset)
        }),
{
    pool.lemma_assets_differ();
    let x = pool.reserve_of(input.asset);
    let y = pool.reserve_of(pool.other(input.asset));
    let dy = quote_output(x, y, pool.fee, input.amount)->0;
    law_constant_product(x, y, pool.fee, input.amount);
    let after = pool.swap(input)->Ok_0.0;
    if input.asset == pool.asset0 {
        assert(after.reserve0 == x + input.amount);
        assert(after.reserve1 == y - dy);
    } else {
        assert(after.reserve1 == x + input.amount);
        assert(after.reserve0 == y - dy);
        assert(after.reserve0 * after.reserve1 == (x + input.amount) * (y - dy))
            by (nonlinear_arith)
            requires
                after.reserve1 == x + input.amount,
                after.reserve0 == y - dy,
        ;
        assert(pool.reserve0 * pool.reserve1 == x * y) by (nonlinear_arith)
            requires
                pool.reserve1 == x,
                pool.reserve0 == y,
        ;
    }
}

/// Quoting an output for an input, and then the input for that output, never
/// asks for more than the first input, where the part of the remaining reserve
/// that counts after the fee, `left`, is a whole number of attos, or is at
/// least the input; with no fee it always is. Whatever `left` is, the second
/// input exceeds the first by at most the fraction `1 / left` of it.
pub proof fn law_quote_round_trip(x: nat, y: nat, fee: nat, dx: nat)
    requires
        fee <= hundred(),
        quote_output(x, y, fee, dx) is Some,
        quote_output(x, y, fee, dx)->0 < y,
        quote_input(x, y, fee, quote_output(x, y, fee, dx)->0) is Some,
    ensures
        ({
            let dy = quote_output(x, y, fee, dx)->0;
            let back = quote_input(x, y, fee, dy)->0;
            let left = (fee_multiplier(fee) * ((y - dy) as nat)) / one();
            &&& back * left <= dx * left + dx
            &&& (fee_multiplier(fee) * ((y - dy) as nat)) % one() == 0 ==> back <= dx
            &&& dx <= left ==> back <= dx
            &&& fee == 0 ==> back <= dx
        }),
{
    let r = fee_multiplier(fee);
    let net = (dx * r) / one();
    let dy = quote_output(x, y, fee, dx)->0;
    let rest = (y - dy) as nat;
    let numerator = (dy * x) / one();
    let left = (r * rest) / one();
    let back = (numerator * one()) / left;
    lemma_quote_output(x, y, fee, dx);
    lemma_fee_multiplier(fee);
    lemma_floor(dy * x, one());
    lemma_floor(r * rest, one());
    lemma_floor(numerator * one(), left);
    assert(dy * x <= net * rest) by (nonlinear_arith)
        requires
            dy * (x + net) <= net * y,
            rest == y - dy,
    ;
    assert(back * left * one() <= dx * (r * rest)) by (nonlinear_arith)
        requires
            back * left <= numerator * one(),
            numerator * one() <= dy * x,
            dy * x <= net * rest,
            net * one() <= dx * r,
    ;
    assert(back * left <= dx * left + dx) by (nonlinear_arith)
        requires
            back * left * one() <= dx * (r * rest),
            r * rest < left * one() + one(),
            one() > 0,
    ;
    if (r * rest) % one() == 0 {
        vstd::arithmetic::div_mod::lemma_fundamental_div_mod((r * rest) as int, one() as int);
        assert(back <= dx) by (nonlinear_arith)
            requires
                back * left * one() <= dx * (r * rest),
                r * rest == one() * left,
                one() > 0,
                left > 0,
        ;
    }
    if dx <= left {
        if dx == 0 {
            assert(net == 0);
            assert(dy * x == 0) by (nonlinear_arith)
                requires
                    dy * x <= net * rest,
                    net == 0,
            ;
            assert(numerator == 0);
            assert(back == 0) by (nonlinear_arith)
                requires
                    back * left <= numerator * one(),
                    numerator == 0,
                    left > 0,
            ;
        } else {
            assert(back <= dx) by (nonlinear_arith)
                requires
                    back * left * one() <= dx * (r * rest),
                    r * rest < left * one() + one(),
                    one() > 0,
                    0 < dx <= left,
            ;
        }
    }
    if fee == 0 {
        assert(r * rest == one() * rest) by (nonlinear_arith)
            requires
                r == one(),
        ;
        assert((r * rest) % one() == 0) by {
            vstd::arithmetic::div_mod::lemma_mod_multiples_basic(rest as int, one() as int);
            assert(one() * rest == rest * one()) by (nonlinear_arith);
        }
    }
}

/// For a pool: the input quoted for the output that an input was quoted, is
/// no more than that input, under the conditions of
/// [`law_quote_round_trip`].
pub proof fn law_pool_quote_round_trip(pool: PoolState, asset: Seq<u8>, dx: nat)
    requires
        pool.wf(),
        pool.output_quote(asset, dx) is Ok,
        pool.input_quote(pool.other(asset), pool.output_quote(asset, dx)->Ok_0) is Ok,
    ensures
        ({
            let dy = pool.output_quote(asset, dx)->Ok_0;
            let back = pool.input_quote(pool.other(asset), dy)->Ok_0;
            let left = (fee_multiplier(pool.fee) * ((pool.reserve_of(pool.other(asset))
                - dy) as nat)) / one();
            &&& back * left <= dx * left + dx
            &&& dx <= left || pool.fee == 0 ==> back <= dx
        }),
{
    pool.lemma_assets_differ();
    law_quote_round_trip(
        pool.reserve_of(asset),
        pool.reserve_of(pool.other(asset)),
        pool.fee,
        dx,
    );
}

/// A swap for an exact output lowers the product of the reserves by less than
/// rounding can account for: with reserves `x`, `y`, an output `dy` below `y`
/// and its quoted input `dx`, `(x + dx) * (y - dy)` is above `x * y` less one
/// whole unit and the new reserve of the output asset taken together, in
/// square attos. The quoted input is rounded down, so that the product can
/// fall that far where the fee does not make up for it.
pub proof fn law_exact_output_product(x: nat, y: nat, fee: nat, dy: nat)
    requires
        fee <= hundred(),
        dy < y,
        quote_input(x, y, fee, dy) is Some,
    ensures
        ({
            let dx = quote_input(x, y, fee, dy)->0;
            (x + dx) * (y - dy) + one() + (y - dy) > x * y
        }),
{
    let r = fee_multiplier(fee);
    let rest = (y - dy) as nat;
    let numerator = (dy * x) / one();
    let left = (r * rest) / one();
    let dx = (numerator * one()) / left;
    lemma_fee_multiplier(fee);
    lemma_floor(dy * x, one());
    lemma_floor(r * rest, one());
    lemma_floor(numerator * one(), left);
    assert(left <= rest) by (nonlinear_arith)
        requires
            left * one() <= r * rest,
            r <= one(),
            one() > 0,
    ;
    assert(dx * rest + one() + rest > dy * x) by (nonlinear_arith)
        requires
            numerator * one() < dx * left + left,
            dy * x < numerator * one() + one(),
            left <= rest,
    ;
    assert((x + dx) * (y - dy) + one() + (y - dy) > x * y) by (nonlinear_arith)
        requires
            dx * rest + one() + rest > dy * x,
            rest == y - dy,
    ;
}

/// Across a swap for an exact output the product of the pool's reserves
/// stays above what it was less one whole unit and the new reserve of the
/// output asset taken together, in square attos.
pub proof fn law_swap_exact_out_keeps_product(pool: PoolState, input: BucketView, exact_out: nat)
    requires
        pool.wf(),
        pool.swap_exact_out(input, exact_out) is Ok,
    ensures
        ({
            let after = pool.swap_exact_out(input, exact_out)->Ok_0.0;
            after.reserve0 * after.reserve1 + one() + after.reserve_of(pool.other(input.asset))
                > pool.reserve0 * pool.reserve1
        }),
{
    pool.lemma_assets_differ();
    let x = pool.reserve_of(input.asset);
    let y = pool.reserve_of(pool.other(input.asset));
    let dx = quote_input(x, y, pool.fee, exact_out)->0;
    law_exact_output_product(x, y, pool.fee, exact_out);
    let after = pool.swap_exact_out(input, exact_out)->Ok_0.0;
    if input.asset == pool.asset0 {
        assert(after.reserve0 == x + dx);
        assert(after.reserve1 == y - exact_out);
    } else {
        assert(after.reserve1 == x + dx);
        assert(after.reserve0 == y - exact_out);
        assert(after.reserve0 * after.reserve1 == (x + dx) * (y - exact_out)) by (nonlinear_arith)
            requires
                after.reserve1 == x + dx,
                after.reserve0 == y - exact_out,
        ;
        assert(pool.reserve0 * pool.reserve1 == x * y) by (nonlinear_arith)
            requires
                pool.reserve1 == x,
                pool.reserve0 == y,
        ;
    }
}

/// A quoted output is never more than the pool holds, so that a swap is never
/// refused for want of liquidity.
pub proof fn law_swap_never_wants_liquidity(pool: PoolState, input: BucketView)
    requires
        pool.wf(),
    ensures
        pool.swap(input) != Err::<(PoolState, BucketView), PoolError>(PoolError::Liquidity),
{
    if pool.belongs(input.asset) {
        let x = pool.reserve_of(input.asset);
        let y = pool.reserve_of(pool.other(input.asset));
        if quote_output(x, y, pool.fee, input.amount) is Some {
            lemma_quote_output(x, y, pool.fee, input.amount);
        }
    }
}

/// What a pool that holds something of both assets accepts of an offer is
/// never more than the offer, takes one side of it whole, and is in the
/// pool's ratio as far as rounding allows: the two amounts, each valued at the
/// other reserve, differ by less than the rounding of the two steps that made
/// them.
pub proof fn law_deposit_follows_ratio(m: nat, n: nat, dm: nat, dn: nat)
    requires
        m > 0,
        n > 0,
        deposit_amounts(m, n, dm, dn) is Some,
    ensures
        ({
            let (amount0, amount1) = deposit_amounts(m, n, dm, dn)->0;
            let held = (m * one()) / n;
            let offered = (dm * one()) / dn;
            &&& amount0 <= dm
            &&& amount1 <= dn
            &&& amount0 == dm || amount1 == dn
            &&& held < offered ==> amount0 * n <= amount1 * m < amount0 * n + n + one()
            &&& held > offered ==> amount1 * m <= amount0 * n < amount1 * m + m + one()
            &&& held == offered ==> (amount0 * n - amount1 * m) * one() < amount1 * n && (amount1
                * m - amount0 * n) * one() < amount1 * n
        }),
{
    let (amount0, amount1) = deposit_amounts(m, n, dm, dn)->0;
    let held = (m * one()) / n;
    let offered = (dm * one()) / dn;
    assert(dn > 0);
    lemma_floor(m * one(), n);
    lemma_floor(dm * one(), dn);
    if held == offered {
        assert((dm * n - dn * m) * one() < dn * n && (dn * m - dm * n) * one() < dn * n)
            by (nonlinear_arith)
            requires
                held * n <= m * one(),
                m * one() < held * n + n,
                held * dn <= dm * one(),
                dm * one() < held * dn + dn,
                n > 0,
                dn > 0,
        ;
    } else if held < offered {
        let scaled = (dn * m) / one();
        lemma_floor(dn * m, one());
        lemma_floor(scaled * one(), n);
        assert(m * dn < dm * n) by (nonlinear_arith)
            requires
                m * one() < held * n + n,
                offered * dn <= dm * one(),
                held + 1 <= offered,
                n > 0,
                dn > 0,
                one() > 0,
        ;
        assert(amount0 < dm) by (nonlinear_arith)
            requires
                amount0 * n <= scaled * one(),
                scaled * one() <= dn * m,
                m * dn < dm * n,
                n > 0,
        ;
        assert(amount1 * m == dn * m);
    } else {
        let scaled = (dm * n) / one();
        lemma_floor(dm * n, one());
        lemma_floor(scaled * one(), m);
        assert(dm * n < m * dn) by (nonlinear_arith)
            requires
                dm * one() < offered * dn + dn,
                held * n <= m * one(),
                offered + 1 <= held,
                n > 0,
                dn > 0,
                one() > 0,
        ;
        assert(amount1 < dn) by (nonlinear_arith)
            requires
                amount1 * m <= scaled * one(),
                scaled * one() <= dm * n,
                dm * n < m * dn,
                m > 0,
        ;
        assert(amount0 * n == dm * n);
    }
}

/// Depositing `(amount0, amount1)` into a pool that holds `(m, n)`, both
/// positive, and then redeeming exactly the shares that the deposit minted,
/// withdraws no more of the first asset than was deposited, and of the second
/// no more than the greater of what was deposited and what the deposit of the
/// first is worth at the pool's ratio.
pub proof fn law_redeeming_a_deposit(m: nat, n: nat, supply: nat, amount0: nat, amount1: nat)
    requires
        m > 0,
        n > 0,
        minted_shares(m, n, supply, amount0) is Some,
        withdrawal_amounts(
            m + amount0,
            n + amount1,
            supply + minted_shares(m, n, supply, amount0)->0,
            minted_shares(m, n, supply, amount0)->0,
        ) is Some,
    ensures
        ({
            let shares = minted_shares(m, n, supply, amount0)->0;
            let (out0, out1) = withdrawal_amounts(
                m + amount0,
                n + amount1,
                supply + shares,
                shares,
            )->0;
            &&& out0 <= amount0
            &&& out1 * m <= amount1 * m || out1 * m <= amount0 * n
            &&& amount0 * n <= amount1 * m ==> out1 <= amount1
        }),
{
    let shares = minted_shares(m, n, supply, amount0)->0;
    let total = supply + shares;
    let (out0, out1) = withdrawal_amounts(m + amount0, n + amount1, total, shares)->0;
    let scaled = (amount0 * supply) / one();
    let fraction = (shares * one()) / total;
    assert(total > 0);
    lemma_floor(amount0 * supply, one());
    lemma_floor(scaled * one(), m);
    lemma_floor(shares * one(), total);
    lemma_floor((m + amount0) * fraction, one());
    lemma_floor((n + amount1) * fraction, one());
    assert(shares * m <= amount0 * supply);
    assert(out0 * total <= (m + amount0) * shares) by (nonlinear_arith)
        requires
            out0 * one() <= (m + amount0) * fraction,
            fraction * total <= shares * one(),
            one() > 0,
    ;
    assert(out1 * total <= (n + amount1) * shares) by (nonlinear_arith)
        requires
            out1 * one() <= (n + amount1) * fraction,
            fraction * total <= shares * one(),
            one() > 0,
    ;
    assert(out0 <= amount0) by (nonlinear_arith)
        requires
            out0 * total <= (m + amount0) * shares,
            shares * m <= amount0 * supply,
            total == supply + shares,
            total > 0,
    ;
    let greater = if amount1 * m >= amount0 * n {
        amount1 * m
    } else {
        amount0 * n
    };
    assert(out1 * m * total <= greater * total) by (nonlinear_arith)
        requires
            out1 * total <= (n + amount1) * shares,
            shares * m <= amount0 * supply,
            total == supply + shares,
            amount0 * n <= greater,
            amount1 * m <= greater,
    ;
    assert(out1 * m <= greater) by (nonlinear_arith)
        requires
            out1 * m * total <= greater * total,
            total > 0,
    ;
    if amount0 * n <= amount1 * m {
        assert(out1 <= amount1) by (nonlinear_arith)
            requires
                out1 * m <= amount1 * m,
                m > 0,
        ;
    }
}

/// Depositing `(amount0, amount1)` into a pool that holds `(m, n)`, both
/// positive, and then redeeming exactly the shares that the deposit minted,
/// withdraws all of the deposit but for what the four roundings on the way
/// take: with `total` the shares outstanding after the deposit, `one` the
/// attos of a whole unit and `gap` what the deposit of the second asset is
/// worth above the deposit of the first at the pool's ratio,
///
/// - `amount0 - out0 < (one + m) / total + (m + amount0) / one + 1`, and
/// - `amount1 - out1 < (gap * supply / m + n * (one + m) / m) / total
///   + (n + amount1) / one + 1`,
///
/// stated here without the divisions.
pub proof fn law_redeeming_a_deposit_loses_little(
    m: nat,
    n: nat,
    supply: nat,
    amount0: nat,
    amount1: nat,
)
    requires
        m > 0,
        n > 0,
        minted_shares(m, n, supply, amount0) is Some,
        withdrawal_amounts(
            m + amount0,
            n + amount1,
            supply + minted_shares(m, n, supply, amount0)->0,
            minted_shares(m, n, supply, amount0)->0,
        ) is Some,
    ensures
        ({
            let shares = minted_shares(m, n, supply, amount0)->0;
            let total = supply + shares;
            let (out0, out1) = withdrawal_amounts(m + amount0, n + amount1, total, shares)->0;
            let gap = if amount1 * m > amount0 * n {
                amount1 * m - amount0 * n
            } else {
                0
            };
            &&& (amount0 - out0) * one() * total < (one() + m) * one() + total * (m + amount0
                + one())
            &&& (amount1 - out1) * one() * total * m < (gap * supply + n * (one() + m)) * one()
                + (n + amount1 + one()) * total * m
        }),
{
    let shares = minted_shares(m, n, supply, amount0)->0;
    let total = supply + shares;
    let (out0, out1) = withdrawal_amounts(m + amount0, n + amount1, total, shares)->0;
    let scaled = (amount0 * supply) / one();
    let fraction = (shares * one()) / total;
    let held0 = m + amount0;
    let held1 = n + amount1;
    let gap: int = if amount1 * m > amount0 * n {
        amount1 * m - amount0 * n
    } else {
        0
    };
    assert(total > 0);
    lemma_floor(amount0 * supply, one());
    lemma_floor(scaled * one(), m);
    lemma_floor(shares * one(), total);
    lemma_floor(held0 * fraction, one());
    lemma_floor(held1 * fraction, one());
    // The shares minted fall short of the deposit's exact claim by less than
    // the two roundings of the mint.
    assert(shares * m + m + one() > amount0 * supply);
    // The first asset.
    assert(out0 * one() * total + one() * total > held0 * shares * one() - held0 * total)
        by (nonlinear_arith)
        requires
            out0 * one() + one() > held0 * fraction,
            fraction * total + total > shares * one(),
            total > 0,
            held0 > 0,
    ;
    assert(held0 * shares + one() + m > amount0 * total) by (nonlinear_arith)
        requires
            shares * m + m + one() > amount0 * supply,
            held0 == m + amount0,
            total == supply + shares,
    ;
    assert((amount0 - out0) * one() * total < (one() + m) * one() + total * (m + amount0 + one()))
        by (nonlinear_arith)
        requires
            out0 * one() * total + one() * total > held0 * shares * one() - held0 * total,
            held0 * shares + one() + m > amount0 * total,
            held0 == m + amount0,
            one() > 0,
    ;
    // The second asset.
    assert(out1 * one() * total + one() * total > held1 * shares * one() - held1 * total)
        by (nonlinear_arith)
        requires
            out1 * one() + one() > held1 * fraction,
            fraction * total + total > shares * one(),
            total > 0,
            held1 > 0,
    ;
    let claim = shares * m;
    let worth0 = amount0 * n;
    let worth1 = amount1 * m;
    assert(n * claim + n * (one() + m) > worth0 * supply) by (nonlinear_arith)
        requires
            claim + m + one() > amount0 * supply,
            worth0 == amount0 * n,
            n > 0,
    ;
    assert(worth0 * supply + gap * supply >= worth1 * supply) by (nonlinear_arith)
        requires
            worth0 + gap >= worth1,
    ;
    assert(held1 * shares * m == n * claim + worth1 * shares) by (nonlinear_arith)
        requires
            held1 == n + amount1,
            claim == shares * m,
            worth1 == amount1 * m,
    ;
    assert(amount1 * m * total == worth1 * supply + worth1 * shares) by (nonlinear_arith)
        requires
            worth1 == amount1 * m,
            total == supply + shares,
    ;
    assert(held1 * shares * m + gap * supply + n * (one() + m) > amount1 * m * total);
    assert((amount1 - out1) * one() * total * m < (gap * supply + n * (one() + m)) * one() + (n
        + amount1 + one()) * total * m) by (nonlinear_arith)
        requires
            out1 * one() * total + one() * total > held1 * shares * one() - held1 * total,
            held1 * shares * m + gap * supply + n * (one() + m) > amount1 * m * total,
            held1 == n + amount1,
            one() > 0,
            m > 0,
    ;
}

/// A deposit into a pool that holds something of both assets, followed by
/// the redemption of exactly the shares it minted, leaves the pool within
/// rounding of where it was:
///
/// - as many shares are outstanding as before;
/// - the pool holds no less of the first asset than before, and no more than
///   before but for what [`law_redeeming_a_deposit_loses_little`] allows;
/// - the pool holds no less of the second asset than before, but for what
///   the deposit of the first was worth above the deposit of the second at
///   the pool's ratio, and no more than before but for what the same law
///   allows.
pub proof fn law_deposit_then_redeem(pool: PoolState, a: BucketView, b: BucketView)
    requires
        pool.wf(),
        pool.reserve0 > 0,
        pool.reserve1 > 0,
        pool.add_liquidity(a, b) is Ok,
        pool.add_liquidity(a, b)->Ok_0.0.remove_liquidity(pool.add_liquidity(a, b)->Ok_0.3) is Ok,
    ensures
        ({
            let (funded, rest0, rest1, shares) = pool.add_liquidity(a, b)->Ok_0;
            let (after, out0, out1) = funded.remove_liquidity(shares)->Ok_0;
            let m = pool.reserve0;
            let n = pool.reserve1;
            let amount0 = funded.reserve0 - m;
            let amount1 = funded.reserve1 - n;
            let total = funded.share_supply;
            let gap = if amount1 * m > amount0 * n {
                amount1 * m - amount0 * n
            } else {
                0
            };
            &&& after.share_supply == pool.share_supply
            &&& after.reserve0 >= m
            &&& (after.reserve0 - m) * one() * total < (one() + m) * one() + total * (
            funded.reserve0 + one())
            &&& after.reserve1 >= n || (n - after.reserve1) * m <= amount0 * n - amount1 * m
            &&& (after.reserve1 - n) * one() * total * m < (gap * pool.share_supply + n * (one()
                + m)) * one() + (funded.reserve1 + one()) * total * m
        }),
{
    let (funded, rest0, rest1, shares) = pool.add_liquidity(a, b)->Ok_0;
    let (after, out0, out1) = funded.remove_liquidity(shares)->Ok_0;
    let m = pool.reserve0;
    let n = pool.reserve1;
    let amount0 = (funded.reserve0 - m) as nat;
    let amount1 = (funded.reserve1 - n) as nat;
    law_redeeming_a_deposit(m, n, pool.share_supply, amount0, amount1);
    law_redeeming_a_deposit_loses_little(m, n, pool.share_supply, amount0, amount1);
    let o1 = out1.amount;
    assert(after.reserve0 - m == amount0 - out0.amount);
    assert(after.reserve1 - n == amount1 - o1);
    if o1 * m <= amount1 * m {
        assert(o1 <= amount1) by (nonlinear_arith)
            requires
                o1 * m <= amount1 * m,
                m > 0,
        ;
    } else {
        assert((n - after.reserve1) * m <= amount0 * n - amount1 * m) by (nonlinear_arith)
            requires
                o1 * m <= amount0 * n,
                after.reserve1 == n + amount1 - o1,
        ;
    }
}

/// A deposit into a pool that holds nothing and has no shares outstanding,
/// followed by the redemption of the shares it minted, leaves the pool as it
/// was and gives back exactly what was deposited.
pub proof fn law_bootstrap_then_redeem(pool: PoolState, a: BucketView, b: BucketView)
    requires
        pool.wf(),
        pool.reserve0 == 0,
        pool.reserve1 == 0,
        pool.share_supply == 0,
        pool.add_liquidity(a, b) is Ok,
    ensures
        ({
            let (funded, rest0, rest1, shares) = pool.add_liquidity(a, b)->Ok_0;
            &&& rest0.amount == 0
            &&& rest1.amount == 0
            &&& funded.remove_liquidity(shares) is Ok
            &&& funded.remove_liquidity(shares)->Ok_0.0 == pool
            &&& funded.remove_liquidity(shares)->Ok_0.1.amount + funded.remove_liquidity(
                shares,
            )->Ok_0.2.amount == a.amount + b.amount
        }),
{
    let (funded, rest0, rest1, shares) = pool.add_liquidity(a, b)->Ok_0;
    let full = shares.amount;
    assert(full == hundred());
    assert((full * one()) / full == one());
    assert((funded.reserve0 * one()) / one() == funded.reserve0);
    assert((funded.reserve1 * one()) / one() == funded.reserve1);
}

/// Neither a deposit nor a redemption of shares that are outstanding is ever
/// refused for want of liquidity: a pool that holds something of both assets
/// never asks more of a bucket than it holds, and a redemption never
/// withdraws more than a reserve.
pub proof fn law_liquidity_suffices(pool: PoolState, a: BucketView, b: BucketView)
    requires
        pool.wf(),
    ensures
        pool.add_liquidity(a, b) != Err::<
            (PoolState, BucketView, BucketView, BucketView),
            PoolError,
        >(PoolError::Liquidity),
        pool.remove_liquidity(a) == Err::<(PoolState, BucketView, BucketView), PoolError>(
            PoolError::Liquidity,
        ) <==> a.asset == pool.share_token && a.amount > pool.share_supply,
{
    pool.lemma_assets_differ();
    if pool.belongs(a.asset) && pool.belongs(b.asset) && a.asset != b.asset && a.amount != 0
        && b.amount != 0 {
        let first = if a.asset == pool.asset0 {
            a
        } else {
            b
        };
        let second = if a.asset == pool.asset0 {
            b
        } else {
            a
        };
        if pool.reserve0 > 0 && pool.reserve1 > 0 && deposit_amounts(
            pool.reserve0,
            pool.reserve1,
            first.amount,
            second.amount,
        ) is Some {
            law_deposit_follows_ratio(pool.reserve0, pool.reserve1, first.amount, second.amount);
        }
    }
    if a.asset == pool.share_token && a.amount <= pool.share_supply {
        let m = pool.reserve0;
        let n = pool.reserve1;
        if withdrawal_amounts(m, n, pool.share_supply, a.amount) is Some {
            let fraction = (a.amount * one()) / pool.share_supply;
            let (out0, out1) = withdrawal_amounts(m, n, pool.share_supply, a.amount)->0;
            lemma_floor(a.amount * one(), pool.share_supply);
            lemma_floor(m * fraction, one());
            lemma_floor(n * fraction, one());
            assert(fraction <= one()) by (nonlinear_arith)
                requires
                    fraction * pool.share_supply <= a.amount * one(),
                    a.amount <= pool.share_supply,
                    pool.share_supply > 0,
            ;
            assert(out0 <= m) by (nonlinear_arith)
                requires
                    out0 * one() <= m * fraction,
                    fraction <= one(),
                    one() > 0,
            ;
            assert(out1 <= n) by (nonlinear_arith)
                requires
                    out1 * one() <= n * fraction,
                    fraction <= one(),
                    one() > 0,
            ;
        }
    }
}

/// Every operation leaves a well-formed pool well formed, and the same pool:
/// its assets, its share token and its fee never change.
pub proof fn law_pool_stays_well_formed(
    pool: PoolState,
    a: BucketView,
    b: BucketView,
    amount: nat,
)
    requires
        pool.wf(),
    ensures
        pool.swap(a) matches Ok(done) ==> done.0.wf() && pool.same_pool(done.0),
        pool.swap_exact_in(a, amount) matches Ok(done) ==> done.0.wf() && pool.same_pool(done.0),
        pool.swap_exact_out(a, amount) matches Ok(done) ==> done.0.wf() && pool.same_pool(
            done.0,
        ),
        pool.add_liquidity(a, b) matches Ok(done) ==> done.0.wf() && pool.same_pool(done.0),
        pool.remove_liquidity(a) matches Ok(done) ==> done.0.wf() && pool.same_pool(done.0),
{
    pool.lemma_assets_differ();
    pool.lemma_same_pool(a, b, amount);
}

/// A pool made from two buckets is well formed, holds exactly the two
/// buckets, and has the bootstrap shares outstanding; from two buckets of one
/// asset no pool is made.
pub proof fn law_created_pool(a: BucketView, b: BucketView, fee: nat, share_token: Seq<u8>)
    requires
        a.amount <= max_attos(),
        b.amount <= max_attos(),
    ensures
        a.asset == b.asset ==> PoolState::create(a, b, fee, share_token) == Err::<
            (PoolState, BucketView),
            PoolError,
        >(PoolError::Validation),
        PoolState::create(a, b, fee, share_token) matches Ok(made) ==> {
            &&& made.0.wf()
            &&& made.0.reserve_of(a.asset) == a.amount
            &&& made.0.reserve_of(b.asset) == b.amount
            &&& made.0.share_supply == bootstrap_shares()
            &&& made.1.amount == bootstrap_shares()
            &&& made.1.asset == share_token
        },
{
    crate::asset::lemma_bytes_order_total(a.asset, b.asset);
}

/// A swap that would give less than the minimum asked for is refused for
/// slippage, and shares of another token are refused as not valid.
pub proof fn law_refusals(pool: PoolState, input: BucketView, min_out: nat)
    requires
        pool.wf(),
    ensures
        pool.swap(input) matches Ok(done) && done.1.amount < min_out ==> pool.swap_exact_in(
            input,
            min_out,
        ) == Err::<(PoolState, BucketView), PoolError>(PoolError::Slippage),
        pool.swap(input) matches Ok(done) && done.1.amount >= min_out ==> pool.swap_exact_in(
            input,
            min_out,
        ) == pool.swap(input),
        input.asset != pool.share_token ==> pool.remove_liquidity(input) == Err::<
            (PoolState, BucketView, BucketView),
            PoolError,
        >(PoolError::Validation),
{
}

/// No operation of the router removes a pool or changes which pool stands
/// where: after any of them every pool that was registered is still there,
/// the same pool in the same place, and the router is still well formed.
pub proof fn law_router_keeps_its_pools(
    router: RouterState,
    a: BucketView,
    b: BucketView,
    token: Seq<u8>,
    amount: nat,
)
    requires
        router.wf(),
        a.amount <= max_attos(),
        b.amount <= max_attos(),
    ensures
        router.new_liquidity_pool(a, b, token) matches Ok(done) ==> done.0.wf() && router.kept_by(
            done.0,
        ),
        router.add_liquidity(a, b, token) matches Ok(done) ==> done.0.wf() && router.kept_by(
            done.0,
        ),
        router.remove_liquidity(a) matches Ok(done) ==> done.0.wf() && router.kept_by(done.0),
        router.swap(a, token) matches Ok(done) ==> done.0.wf() && router.kept_by(done.0),
        router.swap_exact_in(a, token, amount) matches Ok(done) ==> done.0.wf() && router.kept_by(
            done.0,
        ),
        router.swap_exact_out(a, token, amount) matches Ok(done) ==> done.0.wf()
            && router.kept_by(done.0),
{
    if router.new_liquidity_pool(a, b, token) is Ok {
        let pool = PoolState::create(a, b, crate::router_model::default_fee(), token)->Ok_0.0;
        law_created_pool(a, b, crate::router_model::default_fee(), token);
        crate::asset::lemma_bytes_order_total(a.asset, b.asset);
        crate::asset::lemma_bytes_order_total(pool.asset0, pool.asset1);
        router.lemma_registered(pool);
    }
    if router.position(a.asset, b.asset) is Some {
        let i = router.position(a.asset, b.asset)->0;
        law_pool_stays_well_formed(router.pools[i], a, b, amount);
        if router.pools[i].add_liquidity(a, b) is Ok {
            router.lemma_replaced(i, router.pools[i].add_liquidity(a, b)->Ok_0.0);
        }
    }
    if router.position_of_token(a.asset) is Some {
        let i = router.position_of_token(a.asset)->0;
        law_pool_stays_well_formed(router.pools[i], a, b, amount);
        if router.pools[i].remove_liquidity(a) is Ok {
            router.lemma_replaced(i, router.pools[i].remove_liquidity(a)->Ok_0.0);
        }
    }
    if router.position(a.asset, token) is Some {
        let i = router.position(a.asset, token)->0;
        law_pool_stays_well_formed(router.pools[i], a, b, amount);
        if router.pools[i].swap(a) is Ok {
            router.lemma_replaced(i, router.pools[i].swap(a)->Ok_0.0);
        }
        if router.pools[i].swap_exact_in(a, amount) is Ok {
            router.lemma_replaced(i, router.pools[i].swap_exact_in(a, amount)->Ok_0.0);
        }
        if router.pools[i].swap_exact_out(a, amount) is Ok {
            router.lemma_replaced(i, router.pools[i].swap_exact_out(a, amount)->Ok_0.0);
        }
    }
}

} // verus!
