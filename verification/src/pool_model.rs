//! What a pool is and does, as a mathematical state and its transitions.
//!
//! Each operation of a pool is a function from the state before, and what the
//! caller hands in, to either the state after together with what the caller
//! gets back, or the reason for which the operation is refused. A refused
//! operation has no state after: the pool stays as it was.

use crate::amount::{checked_product, checked_sum, max_attos};
use crate::asset::{canonical_pair, lemma_bytes_order_total, precedes};
use crate::bucket::{AssetKind, BucketView};
use crate::error::PoolError;
use crate::pool_math::{
    bootstrap_shares, deposit_amounts, hundred, minted_shares, quote_input, quote_output,
    withdrawal_amounts,
};
use vstd::prelude::*;

verus! {

/// The state of a pool.
pub ghost struct PoolState {
    /// The pool's two assets, in canonical order.
    pub asset0: Seq<u8>,
    pub asset1: Seq<u8>,
    /// How much of each the pool holds.
    pub reserve0: nat,
    pub reserve1: nat,
    /// The token that stands for a share of the pool, and how much of it is
    /// outstanding.
    pub share_token: Seq<u8>,
    pub share_supply: nat,
    /// The fee taken on swaps, a percentage from 0 to 100.
    pub fee: nat,
}

/// A fungible bucket.
pub open spec fn fungible(asset: Seq<u8>, amount: nat) -> BucketView {
    BucketView { asset, kind: AssetKind::Fungible, amount }
}

/// What a swap gives: the pool after, and the output.
pub type Swapped = (PoolState, BucketView);

/// What a swap for an exact output gives: the pool after, the output, and what
/// is left of the input.
pub type SwappedExact = (PoolState, BucketView, BucketView);

/// What a deposit gives: the pool after, what is left of each bucket in the
/// canonical order of the assets, and the shares minted.
pub type Deposited = (PoolState, BucketView, BucketView, BucketView);

/// What a redemption gives: the pool after, and the withdrawal from each
/// reserve in the canonical order of the assets.
pub type Redeemed = (PoolState, BucketView, BucketView);

impl PoolState {
    /// What holds of every pool: two different assets in canonical order, a
    /// share token that is neither, a fee from 0 to 100, and quantities that
    /// can be held.
    pub open spec fn wf(self) -> bool {
        &&& precedes(self.asset0, self.asset1)
        &&& self.share_token != self.asset0
        &&& self.share_token != self.asset1
        &&& self.fee <= hundred()
        &&& self.reserve0 <= max_attos()
        &&& self.reserve1 <= max_attos()
        &&& self.share_supply <= max_attos()
    }

    /// The two assets of a pool differ.
    pub proof fn lemma_assets_differ(self)
        requires
            self.wf(),
        ensures
            self.asset0 != self.asset1,
    {
        lemma_bytes_order_total(self.asset0, self.asset1);
    }

    /// Whether `after` is the same pool as `self`, at another moment: the
    /// assets, the share token and the fee are what they were.
    pub open spec fn same_pool(self, after: PoolState) -> bool {
        &&& after.asset0 == self.asset0
        &&& after.asset1 == self.asset1
        &&& after.share_token == self.share_token
        &&& after.fee == self.fee
    }

    /// No operation changes which pool a pool is.
    pub proof fn lemma_same_pool(self, a: BucketView, b: BucketView, amount: nat)
        ensures
            self.swap(a) matches Ok(done) ==> self.same_pool(done.0),
            self.swap_exact_in(a, amount) matches Ok(done) ==> self.same_pool(done.0),
            self.swap_exact_out(a, amount) matches Ok(done) ==> self.same_pool(done.0),
            self.add_liquidity(a, b) matches Ok(done) ==> self.same_pool(done.0),
            self.remove_liquidity(a) matches Ok(done) ==> self.same_pool(done.0),
    {
    }

    /// Whether `asset` is one of the pool's two.
    pub open spec fn belongs(self, asset: Seq<u8>) -> bool {
        asset == self.asset0 || asset == self.asset1
    }

    /// The sibling of a member asset.
    pub open spec fn other(self, asset: Seq<u8>) -> Seq<u8>
        recommends
            self.belongs(asset),
    {
        if asset == self.asset0 {
            self.asset1
        } else {
            self.asset0
        }
    }

    /// The pool's reserve of a member asset.
    pub open spec fn reserve_of(self, asset: Seq<u8>) -> nat
        recommends
            self.belongs(asset),
    {
        if asset == self.asset0 {
            self.reserve0
        } else {
            self.reserve1
        }
    }

    /// The pool with the reserve of a member asset set to `amount`.
    pub open spec fn with_reserve(self, asset: Seq<u8>, amount: nat) -> PoolState
        recommends
            self.belongs(asset),
    {
        if asset == self.asset0 {
            PoolState { reserve0: amount, ..self }
        } else {
            PoolState { reserve1: amount, ..self }
        }
    }

    /// The product of the two reserves, as a fixed-point quantity.
    pub open spec fn k(self) -> Option<nat> {
        checked_product(self.reserve0, self.reserve1)
    }

    /// The pool made from two buckets, a fee and the identity of its share
    /// token, with the bootstrap shares for whoever brought the buckets.
    /// Refused as not valid where the two buckets hold one asset, either
    /// asset is not fungible, either bucket is empty, the fee is above 100,
    /// or the share token is one of the two assets.
    pub open spec fn create(
        a: BucketView,
        b: BucketView,
        fee: nat,
        share_token: Seq<u8>,
    ) -> Result<Swapped, PoolError> {
        if a.asset == b.asset || a.kind != AssetKind::Fungible || b.kind != AssetKind::Fungible
            || a.amount == 0 || b.amount == 0 || fee > hundred() || share_token == a.asset
            || share_token == b.asset {
            Err(PoolError::Validation)
        } else {
            let pair = canonical_pair(a.asset, b.asset);
            Ok(
                (
                    PoolState {
                        asset0: pair.0,
                        asset1: pair.1,
                        reserve0: if pair.0 == a.asset { a.amount } else { b.amount },
                        reserve1: if pair.0 == a.asset { b.amount } else { a.amount },
                        share_token,
                        share_supply: bootstrap_shares(),
                        fee,
                    },
                    fungible(share_token, bootstrap_shares()),
                ),
            )
        }
    }

    /// The pool that holds the given reserves of a pair of assets in canonical
    /// order, with the given shares outstanding. Refused as not valid where
    /// the fee is above 100 or the share token is one of the pair.
    pub open spec fn restored(
        pair: (Seq<u8>, Seq<u8>),
        reserve0: nat,
        reserve1: nat,
        share_token: Seq<u8>,
        share_supply: nat,
        fee: nat,
    ) -> Result<PoolState, PoolError> {
        if fee > hundred() || share_token == pair.0 || share_token == pair.1 {
            Err(PoolError::Validation)
        } else {
            Ok(
                PoolState {
                    asset0: pair.0,
                    asset1: pair.1,
                    reserve0,
                    reserve1,
                    share_token,
                    share_supply,
                    fee,
                },
            )
        }
    }

    /// The output that an input of `amount` of `asset` would buy. Refused for
    /// membership where `asset` is not one of the pool's two, and for
    /// overflow where a step of the formula has no value.
    pub open spec fn output_quote(self, asset: Seq<u8>, amount: nat) -> Result<nat, PoolError> {
        if !self.belongs(asset) {
            Err(PoolError::Membership)
        } else {
            match quote_output(
                self.reserve_of(asset),
                self.reserve_of(self.other(asset)),
                self.fee,
                amount,
            ) {
                Some(out) => Ok(out),
                None => Err(PoolError::Overflow),
            }
        }
    }

    /// The input of the sibling asset that an output of `amount` of `asset`
    /// would cost. Refused for membership where `asset` is not one of the
    /// pool's two, for liquidity where the pool does not hold more than
    /// `amount`, and for overflow where a step of the formula has no value.
    pub open spec fn input_quote(self, asset: Seq<u8>, amount: nat) -> Result<nat, PoolError> {
        if !self.belongs(asset) {
            Err(PoolError::Membership)
        } else if amount >= self.reserve_of(asset) {
            Err(PoolError::Liquidity)
        } else {
            match quote_input(
                self.reserve_of(self.other(asset)),
                self.reserve_of(asset),
                self.fee,
                amount,
            ) {
                Some(input) => Ok(input),
                None => Err(PoolError::Overflow),
            }
        }
    }

    /// The pool after `paid` of `asset` went in and `out` of its sibling went
    /// out, with the output. Refused for liquidity where the pool holds less
    /// than `out`, and for overflow where its reserve of `asset` cannot hold
    /// `paid` more.
    pub open spec fn exchange(
        self,
        asset: Seq<u8>,
        paid: nat,
        out: nat,
    ) -> Result<Swapped, PoolError>
        recommends
            self.belongs(asset),
    {
        let sibling = self.other(asset);
        if out > self.reserve_of(sibling) {
            Err(PoolError::Liquidity)
        } else {
            match checked_sum(self.reserve_of(asset), paid) {
                Some(grown) => Ok(
                    (
                        self.with_reserve(asset, grown).with_reserve(
                            sibling,
                            (self.reserve_of(sibling) - out) as nat,
                        ),
                        fungible(sibling, out),
                    ),
                ),
                None => Err(PoolError::Overflow),
            }
        }
    }

    /// Swapping a whole bucket: the output is quoted on the reserves as they
    /// are before the input goes in. Refused as the quote is, or else as the
    /// exchange is.
    pub open spec fn swap(self, input: BucketView) -> Result<Swapped, PoolError> {
        match self.output_quote(input.asset, input.amount) {
            Ok(out) => self.exchange(input.asset, input.amount, out),
            Err(e) => Err(e),
        }
    }

    /// Swapping a whole bucket for no less than `min_out`. Refused as the swap
    /// is, or else for slippage where the output is below `min_out`.
    pub open spec fn swap_exact_in(
        self,
        input: BucketView,
        min_out: nat,
    ) -> Result<Swapped, PoolError> {
        match self.swap(input) {
            Ok((after, output)) => if output.amount >= min_out {
                Ok((after, output))
            } else {
                Err(PoolError::Slippage)
            },
            Err(e) => Err(e),
        }
    }

    /// Swapping for exactly `exact_out` of the sibling asset, paid from the
    /// bucket; what the swap does not need comes back. Refused for membership
    /// where the bucket's asset is not one of the pool's two, as the quote of
    /// the input is, for liquidity where the bucket holds less than the input
    /// needed, or else as the exchange is.
    pub open spec fn swap_exact_out(
        self,
        input: BucketView,
        exact_out: nat,
    ) -> Result<SwappedExact, PoolError> {
        if !self.belongs(input.asset) {
            Err(PoolError::Membership)
        } else {
            match self.input_quote(self.other(input.asset), exact_out) {
                Ok(needed) => if input.amount < needed {
                    Err(PoolError::Liquidity)
                } else {
                    match self.exchange(input.asset, needed, exact_out) {
                        Ok((after, output)) => Ok(
                            (
                                after,
                                output,
                                BucketView { amount: (input.amount - needed) as nat, ..input },
                            ),
                        ),
                        Err(e) => Err(e),
                    }
                },
                Err(e) => Err(e),
            }
        }
    }

    /// Depositing two buckets, one of each asset, for shares. Refused for
    /// membership where the asset of either bucket is not one of the pool's
    /// two; as not valid where both hold one asset or either is empty; for
    /// overflow where the amounts accepted have no value; for liquidity where
    /// more would be accepted than a bucket holds; and for overflow where the
    /// reserves after, the shares minted or the supply after have no value.
    pub open spec fn add_liquidity(
        self,
        a: BucketView,
        b: BucketView,
    ) -> Result<Deposited, PoolError> {
        if !self.belongs(a.asset) || !self.belongs(b.asset) {
            Err(PoolError::Membership)
        } else if a.asset == b.asset || a.amount == 0 || b.amount == 0 {
            Err(PoolError::Validation)
        } else {
            let first = if a.asset == self.asset0 { a } else { b };
            let second = if a.asset == self.asset0 { b } else { a };
            match deposit_amounts(self.reserve0, self.reserve1, first.amount, second.amount) {
                Some((amount0, amount1)) => if amount0 > first.amount || amount1 > second.amount {
                    Err(PoolError::Liquidity)
                } else {
                    match (
                        checked_sum(self.reserve0, amount0),
                        checked_sum(self.reserve1, amount1),
                        minted_shares(self.reserve0, self.reserve1, self.share_supply, amount0),
                    ) {
                        (Some(reserve0), Some(reserve1), Some(shares)) => match checked_sum(
                            self.share_supply,
                            shares,
                        ) {
                            Some(share_supply) => Ok(
                                (
                                    PoolState { reserve0, reserve1, share_supply, ..self },
                                    BucketView {
                                        amount: (first.amount - amount0) as nat,
                                        ..first
                                    },
                                    BucketView {
                                        amount: (second.amount - amount1) as nat,
                                        ..second
                                    },
                                    fungible(self.share_token, shares),
                                ),
                            ),
                            None => Err(PoolError::Overflow),
                        },
                        _ => Err(PoolError::Overflow),
                    }
                },
                None => Err(PoolError::Overflow),
            }
        }
    }

    /// Redeeming a bucket of shares for its fraction of both reserves. The
    /// shares are burned whole. Refused as not valid where the bucket holds
    /// another token; for liquidity where it holds more shares than are
    /// outstanding; for overflow where the fraction or a withdrawal has no
    /// value; and for liquidity where a withdrawal is more than a reserve.
    pub open spec fn remove_liquidity(self, shares: BucketView) -> Result<Redeemed, PoolError> {
        if shares.asset != self.share_token {
            Err(PoolError::Validation)
        } else if shares.amount > self.share_supply {
            Err(PoolError::Liquidity)
        } else {
            match withdrawal_amounts(
                self.reserve0,
                self.reserve1,
                self.share_supply,
                shares.amount,
            ) {
                Some((amount0, amount1)) => if amount0 > self.reserve0 || amount1
                    > self.reserve1 {
                    Err(PoolError::Liquidity)
                } else {
                    Ok(
                        (
                            PoolState {
                                reserve0: (self.reserve0 - amount0) as nat,
                                reserve1: (self.reserve1 - amount1) as nat,
                                share_supply: (self.share_supply - shares.amount) as nat,
                                ..self
                            },
                            fungible(self.asset0, amount0),
                            fungible(self.asset1, amount1),
                        ),
                    )
                },
                None => Err(PoolError::Overflow),
            }
        }
    }
}

} // verus!
