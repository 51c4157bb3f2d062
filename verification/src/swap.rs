//! The router: the registry of pools, one for each unordered pair of assets,
//! through which every pool is reached by the assets it trades.

use crate::amount::Amount;
use crate::asset::{canonical_pair, lemma_bytes_order_total, AssetId, PairKey};
use crate::bucket::{Bucket, BucketView};
use crate::error::PoolError;
use crate::liquidity_pool::LiquidityPool;
use crate::router_model::{
    Registered, RoutedDeposit, RoutedRedemption, RoutedSwap, RoutedSwapExact, RouterState,
};
use crate::symbol::{pair_symbol, pair_symbol_text, text_of};
use vstd::prelude::*;

verus! {

/// What a bucket that may be missing holds.
pub open spec fn views(bucket: Option<Bucket>) -> Option<BucketView> {
    match bucket {
        Some(b) => Some(b@),
        None => None,
    }
}

/// Which pair a share token belongs to.
#[derive(Debug)]
struct ShareRecord {
    token: AssetId,
    pair: PairKey,
}

/// The registry of pools. It holds the pools by their pair, and for each share
/// token the pair of the pool that issued it.
#[derive(Debug)]
pub struct ElisionSwap {
    liquidity_pools: Vec<LiquidityPool>,
    address_pair_map: Vec<ShareRecord>,
}

impl View for ElisionSwap {
    type V = RouterState;

    closed spec fn view(&self) -> RouterState {
        RouterState {
            pools: Seq::new(self.liquidity_pools@.len(), |i: int| self.liquidity_pools@[i]@),
        }
    }
}

impl ElisionSwap {
    /// What every operation keeps true of a router: what holds of its state,
    /// and that the record of each share token names the pair of the pool
    /// that issued it.
    pub closed spec fn wf(&self) -> bool {
        &&& self@.wf()
        &&& self.address_pair_map@.len() == self.liquidity_pools@.len()
        &&& forall|i: int|
            0 <= i < self.liquidity_pools@.len() ==> {
                &&& (#[trigger] self.address_pair_map@[i]).token@
                    == self.liquidity_pools@[i]@.share_token
                &&& self.address_pair_map@[i].pair@ == (
                    self.liquidity_pools@[i]@.asset0,
                    self.liquidity_pools@[i]@.asset1,
                )
            }
    }

    /// A well-formed router has a well-formed state.
    pub proof fn law_well_formed_state(&self)
        requires
            self.wf(),
        ensures
            self@.wf(),
    {
    }

    /// Replacing a pool by the same pool at another moment keeps the router
    /// well formed, and changes its state at that one place only.
    proof fn lemma_pool_updated(before: ElisionSwap, after: ElisionSwap, i: int)
        requires
            before.wf(),
            0 <= i < before.liquidity_pools@.len(),
            after.address_pair_map@ == before.address_pair_map@,
            after.liquidity_pools@ == before.liquidity_pools@.update(i, after.liquidity_pools@[i]),
            after.liquidity_pools@[i]@.wf(),
            before.liquidity_pools@[i]@.same_pool(after.liquidity_pools@[i]@),
        ensures
            after.wf(),
            after@ == before@.with_pool(i, after.liquidity_pools@[i]@),
            after.liquidity_pools@[i]@ == before.liquidity_pools@[i]@ ==> after@ == before@,
    {
        assert(after@.pools =~= before@.pools.update(i, after.liquidity_pools@[i]@));
        if after.liquidity_pools@[i]@ == before.liquidity_pools@[i]@ {
            assert(after@.pools =~= before@.pools);
        }
        before@.lemma_replaced(i, after.liquidity_pools@[i]@);
    }

    /// A router with no pools.
    pub fn new() -> (r: ElisionSwap)
        ensures
            r.wf(),
            r@.pools.len() == 0,
    {
        ElisionSwap { liquidity_pools: Vec::new(), address_pair_map: Vec::new() }
    }

    /// How many pools are registered.
    pub fn pool_count(&self) -> (r: usize)
        ensures
            r == self@.pools.len(),
    {
        self.liquidity_pools.len()
    }

    /// Where the pool of the unordered pair is, if there is one.
    fn find_pool(&self, address0: &AssetId, address1: &AssetId) -> (r: Option<usize>)
        requires
            self.wf(),
        ensures
            r matches Some(i) ==> self@.position(address0@, address1@) == Some(i as int) && i
                < self.liquidity_pools@.len(),
            r is None ==> self@.position(address0@, address1@) is None,
    {
        let (first, second) = if address0.comes_before(address1) {
            (address0, address1)
        } else {
            (address1, address0)
        };
        let mut i: usize = 0;
        while i < self.liquidity_pools.len()
            invariant
                self.wf(),
                i <= self.liquidity_pools@.len(),
                (first@, second@) == canonical_pair(address0@, address1@),
                forall|j: int| 0 <= j < i ==> !self@.trades(j, first@, second@),
            decreases self.liquidity_pools@.len() - i,
        {
            let pair = self.liquidity_pools[i].pair();
            if pair.first().same_as(first) && pair.second().same_as(second) {
                proof {
                    assert(self@.trades(i as int, first@, second@));
                    self@.lemma_position_unique(i as int, address0@, address1@);
                }
                return Some(i);
            }
            i += 1;
        }
        None
    }

    /// Where the pool that issued `token` is, if there is one: the record of
    /// the token names the pair, and the pair finds the pool.
    fn find_pool_of_token(&self, token: &AssetId) -> (r: Option<usize>)
        requires
            self.wf(),
        ensures
            r matches Some(i) ==> self@.position_of_token(token@) == Some(i as int) && i
                < self.liquidity_pools@.len(),
            r is None ==> self@.position_of_token(token@) is None,
    {
        let mut i: usize = 0;
        while i < self.address_pair_map.len()
            invariant
                self.wf(),
                i <= self.address_pair_map@.len(),
                forall|j: int| 0 <= j < i ==> !self@.issues(j, token@),
            decreases self.address_pair_map@.len() - i,
        {
            let record = &self.address_pair_map[i];
            if record.token.same_as(token) {
                let first = record.pair.first();
                let second = record.pair.second();
                proof {
                    lemma_bytes_order_total(first@, second@);
                    assert(self@.trades(i as int, first@, second@));
                    self@.lemma_position_unique(i as int, first@, second@);
                    assert(self@.issues(i as int, token@));
                    self@.lemma_token_unique(i as int, token@);
                }
                return self.find_pool(first, second);
            }
            i += 1;
        }
        None
    }

    /// Whether a pool is registered for the unordered pair.
    pub fn pool_exists(&self, address0: &AssetId, address1: &AssetId) -> (r: bool)
        requires
            self.wf(),
        ensures
            r == self@.pool_exists(address0@, address1@),
    {
        self.find_pool(address0, address1).is_some()
    }

    /// Refuses a pair that has no pool with `NotFound`.
    pub fn assert_exists(
        &self,
        address0: &AssetId,
        address1: &AssetId,
    ) -> (r: Result<(), PoolError>)
        requires
            self.wf(),
        ensures
            r is Ok <==> self@.pool_exists(address0@, address1@),
            r matches Err(e) ==> e == PoolError::NotFound,
    {
        if self.pool_exists(address0, address1) {
            Ok(())
        } else {
            Err(PoolError::NotFound)
        }
    }

    /// Refuses a pair that has a pool with `AlreadyExists`.
    pub fn assert_not_exists(
        &self,
        address0: &AssetId,
        address1: &AssetId,
    ) -> (r: Result<(), PoolError>)
        requires
            self.wf(),
        ensures
            r is Ok <==> !self@.pool_exists(address0@, address1@),
            r matches Err(e) ==> e == PoolError::AlreadyExists,
    {
        if self.pool_exists(address0, address1) {
            Err(PoolError::AlreadyExists)
        } else {
            Ok(())
        }
    }

    /// The pool of the unordered pair, if there is one.
    pub fn pool(&self, address0: &AssetId, address1: &AssetId) -> (r: Option<&LiquidityPool>)
        requires
            self.wf(),
        ensures
            r matches Some(pool) ==> pool.wf() && self@.position(address0@, address1@) is Some
                && self@.pools[self@.position(address0@, address1@)->0] == pool@,
            r is None ==> self@.position(address0@, address1@) is None,
    {
        match self.find_pool(address0, address1) {
            Some(i) => Some(&self.liquidity_pools[i]),
            None => None,
        }
    }

    /// The two assets of the pool of the unordered pair, in canonical order.
    /// Refused with `NotFound` where the pair has no pool.
    pub fn addresses(
        &self,
        address0: &AssetId,
        address1: &AssetId,
    ) -> (r: Result<Vec<AssetId>, PoolError>)
        requires
            self.wf(),
        ensures
            r is Ok <==> self@.pool_exists(address0@, address1@),
            r matches Ok(both) ==> both@.len() == 2 && (both@[0]@, both@[1]@) == canonical_pair(
                address0@,
                address1@,
            ),
            r matches Err(e) ==> e == PoolError::NotFound,
    {
        match self.pool(address0, address1) {
            Some(pool) => Ok(pool.addresses()),
            None => Err(PoolError::NotFound),
        }
    }

    /// The name of the pool of the unordered pair: the symbol of the pair,
    /// from what the asset registry holds as the display symbol of each of
    /// the two. Refused with `NotFound` where the pair has no pool.
    pub fn name(
        &self,
        address0: AssetId,
        address1: AssetId,
        symbol0: Option<String>,
        symbol1: Option<String>,
    ) -> (r: Result<String, PoolError>)
        requires
            self.wf(),
        ensures
            r is Ok <==> self@.pool_exists(address0@, address1@),
            r matches Ok(name) ==> name@ == pair_symbol_text(
                address0@,
                address1@,
                text_of(symbol0),
                text_of(symbol1),
            ),
            r matches Err(e) ==> e == PoolError::NotFound,
    {
        self.assert_exists(&address0, &address1)?;
        Ok(pair_symbol(address0, address1, symbol0, symbol1))
    }

    /// Registers a pool for the pair of the two buckets, made from them at the
    /// default fee of 0.3 percent, with `provider_token` as the identity of
    /// its share token. Refused with `AlreadyExists` where the pair has a
    /// pool, and with `Validation` where the token is already some pool's.
    pub fn new_liquidity_pool(
        &mut self,
        token0: Bucket,
        token1: Bucket,
        provider_token: AssetId,
    ) -> (r: Result<Bucket, PoolError>)
        requires
            old(self).wf(),
        ensures
            final(self).wf(),
            r matches Ok(shares) ==> old(self)@.new_liquidity_pool(
                token0@,
                token1@,
                provider_token@,
            ) == Ok::<Registered, PoolError>((final(self)@, shares@)),
            r matches Err(e) ==> old(self)@.new_liquidity_pool(token0@, token1@, provider_token@)
                == Err::<Registered, PoolError>(e) && final(self)@ == old(self)@,
            old(self)@.pool_exists(token0@.asset, token1@.asset) ==> r matches Err(
                PoolError::AlreadyExists,
            ),
            token0@.asset == token1@.asset ==> (r matches Err(PoolError::Validation))
                && final(self)@ == old(self)@,
    {
        proof {
            self@.lemma_no_pool_of_one_asset(token0@.asset);
        }
        self.assert_not_exists(token0.resource_address(), token1.resource_address())?;
        if self.find_pool_of_token(&provider_token).is_some() {
            return Err(PoolError::Validation);
        }
        let fee = Amount::from_attos(300_000_000_000_000_000);
        let (pool, shares) = LiquidityPool::new(token0, token1, fee, provider_token)?;
        proof {
            lemma_bytes_order_total(token0@.asset, token1@.asset);
            lemma_bytes_order_total(pool@.asset0, pool@.asset1);
        }
        self.register(pool)?;
        Ok(shares)
    }

    /// Registers a pool. Refused with `AlreadyExists` where its pair has a
    /// pool, and with `Validation` where its share token is already some
    /// pool's.
    pub fn register(&mut self, pool: LiquidityPool) -> (r: Result<(), PoolError>)
        requires
            old(self).wf(),
            pool.wf(),
        ensures
            final(self).wf(),
            r is Ok ==> old(self)@.register(pool@) == Ok::<RouterState, PoolError>(final(self)@),
            r matches Err(e) ==> old(self)@.register(pool@) == Err::<RouterState, PoolError>(e)
                && final(self)@ == old(self)@,
    {
        self.assert_not_exists(pool.pair().first(), pool.pair().second())?;
        if self.find_pool_of_token(pool.provider_token_address()).is_some() {
            return Err(PoolError::Validation);
        }
        let record = ShareRecord {
            token: pool.provider_token_address().clone(),
            pair: pool.pair().clone(),
        };
        proof {
            self@.lemma_registered(pool@);
        }
        self.liquidity_pools.push(pool);
        self.address_pair_map.push(record);
        proof {
            assert(self@.pools =~= old(self)@.pools.push(pool@));
        }
        Ok(())
    }

    /// Deposits the two buckets into the pool of their pair; what is left of
    /// each comes back, in the canonical order of the assets, and then the
    /// shares. Where the pair has no pool yet, one is registered from the
    /// buckets as by [`ElisionSwap::new_liquidity_pool`], with
    /// `provider_token` for its share token: it takes both buckets whole, and
    /// no remainders come back. Where the pair has a pool, `provider_token`
    /// is not looked at.
    pub fn add_liquidity(
        &mut self,
        token0: Bucket,
        token1: Bucket,
        provider_token: AssetId,
    ) -> (r: Result<(Option<Bucket>, Option<Bucket>, Bucket), PoolError>)
        requires
            old(self).wf(),
        ensures
            final(self).wf(),
            r matches Ok(back) ==> old(self)@.add_liquidity(token0@, token1@, provider_token@)
                == Ok::<RoutedDeposit, PoolError>(
                (final(self)@, views(back.0), views(back.1), back.2@),
            ),
            r matches Err(e) ==> old(self)@.add_liquidity(token0@, token1@, provider_token@)
                == Err::<RoutedDeposit, PoolError>(e) && final(self)@ == old(self)@,
    {
        match self.find_pool(token0.resource_address(), token1.resource_address()) {
            Some(i) => {
                proof {
                    self.liquidity_pools@[i as int]@.lemma_same_pool(token0@, token1@, 0);
                }
                let done = self.liquidity_pools[i].add_liquidity(token0, token1);
                proof {
                    Self::lemma_pool_updated(*old(self), *self, i as int);
                }
                let back = done?;
                Ok((Some(back.0), Some(back.1), back.2))
            },
            None => {
                let shares = self.new_liquidity_pool(token0, token1, provider_token)?;
                Ok((None, None, shares))
            },
        }
    }

    /// Redeems a bucket of shares at the pool that issued them. Refused with
    /// `NotFound` where no pool issued the token.
    pub fn remove_liquidity(
        &mut self,
        provider_tokens: Bucket,
    ) -> (r: Result<(Bucket, Bucket), PoolError>)
        requires
            old(self).wf(),
        ensures
            final(self).wf(),
            r matches Ok(back) ==> old(self)@.remove_liquidity(provider_tokens@) == Ok::<
                RoutedRedemption,
                PoolError,
            >((final(self)@, back.0@, back.1@)),
            r matches Err(e) ==> old(self)@.remove_liquidity(provider_tokens@) == Err::<
                RoutedRedemption,
                PoolError,
            >(e) && final(self)@ == old(self)@,
    {
        match self.find_pool_of_token(provider_tokens.resource_address()) {
            Some(i) => {
                proof {
                    self.liquidity_pools@[i as int]@.lemma_same_pool(
                        provider_tokens@,
                        provider_tokens@,
                        0,
                    );
                }
                let done = self.liquidity_pools[i].remove_liquidity(provider_tokens);
                proof {
                    Self::lemma_pool_updated(*old(self), *self, i as int);
                }
                let back = done?;
                Ok(back)
            },
            None => Err(PoolError::NotFound),
        }
    }

    /// Swaps a whole bucket for `output_address` at the pool of the two
    /// assets. Refused with `NotFound` where the pair has no pool.
    pub fn swap(
        &mut self,
        tokens: Bucket,
        output_address: &AssetId,
    ) -> (r: Result<Bucket, PoolError>)
        requires
            old(self).wf(),
        ensures
            final(self).wf(),
            r matches Ok(output) ==> old(self)@.swap(tokens@, output_address@) == Ok::<
                RoutedSwap,
                PoolError,
            >((final(self)@, output@)),
            r matches Err(e) ==> old(self)@.swap(tokens@, output_address@) == Err::<
                RoutedSwap,
                PoolError,
            >(e) && final(self)@ == old(self)@,
    {
        match self.find_pool(tokens.resource_address(), output_address) {
            Some(i) => {
                proof {
                    self.liquidity_pools@[i as int]@.lemma_same_pool(tokens@, tokens@, 0);
                }
                let done = self.liquidity_pools[i].swap(tokens);
                proof {
                    Self::lemma_pool_updated(*old(self), *self, i as int);
                }
                let output = done?;
                Ok(output)
            },
            None => Err(PoolError::NotFound),
        }
    }

    /// Swaps a whole bucket for no less than `min_output_amount` of
    /// `output_address` at the pool of the two assets.
    pub fn swap_exact_tokens_for_tokens(
        &mut self,
        tokens: Bucket,
        output_address: &AssetId,
        min_output_amount: Amount,
    ) -> (r: Result<Bucket, PoolError>)
        requires
            old(self).wf(),
        ensures
            final(self).wf(),
            r matches Ok(output) ==> old(self)@.swap_exact_in(
                tokens@,
                output_address@,
                min_output_amount@,
            ) == Ok::<RoutedSwap, PoolError>((final(self)@, output@)),
            r matches Err(e) ==> old(self)@.swap_exact_in(
                tokens@,
                output_address@,
                min_output_amount@,
            ) == Err::<RoutedSwap, PoolError>(e) && final(self)@ == old(self)@,
    {
        match self.find_pool(tokens.resource_address(), output_address) {
            Some(i) => {
                proof {
                    self.liquidity_pools@[i as int]@.lemma_same_pool(
                        tokens@,
                        tokens@,
                        min_output_amount@,
                    );
                }
                let done = self.liquidity_pools[i].swap_exact_tokens_for_tokens(
                    tokens,
                    min_output_amount,
                );
                proof {
                    Self::lemma_pool_updated(*old(self), *self, i as int);
                }
                let output = done?;
                Ok(output)
            },
            None => Err(PoolError::NotFound),
        }
    }

    /// Swaps for exactly `output_amount` of `output_address` at the pool of
    /// the two assets; the output comes back, and then what is left of the
    /// bucket.
    pub fn swap_tokens_for_exact_tokens(
        &mut self,
        tokens: Bucket,
        output_address: &AssetId,
        output_amount: Amount,
    ) -> (r: Result<(Bucket, Bucket), PoolError>)
        requires
            old(self).wf(),
        ensures
            final(self).wf(),
            r matches Ok(back) ==> old(self)@.swap_exact_out(
                tokens@,
                output_address@,
                output_amount@,
            ) == Ok::<RoutedSwapExact, PoolError>((final(self)@, back.0@, back.1@)),
            r matches Err(e) ==> old(self)@.swap_exact_out(
                tokens@,
                output_address@,
                output_amount@,
            ) == Err::<RoutedSwapExact, PoolError>(e) && final(self)@ == old(self)@,
    {
        match self.find_pool(tokens.resource_address(), output_address) {
            Some(i) => {
                proof {
                    self.liquidity_pools@[i as int]@.lemma_same_pool(
                        tokens@,
                        tokens@,
                        output_amount@,
                    );
                }
                let done = self.liquidity_pools[i].swap_tokens_for_exact_tokens(
                    tokens,
                    output_amount,
                );
                proof {
                    Self::lemma_pool_updated(*old(self), *self, i as int);
                }
                let back = done?;
                Ok(back)
            },
            None => Err(PoolError::NotFound),
        }
    }
}

} // verus!
