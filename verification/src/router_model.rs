//! What the router is and does, as a mathematical state and its transitions.
//!
//! The router is the list of its pools, in the order in which they were
//! registered. No two pools trade the same pair and no two issue the same
//! share token, so a pair, or a share token, finds at most one pool.

use crate::asset::{canonical_pair, precedes};
use crate::bucket::BucketView;
use crate::error::PoolError;
use crate::pool_model::PoolState;
use vstd::prelude::*;

verus! {

/// The fee of every pool that the router creates: 0.3 percent.
pub open spec fn default_fee() -> nat {
    300_000_000_000_000_000
}

/// The state of the router.
pub ghost struct RouterState {
    pub pools: Seq<PoolState>,
}

/// What registering a pool gives: the router after, and the bootstrap shares.
pub type Registered = (RouterState, BucketView);

/// What a deposit through the router gives: the router after, what is left of
/// each bucket where the pool existed already, and the shares.
pub type RoutedDeposit = (RouterState, Option<BucketView>, Option<BucketView>, BucketView);

/// What a redemption through the router gives: the router after, and the two
/// withdrawals.
pub type RoutedRedemption = (RouterState, BucketView, BucketView);

/// What a swap through the router gives: the router after, and the output.
pub type RoutedSwap = (RouterState, BucketView);

/// What a swap for an exact output through the router gives: the router after,
/// the output, and what is left of the input.
pub type RoutedSwapExact = (RouterState, BucketView, BucketView);

impl RouterState {
    /// What holds of every router: its pools are well formed, no two trade
    /// the same pair, and no two issue the same share token.
    pub open spec fn wf(self) -> bool {
        &&& forall|i: int| 0 <= i < self.pools.len() ==> (#[trigger] self.pools[i]).wf()
        &&& forall|i: int, j: int|
            0 <= i < j < self.pools.len() ==> !self.trades(
                i,
                self.pools[j].asset0,
                self.pools[j].asset1,
            )
        &&& forall|i: int, j: int|
            0 <= i < j < self.pools.len() ==> !self.issues(i, self.pools[j].share_token)
    }

    /// Whether the pool at `i` trades the canonical pair `(first, second)`.
    pub open spec fn trades(self, i: int, first: Seq<u8>, second: Seq<u8>) -> bool {
        0 <= i < self.pools.len() && self.pools[i].asset0 == first && self.pools[i].asset1
            == second
    }

    /// Whether the pool at `i` issues the share token `token`.
    pub open spec fn issues(self, i: int, token: Seq<u8>) -> bool {
        0 <= i < self.pools.len() && self.pools[i].share_token == token
    }

    /// Where the pool of the unordered pair `a`, `b` is, if there is one.
    pub open spec fn position(self, a: Seq<u8>, b: Seq<u8>) -> Option<int> {
        let pair = canonical_pair(a, b);
        if exists|i: int| self.trades(i, pair.0, pair.1) {
            Some(choose|i: int| self.trades(i, pair.0, pair.1))
        } else {
            None
        }
    }

    /// Where the pool that issues `token` is, if there is one.
    pub open spec fn position_of_token(self, token: Seq<u8>) -> Option<int> {
        if exists|i: int| self.issues(i, token) {
            Some(choose|i: int| self.issues(i, token))
        } else {
            None
        }
    }

    /// Whether a pool is registered for the unordered pair `a`, `b`.
    pub open spec fn pool_exists(self, a: Seq<u8>, b: Seq<u8>) -> bool {
        self.position(a, b) is Some
    }

    /// The router with the pool at `i` replaced.
    pub open spec fn with_pool(self, i: int, pool: PoolState) -> RouterState {
        RouterState { pools: self.pools.update(i, pool) }
    }

    /// Registering a pool whose pair has none yet and whose share token is no
    /// other pool's.
    pub open spec fn register(self, pool: PoolState) -> Result<RouterState, PoolError> {
        if self.pool_exists(pool.asset0, pool.asset1) {
            Err(PoolError::AlreadyExists)
        } else if self.position_of_token(pool.share_token) is Some {
            Err(PoolError::Validation)
        } else {
            Ok(RouterState { pools: self.pools.push(pool) })
        }
    }

    /// Registering a pool for a pair that has none, made from two buckets and
    /// the identity of its share token, at the default fee.
    pub open spec fn new_liquidity_pool(
        self,
        a: BucketView,
        b: BucketView,
        share_token: Seq<u8>,
    ) -> Result<Registered, PoolError> {
        if self.pool_exists(a.asset, b.asset) {
            Err(PoolError::AlreadyExists)
        } else if self.position_of_token(share_token) is Some {
            Err(PoolError::Validation)
        } else {
            match PoolState::create(a, b, default_fee(), share_token) {
                Ok((pool, shares)) => Ok((RouterState { pools: self.pools.push(pool) }, shares)),
                Err(e) => Err(e),
            }
        }
    }

    /// Depositing into the pool of the buckets' pair, or registering one from
    /// them where there is none. A new pool takes both buckets whole, so that
    /// nothing is left of them.
    pub open spec fn add_liquidity(
        self,
        a: BucketView,
        b: BucketView,
        share_token: Seq<u8>,
    ) -> Result<RoutedDeposit, PoolError> {
        match self.position(a.asset, b.asset) {
            Some(i) => match self.pools[i].add_liquidity(a, b) {
                Ok((pool, rest0, rest1, shares)) => Ok(
                    (self.with_pool(i, pool), Some(rest0), Some(rest1), shares),
                ),
                Err(e) => Err(e),
            },
            None => match self.new_liquidity_pool(a, b, share_token) {
                Ok((after, shares)) => Ok((after, None, None, shares)),
                Err(e) => Err(e),
            },
        }
    }

    /// Redeeming shares at the pool that issued them.
    pub open spec fn remove_liquidity(
        self,
        shares: BucketView,
    ) -> Result<RoutedRedemption, PoolError> {
        match self.position_of_token(shares.asset) {
            Some(i) => match self.pools[i].remove_liquidity(shares) {
                Ok((pool, out0, out1)) => Ok((self.with_pool(i, pool), out0, out1)),
                Err(e) => Err(e),
            },
            None => Err(PoolError::NotFound),
        }
    }

    /// Swapping a whole bucket for `output` at the pool of the two assets.
    pub open spec fn swap(
        self,
        input: BucketView,
        output: Seq<u8>,
    ) -> Result<RoutedSwap, PoolError> {
        match self.position(input.asset, output) {
            Some(i) => match self.pools[i].swap(input) {
                Ok((pool, out)) => Ok((self.with_pool(i, pool), out)),
                Err(e) => Err(e),
            },
            None => Err(PoolError::NotFound),
        }
    }

    /// Swapping a whole bucket for no less than `min_out` of `output` at the
    /// pool of the two assets.
    pub open spec fn swap_exact_in(
        self,
        input: BucketView,
        output: Seq<u8>,
        min_out: nat,
    ) -> Result<RoutedSwap, PoolError> {
        match self.position(input.asset, output) {
            Some(i) => match self.pools[i].swap_exact_in(input, min_out) {
                Ok((pool, out)) => Ok((self.with_pool(i, pool), out)),
                Err(e) => Err(e),
            },
            None => Err(PoolError::NotFound),
        }
    }

    /// Swapping for exactly `exact_out` of `output` at the pool of the two
    /// assets.
    pub open spec fn swap_exact_out(
        self,
        input: BucketView,
        output: Seq<u8>,
        exact_out: nat,
    ) -> Result<RoutedSwapExact, PoolError> {
        match self.position(input.asset, output) {
            Some(i) => match self.pools[i].swap_exact_out(input, exact_out) {
                Ok((pool, out, rest)) => Ok((self.with_pool(i, pool), out, rest)),
                Err(e) => Err(e),
            },
            None => Err(PoolError::NotFound),
        }
    }

    /// The first of the router's two indices: the pool of each pair that has
    /// one, by the pair in canonical order.
    pub open spec fn pools_by_pair(self) -> Map<(Seq<u8>, Seq<u8>), PoolState> {
        Map::new(
            |pair: (Seq<u8>, Seq<u8>)| exists|i: int| self.trades(i, pair.0, pair.1),
            |pair: (Seq<u8>, Seq<u8>)| self.pools[choose|i: int| self.trades(i, pair.0, pair.1)],
        )
    }

    /// The second of the router's two indices: the pair of each share token
    /// that some pool issues.
    pub open spec fn pair_by_token(self) -> Map<Seq<u8>, (Seq<u8>, Seq<u8>)> {
        Map::new(
            |token: Seq<u8>| exists|i: int| self.issues(i, token),
            |token: Seq<u8>|
                {
                    let pool = self.pools[choose|i: int| self.issues(i, token)];
                    (pool.asset0, pool.asset1)
                },
        )
    }

    /// The two indices agree: each pair leads to the pool that trades it, and
    /// each share token leads to the pair of the pool that issues it.
    pub proof fn law_indices_agree(self)
        requires
            self.wf(),
        ensures
            forall|pair: (Seq<u8>, Seq<u8>)| #[trigger]
                self.pools_by_pair().dom().contains(pair) ==> {
                    &&& self.pools_by_pair()[pair].asset0 == pair.0
                    &&& self.pools_by_pair()[pair].asset1 == pair.1
                    &&& self.pools_by_pair()[pair].wf()
                    &&& self.pair_by_token().dom().contains(
                        self.pools_by_pair()[pair].share_token,
                    )
                    &&& self.pair_by_token()[self.pools_by_pair()[pair].share_token] == pair
                },
            forall|token: Seq<u8>| #[trigger]
                self.pair_by_token().dom().contains(token) ==> {
                    &&& self.pools_by_pair().dom().contains(self.pair_by_token()[token])
                    &&& self.pools_by_pair()[self.pair_by_token()[token]].share_token == token
                },
    {
        assert forall|pair: (Seq<u8>, Seq<u8>)| #[trigger]
            self.pools_by_pair().dom().contains(pair) implies {
            &&& self.pools_by_pair()[pair].asset0 == pair.0
            &&& self.pools_by_pair()[pair].asset1 == pair.1
            &&& self.pools_by_pair()[pair].wf()
            &&& self.pair_by_token().dom().contains(self.pools_by_pair()[pair].share_token)
            &&& self.pair_by_token()[self.pools_by_pair()[pair].share_token] == pair
        } by {
            let i = choose|i: int| self.trades(i, pair.0, pair.1);
            let token = self.pools[i].share_token;
            assert(self.issues(i, token));
            self.lemma_token_unique(i, token);
        }
        assert forall|token: Seq<u8>| #[trigger]
            self.pair_by_token().dom().contains(token) implies {
            &&& self.pools_by_pair().dom().contains(self.pair_by_token()[token])
            &&& self.pools_by_pair()[self.pair_by_token()[token]].share_token == token
        } by {
            let i = choose|i: int| self.issues(i, token);
            let pool = self.pools[i];
            assert(self.trades(i, pool.asset0, pool.asset1));
            pool.lemma_assets_differ();
            crate::asset::lemma_bytes_order_total(pool.asset0, pool.asset1);
            self.lemma_position_unique(i, pool.asset0, pool.asset1);
        }
    }

    /// Registering a pool adds it to both indices and changes nothing else in
    /// them.
    pub proof fn law_register_adds_to_both_indices(self, pool: PoolState)
        requires
            self.wf(),
            pool.wf(),
            self.register(pool) is Ok,
        ensures
            self.register(pool)->Ok_0.pools_by_pair() == self.pools_by_pair().insert(
                (pool.asset0, pool.asset1),
                pool,
            ),
            self.register(pool)->Ok_0.pair_by_token() == self.pair_by_token().insert(
                pool.share_token,
                (pool.asset0, pool.asset1),
            ),
    {
        let after = self.register(pool)->Ok_0;
        let last = self.pools.len() as int;
        self.lemma_registered(pool);
        pool.lemma_assets_differ();
        crate::asset::lemma_bytes_order_total(pool.asset0, pool.asset1);
        assert forall|pair: (Seq<u8>, Seq<u8>)|
            after.pools_by_pair().dom().contains(pair) <==> self.pools_by_pair().insert(
                (pool.asset0, pool.asset1),
                pool,
            ).dom().contains(pair) by {
            if after.pools_by_pair().dom().contains(pair) {
                let i = choose|i: int| after.trades(i, pair.0, pair.1);
                if i < last {
                    assert(self.trades(i, pair.0, pair.1));
                }
            }
            if self.pools_by_pair().dom().contains(pair) {
                let i = choose|i: int| self.trades(i, pair.0, pair.1);
                assert(after.trades(i, pair.0, pair.1));
            }
            if pair == (pool.asset0, pool.asset1) {
                assert(after.trades(last, pair.0, pair.1));
            }
        }
        assert forall|pair: (Seq<u8>, Seq<u8>)| #[trigger]
            after.pools_by_pair().dom().contains(pair) implies after.pools_by_pair()[pair]
            == self.pools_by_pair().insert((pool.asset0, pool.asset1), pool)[pair] by {
            let i = choose|i: int| after.trades(i, pair.0, pair.1);
            if pair == (pool.asset0, pool.asset1) {
                assert(after.trades(last, pair.0, pair.1));
                after.lemma_position_unique(last, pair.0, pair.1);
                after.lemma_position_unique(i, pair.0, pair.1);
            } else {
                assert(self.trades(i, pair.0, pair.1));
                let j = choose|j: int| self.trades(j, pair.0, pair.1);
                assert(after.trades(j, pair.0, pair.1));
                if precedes(pair.0, pair.1) {
                    after.lemma_position_unique(i, pair.0, pair.1);
                    after.lemma_position_unique(j, pair.0, pair.1);
                } else {
                    self.pools[j].lemma_assets_differ();
                }
            }
        }
        assert(after.pools_by_pair() =~= self.pools_by_pair().insert(
            (pool.asset0, pool.asset1),
            pool,
        ));
        assert forall|token: Seq<u8>|
            after.pair_by_token().dom().contains(token) <==> self.pair_by_token().insert(
                pool.share_token,
                (pool.asset0, pool.asset1),
            ).dom().contains(token) by {
            if after.pair_by_token().dom().contains(token) {
                let i = choose|i: int| after.issues(i, token);
                if i < last {
                    assert(self.issues(i, token));
                }
            }
            if self.pair_by_token().dom().contains(token) {
                let i = choose|i: int| self.issues(i, token);
                assert(after.issues(i, token));
            }
            if token == pool.share_token {
                assert(after.issues(last, token));
            }
        }
        assert forall|token: Seq<u8>| #[trigger]
            after.pair_by_token().dom().contains(token) implies after.pair_by_token()[token]
            == self.pair_by_token().insert(pool.share_token, (pool.asset0, pool.asset1))[token] by {
            let i = choose|i: int| after.issues(i, token);
            after.lemma_token_unique(i, token);
            if token == pool.share_token {
                assert(after.issues(last, token));
                after.lemma_token_unique(last, token);
            } else {
                assert(self.issues(i, token));
                let j = choose|j: int| self.issues(j, token);
                assert(after.issues(j, token));
                after.lemma_token_unique(j, token);
            }
        }
        assert(after.pair_by_token() =~= self.pair_by_token().insert(
            pool.share_token,
            (pool.asset0, pool.asset1),
        ));
    }

    /// Replacing a pool by the same pool at another moment changes the entry
    /// of its pair in the first index, and nothing else in either.
    pub proof fn law_replace_changes_one_entry(self, i: int, pool: PoolState)
        requires
            self.wf(),
            0 <= i < self.pools.len(),
            pool.wf(),
            self.pools[i].same_pool(pool),
        ensures
            self.with_pool(i, pool).pools_by_pair() == self.pools_by_pair().insert(
                (pool.asset0, pool.asset1),
                pool,
            ),
            self.with_pool(i, pool).pair_by_token() == self.pair_by_token(),
    {
        let after = self.with_pool(i, pool);
        self.lemma_replaced(i, pool);
        pool.lemma_assets_differ();
        crate::asset::lemma_bytes_order_total(pool.asset0, pool.asset1);
        assert(self.trades(i, pool.asset0, pool.asset1));
        assert(after.trades(i, pool.asset0, pool.asset1));
        assert forall|pair: (Seq<u8>, Seq<u8>)|
            after.pools_by_pair().dom().contains(pair) <==> self.pools_by_pair().insert(
                (pool.asset0, pool.asset1),
                pool,
            ).dom().contains(pair) by {
            if after.pools_by_pair().dom().contains(pair) {
                let j = choose|j: int| after.trades(j, pair.0, pair.1);
                assert(self.trades(j, pair.0, pair.1));
            }
            if self.pools_by_pair().dom().contains(pair) {
                let j = choose|j: int| self.trades(j, pair.0, pair.1);
                assert(after.trades(j, pair.0, pair.1));
            }
            if pair == (pool.asset0, pool.asset1) {
                assert(after.trades(i, pair.0, pair.1));
                assert(self.trades(i, pair.0, pair.1));
            }
        }
        assert forall|pair: (Seq<u8>, Seq<u8>)| #[trigger]
            after.pools_by_pair().dom().contains(pair) implies after.pools_by_pair()[pair]
            == self.pools_by_pair().insert((pool.asset0, pool.asset1), pool)[pair] by {
            let j = choose|j: int| after.trades(j, pair.0, pair.1);
            let k = choose|k: int| self.trades(k, pair.0, pair.1);
            assert(self.trades(j, pair.0, pair.1));
            after.pools[j].lemma_assets_differ();
            crate::asset::lemma_bytes_order_total(pair.0, pair.1);
            self.lemma_position_unique(j, pair.0, pair.1);
            self.lemma_position_unique(k, pair.0, pair.1);
            if pair == (pool.asset0, pool.asset1) {
                self.lemma_position_unique(i, pair.0, pair.1);
            }
        }
        assert(after.pools_by_pair() =~= self.pools_by_pair().insert(
            (pool.asset0, pool.asset1),
            pool,
        ));
        assert forall|token: Seq<u8>|
            after.pair_by_token().dom().contains(token) <==> self.pair_by_token().dom().contains(
                token,
            ) by {
            if after.pair_by_token().dom().contains(token) {
                let j = choose|j: int| after.issues(j, token);
                assert(self.issues(j, token));
            }
            if self.pair_by_token().dom().contains(token) {
                let j = choose|j: int| self.issues(j, token);
                assert(after.issues(j, token));
            }
        }
        assert forall|token: Seq<u8>| #[trigger]
            after.pair_by_token().dom().contains(token) implies after.pair_by_token()[token]
            == self.pair_by_token()[token] by {
            let j = choose|j: int| after.issues(j, token);
            let k = choose|k: int| self.issues(k, token);
            assert(self.issues(j, token));
            self.lemma_token_unique(j, token);
            self.lemma_token_unique(k, token);
        }
        assert(after.pair_by_token() =~= self.pair_by_token());
    }

    /// Whether `after` still has every pool of `self`, each the same pool in
    /// the same place.
    pub open spec fn kept_by(self, after: RouterState) -> bool {
        &&& self.pools.len() <= after.pools.len()
        &&& forall|i: int|
            0 <= i < self.pools.len() ==> (#[trigger] self.pools[i]).same_pool(after.pools[i])
    }

    /// A well-formed pool whose pair and share token are new to a well-formed
    /// router can be registered, and the router stays well formed.
    pub proof fn lemma_registered(self, pool: PoolState)
        requires
            self.wf(),
            pool.wf(),
            !self.pool_exists(pool.asset0, pool.asset1),
            self.position_of_token(pool.share_token) is None,
        ensures
            self.register(pool) is Ok,
            self.register(pool)->Ok_0.wf(),
            self.kept_by(self.register(pool)->Ok_0),
    {
        let after = RouterState { pools: self.pools.push(pool) };
        pool.lemma_assets_differ();
        crate::asset::lemma_bytes_order_total(pool.asset0, pool.asset1);
        assert forall|i: int| 0 <= i < self.pools.len() implies !self.trades(
            i,
            pool.asset0,
            pool.asset1,
        ) by {
            if self.trades(i, pool.asset0, pool.asset1) {
                self.lemma_position_unique(i, pool.asset0, pool.asset1);
            }
        }
        assert forall|i: int| 0 <= i < self.pools.len() implies !self.issues(
            i,
            pool.share_token,
        ) by {
            if self.issues(i, pool.share_token) {
                self.lemma_token_unique(i, pool.share_token);
            }
        }
        assert forall|i: int| 0 <= i < after.pools.len() implies (#[trigger] after.pools[i]).wf(
        ) by {
            if i < self.pools.len() {
                assert(self.pools[i].wf());
            }
        }
        assert forall|i: int, j: int| 0 <= i < j < after.pools.len() implies !after.trades(
            i,
            after.pools[j].asset0,
            after.pools[j].asset1,
        ) by {
            if j < self.pools.len() {
                assert(!self.trades(i, self.pools[j].asset0, self.pools[j].asset1));
            } else {
                assert(!self.trades(i, pool.asset0, pool.asset1));
            }
        }
        assert forall|i: int, j: int| 0 <= i < j < after.pools.len() implies !after.issues(
            i,
            after.pools[j].share_token,
        ) by {
            if j < self.pools.len() {
                assert(!self.issues(i, self.pools[j].share_token));
            } else {
                assert(!self.issues(i, pool.share_token));
            }
        }
    }

    /// Replacing a pool by the same pool at another moment keeps the router
    /// well formed and all its pools in place.
    pub proof fn lemma_replaced(self, i: int, pool: PoolState)
        requires
            self.wf(),
            0 <= i < self.pools.len(),
            pool.wf(),
            self.pools[i].same_pool(pool),
        ensures
            self.with_pool(i, pool).wf(),
            self.kept_by(self.with_pool(i, pool)),
    {
        let after = self.with_pool(i, pool);
        assert forall|j: int| 0 <= j < after.pools.len() implies (#[trigger] after.pools[j]).wf(
        ) by {
            if j != i {
                assert(self.pools[j].wf());
            }
        }
        assert forall|j: int, k: int| 0 <= j < k < after.pools.len() implies !after.trades(
            j,
            after.pools[k].asset0,
            after.pools[k].asset1,
        ) by {
            assert(!self.trades(j, self.pools[k].asset0, self.pools[k].asset1));
        }
        assert forall|j: int, k: int| 0 <= j < k < after.pools.len() implies !after.issues(
            j,
            after.pools[k].share_token,
        ) by {
            assert(!self.issues(j, self.pools[k].share_token));
        }
    }

    /// No pool trades an asset against itself.
    pub proof fn lemma_no_pool_of_one_asset(self, a: Seq<u8>)
        requires
            self.wf(),
        ensures
            !self.pool_exists(a, a),
    {
        if self.pool_exists(a, a) {
            let i = self.position(a, a)->0;
            self.pools[i].lemma_assets_differ();
        }
    }

    /// A pair finds the one pool that trades it.
    pub proof fn lemma_position_unique(self, i: int, a: Seq<u8>, b: Seq<u8>)
        requires
            self.wf(),
            self.trades(i, canonical_pair(a, b).0, canonical_pair(a, b).1),
        ensures
            self.position(a, b) == Some(i),
    {
        let pair = canonical_pair(a, b);
        let j = choose|j: int| self.trades(j, pair.0, pair.1);
        if i < j {
            assert(!self.trades(i, self.pools[j].asset0, self.pools[j].asset1));
        } else if j < i {
            assert(!self.trades(j, self.pools[i].asset0, self.pools[i].asset1));
        }
    }

    /// A share token finds the one pool that issues it.
    pub proof fn lemma_token_unique(self, i: int, token: Seq<u8>)
        requires
            self.wf(),
            self.issues(i, token),
        ensures
            self.position_of_token(token) == Some(i),
    {
        let j = choose|j: int| self.issues(j, token);
        if i < j {
            assert(!self.issues(i, self.pools[j].share_token));
        } else if j < i {
            assert(!self.issues(j, self.pools[i].share_token));
        }
    }
}

} // verus!
