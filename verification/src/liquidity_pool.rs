//! The pool itself: two reserves, the shares issued against them, and the
//! operations that change them.

use crate::amount::{max_attos, one, Amount};
use crate::asset::{AssetId, PairKey};
use crate::bucket::{sort_buckets, AssetKind, Bucket};
use crate::error::PoolError;
use crate::laws::{law_swap_keeps_product, law_swap_never_wants_liquidity};
use crate::pool_math::{
    deposit_split, input_for_output, output_for_input, shares_for_deposit, try_add,
    try_mul, withdrawal_split,
};
use crate::pool_model::{fungible, Deposited, PoolState, Redeemed, Swapped, SwappedExact};
use crate::symbol::{pair_symbol, pair_symbol_text, text_of};
use vstd::prelude::*;

verus! {

/// A pool of two assets that prices swaps between them by the product of its
/// reserves, and issues shares to those who fund it.
#[derive(Debug)]
pub struct LiquidityPool {
    pair: PairKey,
    reserve0: Amount,
    reserve1: Amount,
    provider_token: AssetId,
    provider_supply: Amount,
    pool_fee: Amount,
}

impl View for LiquidityPool {
    type V = PoolState;

    closed spec fn view(&self) -> PoolState {
        PoolState {
            asset0: self.pair@.0,
            asset1: self.pair@.1,
            reserve0: self.reserve0@,
            reserve1: self.reserve1@,
            share_token: self.provider_token@,
            share_supply: self.provider_supply@,
            fee: self.pool_fee@,
        }
    }
}

impl LiquidityPool {
    /// What every operation keeps true of a pool.
    pub open spec fn wf(&self) -> bool {
        self@.wf()
    }

    /// Makes a pool from one bucket of each of two different fungible assets,
    /// neither empty, with a fee from 0 to 100 and the identity of the token
    /// that will stand for its shares. The buckets become the reserves, and
    /// the bootstrap shares come back with the pool.
    pub fn new(
        token0: Bucket,
        token1: Bucket,
        pool_fee: Amount,
        provider_token: AssetId,
    ) -> (r: Result<(LiquidityPool, Bucket), PoolError>)
        ensures
            r matches Ok(made) ==> made.0.wf() && PoolState::create(
                token0@,
                token1@,
                pool_fee@,
                provider_token@,
            ) == Ok::<Swapped, PoolError>((made.0@, made.1@)),
            r matches Err(e) ==> PoolState::create(token0@, token1@, pool_fee@, provider_token@)
                == Err::<Swapped, PoolError>(e),
            token0@.asset == token1@.asset ==> r matches Err(PoolError::Validation),
    {
        if token0.resource_address().same_as(token1.resource_address()) {
            return Err(PoolError::Validation);
        }
        if token0.kind() != AssetKind::Fungible || token1.kind() != AssetKind::Fungible {
            return Err(PoolError::Validation);
        }
        if token0.is_empty() || token1.is_empty() {
            return Err(PoolError::Validation);
        }
        if Amount::from_units(100).less_than(&pool_fee) {
            return Err(PoolError::Validation);
        }
        if provider_token.same_as(token0.resource_address()) || provider_token.same_as(
            token1.resource_address(),
        ) {
            return Err(PoolError::Validation);
        }
        let (bucket0, bucket1) = sort_buckets(token0, token1);
        let (asset0, _, reserve0) = bucket0.into_parts();
        let (asset1, _, reserve1) = bucket1.into_parts();
        let pair = match PairKey::canonicalize(asset0, asset1) {
            Ok(pair) => pair,
            Err(e) => {
                return Err(e);
            },
        };
        proof {
            crate::asset::lemma_bytes_order_total(token0@.asset, token1@.asset);
            use_type_invariant(&pair);
            pair.lemma_ordered();
        }
        let provider_supply = Amount::from_units(100);
        let shares = Bucket::new(provider_token.clone(), AssetKind::Fungible, provider_supply);
        let pool = LiquidityPool {
            pair,
            reserve0,
            reserve1,
            provider_token,
            provider_supply,
            pool_fee,
        };
        Ok((pool, shares))
    }

    /// The pool that holds the given reserves of a pair and has the given
    /// shares outstanding: a pool as the ledger has it. Refused with
    /// `Validation` where the fee is above 100 or the share token is one of
    /// the pair.
    pub fn from_state(
        pair: PairKey,
        reserve0: Amount,
        reserve1: Amount,
        provider_token: AssetId,
        provider_supply: Amount,
        pool_fee: Amount,
    ) -> (r: Result<LiquidityPool, PoolError>)
        ensures
            r matches Ok(pool) ==> pool.wf() && PoolState::restored(
                pair@,
                reserve0@,
                reserve1@,
                provider_token@,
                provider_supply@,
                pool_fee@,
            ) == Ok::<PoolState, PoolError>(pool@),
            r matches Err(e) ==> PoolState::restored(
                pair@,
                reserve0@,
                reserve1@,
                provider_token@,
                provider_supply@,
                pool_fee@,
            ) == Err::<PoolState, PoolError>(e),
    {
        if Amount::from_units(100).less_than(&pool_fee) {
            return Err(PoolError::Validation);
        }
        if provider_token.same_as(pair.first()) || provider_token.same_as(pair.second()) {
            return Err(PoolError::Validation);
        }
        proof {
            use_type_invariant(&pair);
            pair.lemma_ordered();
            use_type_invariant(&reserve0);
            reserve0.lemma_in_range_bounded();
            use_type_invariant(&reserve1);
            reserve1.lemma_in_range_bounded();
            use_type_invariant(&provider_supply);
            provider_supply.lemma_in_range_bounded();
        }
        Ok(LiquidityPool { pair, reserve0, reserve1, provider_token, provider_supply, pool_fee })
    }

    /// Whether `address` is one of the pool's two assets.
    pub fn belongs_to_pool(&self, address: &AssetId) -> (r: bool)
        ensures
            r == self@.belongs(address@),
    {
        address.same_as(self.pair.first()) || address.same_as(self.pair.second())
    }

    /// Refuses an asset that is not one of the pool's two with `Membership`.
    pub fn assert_belongs_to_pool(&self, address: &AssetId) -> (r: Result<(), PoolError>)
        ensures
            r is Ok <==> self@.belongs(address@),
            r matches Err(e) ==> e == PoolError::Membership,
    {
        if self.belongs_to_pool(address) {
            Ok(())
        } else {
            Err(PoolError::Membership)
        }
    }

    /// The pool's two assets, in canonical order.
    pub fn addresses(&self) -> (r: Vec<AssetId>)
        ensures
            r@.len() == 2,
            r@[0]@ == self@.asset0,
            r@[1]@ == self@.asset1,
    {
        let mut both: Vec<AssetId> = Vec::new();
        both.push(self.pair.first().clone());
        both.push(self.pair.second().clone());
        both
    }

    /// The pool's name: the symbol of its pair, from what the asset registry
    /// holds as the display symbol of the first and of the second asset.
    pub fn name(&self, symbol0: Option<String>, symbol1: Option<String>) -> (r: String)
        ensures
            r@ == pair_symbol_text(
                self@.asset0,
                self@.asset1,
                text_of(symbol0),
                text_of(symbol1),
            ),
    {
        pair_symbol(self.pair.first().clone(), self.pair.second().clone(), symbol0, symbol1)
    }

    /// The sibling of `address` in the pool.
    pub fn other_resource_address(&self, address: &AssetId) -> (r: Result<AssetId, PoolError>)
        ensures
            r matches Ok(other) ==> self@.belongs(address@) && other@ == self@.other(address@),
            r matches Err(e) ==> !self@.belongs(address@) && e == PoolError::Membership,
    {
        self.assert_belongs_to_pool(address)?;
        if address.same_as(self.pair.first()) {
            Ok(self.pair.second().clone())
        } else {
            Ok(self.pair.first().clone())
        }
    }

    /// The token that stands for a share of this pool.
    pub fn provider_token_address(&self) -> (r: &AssetId)
        ensures
            r@ == self@.share_token,
    {
        &self.provider_token
    }

    /// How many shares are outstanding.
    pub fn provider_supply(&self) -> (r: Amount)
        ensures
            r@ == self@.share_supply,
    {
        self.provider_supply
    }

    /// The fee taken on swaps, a percentage.
    pub fn pool_fee(&self) -> (r: Amount)
        ensures
            r@ == self@.fee,
    {
        self.pool_fee
    }

    /// The pair the pool trades.
    pub fn pair(&self) -> (r: &PairKey)
        ensures
            r@ == (self@.asset0, self@.asset1),
    {
        &self.pair
    }

    /// The pool's reserve of one of its two assets.
    pub fn reserve(&self, address: &AssetId) -> (r: Result<Amount, PoolError>)
        ensures
            r matches Ok(held) ==> self@.belongs(address@) && held@ == self@.reserve_of(address@),
            r matches Err(e) ==> !self@.belongs(address@) && e == PoolError::Membership,
    {
        self.assert_belongs_to_pool(address)?;
        if address.same_as(self.pair.first()) {
            Ok(self.reserve0)
        } else {
            Ok(self.reserve1)
        }
    }

    /// The product of the two reserves.
    pub fn k(&self) -> (r: Result<Amount, PoolError>)
        ensures
            r matches Ok(product) ==> self@.k() == Some(product@),
            r matches Err(e) ==> self@.k() is None && e == PoolError::Overflow,
    {
        try_mul(self.reserve0, self.reserve1)
    }

    /// The output that `input_amount` of `input_resource_address` would buy
    /// now.
    pub fn calculate_output_amount(
        &self,
        input_resource_address: &AssetId,
        input_amount: Amount,
    ) -> (r: Result<Amount, PoolError>)
        requires
            self.wf(),
        ensures
            r matches Ok(out) ==> self@.output_quote(input_resource_address@, input_amount@)
                == Ok::<nat, PoolError>(out@),
            r matches Err(e) ==> self@.output_quote(input_resource_address@, input_amount@)
                == Err::<nat, PoolError>(e),
    {
        let x = self.reserve(input_resource_address)?;
        let sibling = self.other_resource_address(input_resource_address)?;
        let y = self.reserve(&sibling)?;
        output_for_input(x, y, self.pool_fee, input_amount)
    }

    /// The input of the sibling asset that `output_amount` of
    /// `output_resource_address` would cost now. Refused with `Liquidity`
    /// where the pool does not hold more than the output.
    pub fn calculate_input_amount(
        &self,
        output_resource_address: &AssetId,
        output_amount: Amount,
    ) -> (r: Result<Amount, PoolError>)
        requires
            self.wf(),
        ensures
            r matches Ok(input) ==> self@.input_quote(output_resource_address@, output_amount@)
                == Ok::<nat, PoolError>(input@),
            r matches Err(e) ==> self@.input_quote(output_resource_address@, output_amount@)
                == Err::<nat, PoolError>(e),
    {
        let y = self.reserve(output_resource_address)?;
        let sibling = self.other_resource_address(output_resource_address)?;
        let x = self.reserve(&sibling)?;
        input_for_output(x, y, self.pool_fee, output_amount)
    }

    /// Puts a bucket of one of the pool's assets into its reserve.
    fn deposit(&mut self, bucket: Bucket) -> (r: Result<(), PoolError>)
        requires
            old(self).wf(),
        ensures
            final(self).wf(),
            r is Ok ==> old(self)@.belongs(bucket@.asset) && final(self)@
                == old(self)@.with_reserve(
                bucket@.asset,
                old(self)@.reserve_of(bucket@.asset) + bucket@.amount,
            ),
            r is Ok <==> old(self)@.belongs(bucket@.asset) && old(self)@.reserve_of(bucket@.asset)
                + bucket@.amount <= max_attos(),
            r is Err ==> final(self)@ == old(self)@,
            r matches Err(e) ==> e == (if old(self)@.belongs(bucket@.asset) {
                PoolError::Overflow
            } else {
                PoolError::Membership
            }),
    {
        let held = self.reserve(bucket.resource_address())?;
        let grown = try_add(held, bucket.amount())?;
        if bucket.resource_address().same_as(self.pair.first()) {
            self.reserve0 = grown;
        } else {
            self.reserve1 = grown;
        }
        Ok(())
    }

    /// Takes `amount` of one of the pool's assets out of its reserve.
    fn withdraw(
        &mut self,
        resource_address: &AssetId,
        amount: Amount,
    ) -> (r: Result<Bucket, PoolError>)
        requires
            old(self).wf(),
        ensures
            final(self).wf(),
            r matches Ok(taken) ==> old(self)@.belongs(resource_address@) && taken@ == fungible(
                resource_address@,
                amount@,
            ) && final(self)@ == old(self)@.with_reserve(
                resource_address@,
                (old(self)@.reserve_of(resource_address@) - amount@) as nat,
            ),
            r is Ok <==> old(self)@.belongs(resource_address@) && amount@
                <= old(self)@.reserve_of(resource_address@),
            r is Err ==> final(self)@ == old(self)@,
            r matches Err(e) ==> e == (if old(self)@.belongs(resource_address@) {
                PoolError::Liquidity
            } else {
                PoolError::Membership
            }),
    {
        let held = self.reserve(resource_address)?;
        let rest = match held.checked_sub(amount) {
            Some(rest) => rest,
            None => {
                return Err(PoolError::Liquidity);
            },
        };
        if resource_address.same_as(self.pair.first()) {
            self.reserve0 = rest;
        } else {
            self.reserve1 = rest;
        }
        Ok(Bucket::new(resource_address.clone(), AssetKind::Fungible, amount))
    }

    /// Why the pool would refuse to take `tokens` in and give `out` of the
    /// sibling asset out, if it would.
    fn exchange_refusal(&self, tokens: &Bucket, out: Amount) -> (r: Option<PoolError>)
        requires
            self.wf(),
            self@.belongs(tokens@.asset),
        ensures
            r matches Some(e) ==> self@.exchange(tokens@.asset, tokens@.amount, out@) == Err::<
                Swapped,
                PoolError,
            >(e),
            r is None ==> self@.exchange(tokens@.asset, tokens@.amount, out@) is Ok,
    {
        let held_out = if tokens.resource_address().same_as(self.pair.first()) {
            self.reserve1
        } else {
            self.reserve0
        };
        let held_in = if tokens.resource_address().same_as(self.pair.first()) {
            self.reserve0
        } else {
            self.reserve1
        };
        proof {
            self@.lemma_assets_differ();
        }
        if held_out.less_than(&out) {
            Some(PoolError::Liquidity)
        } else if held_in.checked_add(tokens.amount()).is_none() {
            Some(PoolError::Overflow)
        } else {
            None
        }
    }

    /// Takes `out` of the sibling of `tokens`' asset out of the pool and puts
    /// `tokens` in.
    fn exchange(&mut self, tokens: Bucket, out: Amount) -> (r: Result<Bucket, PoolError>)
        requires
            old(self).wf(),
            old(self)@.belongs(tokens@.asset),
        ensures
            final(self).wf(),
            r matches Ok(output) ==> old(self)@.exchange(tokens@.asset, tokens@.amount, out@)
                == Ok::<Swapped, PoolError>((final(self)@, output@)),
            r matches Err(e) ==> old(self)@.exchange(tokens@.asset, tokens@.amount, out@)
                == Err::<Swapped, PoolError>(e) && final(self)@ == old(self)@,
    {
        if let Some(e) = self.exchange_refusal(&tokens, out) {
            return Err(e);
        }
        proof {
            self@.lemma_assets_differ();
        }
        let sibling = self.other_resource_address(tokens.resource_address())?;
        let output = self.withdraw(&sibling, out)?;
        self.deposit(tokens)?;
        Ok(output)
    }

    /// Swaps a whole bucket of one of the pool's assets for its sibling. The
    /// output is quoted on the reserves as they are before the bucket goes in.
    /// The product of the reserves never falls; where the fee is zero it
    /// grows by less than one whole unit and the new reserve of the input
    /// asset taken together, in square attos.
    pub fn swap(&mut self, tokens: Bucket) -> (r: Result<Bucket, PoolError>)
        requires
            old(self).wf(),
        ensures
            final(self).wf(),
            r matches Ok(output) ==> old(self)@.swap(tokens@) == Ok::<Swapped, PoolError>(
                (final(self)@, output@),
            ),
            r matches Err(e) ==> old(self)@.swap(tokens@) == Err::<Swapped, PoolError>(e)
                && final(self)@ == old(self)@,
            r is Ok ==> final(self)@.reserve0 * final(self)@.reserve1 >= old(self)@.reserve0
                * old(self)@.reserve1,
            r is Ok && old(self)@.fee == 0 ==> final(self)@.reserve0 * final(self)@.reserve1
                < old(self)@.reserve0 * old(self)@.reserve1 + one() + final(self)@.reserve_of(
                tokens@.asset,
            ),
            !(r matches Err(PoolError::Liquidity)),
    {
        proof {
            law_swap_never_wants_liquidity(self@, tokens@);
        }
        let out = self.calculate_output_amount(tokens.resource_address(), tokens.amount())?;
        let done = self.exchange(tokens, out);
        proof {
            if done is Ok {
                law_swap_keeps_product(old(self)@, tokens@);
            }
        }
        done
    }

    /// Swaps a whole bucket for no less than `min_amount_out` of the sibling
    /// asset. Refused with `Slippage`, and the pool left as it was, where the
    /// swap would give less.
    pub fn swap_exact_tokens_for_tokens(
        &mut self,
        tokens: Bucket,
        min_amount_out: Amount,
    ) -> (r: Result<Bucket, PoolError>)
        requires
            old(self).wf(),
        ensures
            final(self).wf(),
            r matches Ok(output) ==> old(self)@.swap_exact_in(tokens@, min_amount_out@) == Ok::<
                Swapped,
                PoolError,
            >((final(self)@, output@)),
            r matches Err(e) ==> old(self)@.swap_exact_in(tokens@, min_amount_out@) == Err::<
                Swapped,
                PoolError,
            >(e) && final(self)@ == old(self)@,
            old(self)@.swap(tokens@) is Ok && old(self)@.swap(tokens@)->Ok_0.1.amount
                < min_amount_out@ ==> (r matches Err(PoolError::Slippage)) && final(self)@
                == old(self)@,
    {
        let out = self.calculate_output_amount(tokens.resource_address(), tokens.amount())?;
        if let Some(e) = self.exchange_refusal(&tokens, out) {
            return Err(e);
        }
        if out.less_than(&min_amount_out) {
            return Err(PoolError::Slippage);
        }
        self.exchange(tokens, out)
    }

    /// Swaps for exactly `output_amount` of the sibling of the bucket's asset.
    /// The bucket pays what that costs and comes back with the rest, after the
    /// output.
    pub fn swap_tokens_for_exact_tokens(
        &mut self,
        tokens: Bucket,
        output_amount: Amount,
    ) -> (r: Result<(Bucket, Bucket), PoolError>)
        requires
            old(self).wf(),
        ensures
            final(self).wf(),
            r matches Ok(pair) ==> old(self)@.swap_exact_out(tokens@, output_amount@) == Ok::<
                SwappedExact,
                PoolError,
            >((final(self)@, pair.0@, pair.1@)),
            r matches Err(e) ==> old(self)@.swap_exact_out(tokens@, output_amount@) == Err::<
                SwappedExact,
                PoolError,
            >(e) && final(self)@ == old(self)@,
    {
        let mut tokens = tokens;
        let sibling = self.other_resource_address(tokens.resource_address())?;
        let input_required = self.calculate_input_amount(&sibling, output_amount)?;
        let paid = tokens.take(input_required)?;
        let output = self.exchange(paid, output_amount)?;
        Ok((output, tokens))
    }

    /// Deposits one bucket of each of the pool's assets, neither empty, for
    /// shares. An offer that is not in the pool's ratio is taken only as far
    /// as the ratio allows. What is left of each bucket comes back, in the
    /// canonical order of the assets, and then the shares.
    pub fn add_liquidity(
        &mut self,
        token0: Bucket,
        token1: Bucket,
    ) -> (r: Result<(Bucket, Bucket, Bucket), PoolError>)
        requires
            old(self).wf(),
        ensures
            final(self).wf(),
            r matches Ok(back) ==> old(self)@.add_liquidity(token0@, token1@) == Ok::<
                Deposited,
                PoolError,
            >((final(self)@, back.0@, back.1@, back.2@)),
            r matches Err(e) ==> old(self)@.add_liquidity(token0@, token1@) == Err::<
                Deposited,
                PoolError,
            >(e) && final(self)@ == old(self)@,
    {
        self.assert_belongs_to_pool(token0.resource_address())?;
        self.assert_belongs_to_pool(token1.resource_address())?;
        if token0.resource_address().same_as(token1.resource_address()) {
            return Err(PoolError::Validation);
        }
        if token0.is_empty() || token1.is_empty() {
            return Err(PoolError::Validation);
        }
        let (mut bucket0, mut bucket1) = sort_buckets(token0, token1);
        proof {
            crate::asset::lemma_bytes_order_total(token0@.asset, token1@.asset);
        }
        let dm = bucket0.amount();
        let dn = bucket1.amount();
        let m = self.reserve0;
        let n = self.reserve1;
        let (amount0, amount1) = deposit_split(m, n, dm, dn)?;
        if dm.less_than(&amount0) || dn.less_than(&amount1) {
            return Err(PoolError::Liquidity);
        }
        let reserve0 = try_add(m, amount0)?;
        let reserve1 = try_add(n, amount1)?;
        let provider_amount = shares_for_deposit(m, n, self.provider_supply, amount0)?;
        let provider_supply = try_add(self.provider_supply, provider_amount)?;
        let paid0 = bucket0.take(amount0)?;
        let paid1 = bucket1.take(amount1)?;
        self.deposit(paid0)?;
        self.deposit(paid1)?;
        let provider_tokens = self.mint(provider_amount)?;
        Ok((bucket0, bucket1, provider_tokens))
    }

    /// Redeems a bucket of this pool's shares: burns it whole and withdraws
    /// its fraction of each reserve, in the canonical order of the assets.
    /// Refused with `Validation` where the bucket holds another token.
    pub fn remove_liquidity(
        &mut self,
        provider_tokens: Bucket,
    ) -> (r: Result<(Bucket, Bucket), PoolError>)
        requires
            old(self).wf(),
        ensures
            final(self).wf(),
            r matches Ok(back) ==> old(self)@.remove_liquidity(provider_tokens@) == Ok::<
                Redeemed,
                PoolError,
            >((final(self)@, back.0@, back.1@)),
            r matches Err(e) ==> old(self)@.remove_liquidity(provider_tokens@) == Err::<
                Redeemed,
                PoolError,
            >(e) && final(self)@ == old(self)@,
            provider_tokens@.asset != old(self)@.share_token ==> (r matches Err(
                PoolError::Validation,
            )) && final(self)@ == old(self)@,
    {
        if !provider_tokens.resource_address().same_as(&self.provider_token) {
            return Err(PoolError::Validation);
        }
        if self.provider_supply.less_than(&provider_tokens.amount()) {
            return Err(PoolError::Liquidity);
        }
        let (amount0, amount1) = withdrawal_split(
            self.reserve0,
            self.reserve1,
            self.provider_supply,
            provider_tokens.amount(),
        )?;
        if self.reserve0.less_than(&amount0) || self.reserve1.less_than(&amount1) {
            return Err(PoolError::Liquidity);
        }
        proof {
            self@.lemma_assets_differ();
        }
        self.burn(provider_tokens)?;
        let first = self.pair.first().clone();
        let second = self.pair.second().clone();
        let bucket0 = self.withdraw(&first, amount0)?;
        let bucket1 = self.withdraw(&second, amount1)?;
        Ok((bucket0, bucket1))
    }

    /// Issues `amount` new shares.
    fn mint(&mut self, amount: Amount) -> (r: Result<Bucket, PoolError>)
        requires
            old(self).wf(),
        ensures
            final(self).wf(),
            r is Ok <==> old(self)@.share_supply + amount@ <= max_attos(),
            r matches Ok(minted) ==> minted@ == fungible(
                old(self)@.share_token,
                amount@,
            ) && final(self)@ == (PoolState {
                share_supply: old(self)@.share_supply + amount@,
                ..old(self)@
            }),
            r matches Err(e) ==> e == PoolError::Overflow && final(self)@ == old(self)@,
    {
        let grown = try_add(self.provider_supply, amount)?;
        self.provider_supply = grown;
        Ok(Bucket::new(self.provider_token.clone(), AssetKind::Fungible, amount))
    }

    /// Destroys a bucket of this pool's shares.
    fn burn(&mut self, provider_tokens: Bucket) -> (r: Result<(), PoolError>)
        requires
            old(self).wf(),
            provider_tokens@.asset == old(self)@.share_token,
        ensures
            final(self).wf(),
            r is Ok <==> provider_tokens@.amount <= old(self)@.share_supply,
            r is Ok ==> final(self)@ == (PoolState {
                share_supply: (old(self)@.share_supply - provider_tokens@.amount) as nat,
                ..old(self)@
            }),
            r matches Err(e) ==> e == PoolError::Liquidity && final(self)@ == old(self)@,
    {
        match self.provider_supply.checked_sub(provider_tokens.amount()) {
            Some(rest) => {
                self.provider_supply = rest;
                Ok(())
            },
            None => Err(PoolError::Liquidity),
        }
    }
}

} // verus!
