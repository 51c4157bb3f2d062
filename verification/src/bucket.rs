//! Buckets: containers that carry an amount of one asset between callers and
//! pools.

use crate::amount::{max_attos, Amount};
use crate::asset::{lemma_bytes_order_total, precedes, AssetId};
use crate::error::PoolError;
use vstd::prelude::*;

verus! {

/// Whether units of an asset are interchangeable.
#[derive(Clone, Copy, Debug, PartialEq, Eq, Structural)]
pub enum AssetKind {
    Fungible,
    NonFungible,
}

/// What a bucket holds.
pub ghost struct BucketView {
    pub asset: Seq<u8>,
    pub kind: AssetKind,
    pub amount: nat,
}

/// A container of one asset. Splitting off an amount leaves the rest behind,
/// and a bucket emptied that way still exists.
#[derive(Debug)]
pub struct Bucket {
    asset: AssetId,
    kind: AssetKind,
    amount: Amount,
}

impl View for Bucket {
    type V = BucketView;

    closed spec fn view(&self) -> BucketView {
        BucketView { asset: self.asset@, kind: self.kind, amount: self.amount@ }
    }
}

impl Bucket {
    /// A bucket of `amount` of `asset`.
    pub fn new(asset: AssetId, kind: AssetKind, amount: Amount) -> (r: Bucket)
        ensures
            r@ == (BucketView { asset: asset@, kind, amount: amount@ }),
    {
        Bucket { asset, kind, amount }
    }

    /// The asset held.
    pub fn resource_address(&self) -> (r: &AssetId)
        ensures
            r@ == self@.asset,
    {
        &self.asset
    }

    /// Whether units of the asset held are interchangeable.
    pub fn kind(&self) -> (r: AssetKind)
        ensures
            r == self@.kind,
    {
        self.kind
    }

    /// How much is held.
    pub fn amount(&self) -> (r: Amount)
        ensures
            r@ == self@.amount,
            self@.amount <= max_attos(),
    {
        proof {
            use_type_invariant(&self.amount);
            self.amount.lemma_in_range_bounded();
        }
        self.amount
    }

    /// Takes the bucket apart.
    pub fn into_parts(self) -> (r: (AssetId, AssetKind, Amount))
        ensures
            self@ == (BucketView { asset: r.0@, kind: r.1, amount: r.2@ }),
            self@.amount <= max_attos(),
    {
        proof {
            use_type_invariant(&self.amount);
            self.amount.lemma_in_range_bounded();
        }
        (self.asset, self.kind, self.amount)
    }

    /// Whether nothing is held.
    pub fn is_empty(&self) -> (r: bool)
        ensures
            r == (self@.amount == 0),
    {
        self.amount.is_zero()
    }

    /// Splits `amount` off into a new bucket of the same asset. Refused with
    /// `Liquidity`, and nothing changed, where the bucket holds less.
    pub fn take(&mut self, amount: Amount) -> (r: Result<Bucket, PoolError>)
        ensures
            amount@ <= old(self)@.amount ==> r is Ok,
            r matches Ok(taken) ==> amount@ <= old(self)@.amount && taken@ == (BucketView {
                amount: amount@,
                ..old(self)@
            }) && final(self)@ == (BucketView {
                amount: (old(self)@.amount - amount@) as nat,
                ..old(self)@
            }),
            r matches Err(e) ==> e == PoolError::Liquidity && final(self)@ == old(self)@,
    {
        match self.amount.checked_sub(amount) {
            Some(rest) => {
                self.amount = rest;
                Ok(Bucket { asset: self.asset.clone(), kind: self.kind, amount })
            },
            None => Err(PoolError::Liquidity),
        }
    }
}

/// Orders two buckets by the canonical order of their assets. Buckets of the
/// same asset come back as they are.
pub fn sort_buckets(bucket0: Bucket, bucket1: Bucket) -> (r: (Bucket, Bucket))
    ensures
        r == (if precedes(bucket0@.asset, bucket1@.asset) || bucket0@.asset == bucket1@.asset {
            (bucket0, bucket1)
        } else {
            (bucket1, bucket0)
        }),
{
    if bucket1.asset.comes_before(&bucket0.asset) {
        proof {
            lemma_bytes_order_total(bucket0@.asset, bucket1@.asset);
        }
        (bucket1, bucket0)
    } else {
        proof {
            lemma_bytes_order_total(bucket0@.asset, bucket1@.asset);
        }
        (bucket0, bucket1)
    }
}

} // verus!
