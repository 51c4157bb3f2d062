use elision_exchange::amount::Amount;
use elision_exchange::asset::{AssetId, PairKey};
use elision_exchange::bucket::{AssetKind, Bucket};
use elision_exchange::error::PoolError;
use elision_exchange::liquidity_pool::LiquidityPool;
use elision_exchange::swap::ElisionSwap;

const ONE: u128 = 1_000_000_000_000_000_000;

fn asset_a() -> AssetId {
    AssetId::new(vec![0xa0, 1])
}

fn asset_b() -> AssetId {
    AssetId::new(vec![0xb0, 1])
}

fn asset_c() -> AssetId {
    AssetId::new(vec![0xc0, 1])
}

fn token(n: u8) -> AssetId {
    AssetId::new(vec![0xff, n])
}

fn bucket(asset: AssetId, attos: u128) -> Bucket {
    Bucket::new(asset, AssetKind::Fungible, Amount::from_attos(attos))
}

fn attos(a: Amount) -> u128 {
    a.to_attos().unwrap()
}

fn router_with_ab() -> ElisionSwap {
    let mut router = ElisionSwap::new();
    router
        .new_liquidity_pool(bucket(asset_a(), 1000 * ONE), bucket(asset_b(), 1000 * ONE), token(1))
        .unwrap();
    router
}

fn reserves(router: &ElisionSwap, x: &AssetId, y: &AssetId) -> (u128, u128) {
    let pool = router.pool(x, y).unwrap();
    (attos(pool.reserve(x).unwrap()), attos(pool.reserve(y).unwrap()))
}

#[test]
fn a_new_router_has_no_pools() {
    let router = ElisionSwap::new();
    assert_eq!(router.pool_count(), 0);
    assert!(!router.pool_exists(&asset_a(), &asset_b()));
    assert!(router.pool(&asset_a(), &asset_b()).is_none());
    assert_eq!(router.assert_exists(&asset_a(), &asset_b()), Err(PoolError::NotFound));
    assert_eq!(router.assert_not_exists(&asset_a(), &asset_b()), Ok(()));
}

#[test]
fn a_pool_is_registered_for_the_pair_either_way_round() {
    let mut router = ElisionSwap::new();
    let shares = router
        .new_liquidity_pool(bucket(asset_a(), 1000 * ONE), bucket(asset_b(), 500 * ONE), token(1))
        .unwrap();
    assert_eq!(attos(shares.amount()), 100 * ONE);
    assert_eq!(shares.resource_address().bytes, token(1).bytes);
    assert_eq!(router.pool_count(), 1);
    assert!(router.pool_exists(&asset_a(), &asset_b()));
    assert!(router.pool_exists(&asset_b(), &asset_a()));
    assert!(!router.pool_exists(&asset_a(), &asset_c()));
    assert!(!router.pool_exists(&asset_a(), &asset_a()));
    assert_eq!(router.assert_exists(&asset_b(), &asset_a()), Ok(()));
    assert_eq!(router.assert_not_exists(&asset_b(), &asset_a()), Err(PoolError::AlreadyExists));
    assert_eq!(reserves(&router, &asset_a(), &asset_b()), (1000 * ONE, 500 * ONE));
}

#[test]
fn the_router_creates_pools_at_three_tenths_of_a_percent() {
    let router = router_with_ab();
    let pool = router.pool(&asset_a(), &asset_b()).unwrap();
    assert_eq!(attos(pool.pool_fee()), 300_000_000_000_000_000);
    assert_eq!(pool.name(Some(String::from("B")), Some(String::from("A"))), "B-A");
    assert_eq!(pool.addresses()[0].bytes, asset_b().bytes);
}

#[test]
fn a_second_pool_for_a_pair_is_refused() {
    let mut router = router_with_ab();
    let r =
        router.new_liquidity_pool(bucket(asset_b(), ONE), bucket(asset_a(), ONE), token(2));
    assert_eq!(r.err(), Some(PoolError::AlreadyExists));
    assert_eq!(router.pool_count(), 1);
    assert_eq!(reserves(&router, &asset_a(), &asset_b()), (1000 * ONE, 1000 * ONE));
}

#[test]
fn a_share_token_serves_one_pool_only() {
    let mut router = router_with_ab();
    let r =
        router.new_liquidity_pool(bucket(asset_a(), ONE), bucket(asset_c(), ONE), token(1));
    assert_eq!(r.err(), Some(PoolError::Validation));
    assert_eq!(router.pool_count(), 1);
    assert!(!router.pool_exists(&asset_a(), &asset_c()));
}

#[test]
fn a_pool_of_one_asset_is_refused_and_nothing_is_registered() {
    let mut router = ElisionSwap::new();
    let r =
        router.new_liquidity_pool(bucket(asset_a(), ONE), bucket(asset_a(), ONE), token(1));
    assert_eq!(r.err(), Some(PoolError::Validation));
    assert_eq!(router.pool_count(), 0);
    let r = router.add_liquidity(bucket(asset_a(), ONE), bucket(asset_a(), ONE), token(1));
    assert_eq!(r.err(), Some(PoolError::Validation));
    assert_eq!(router.pool_count(), 0);
}

#[test]
fn a_deposit_of_a_tenth_of_the_reserves_mints_ten_shares() {
    let mut router = router_with_ab();
    let (rest0, rest1, shares) = router
        .add_liquidity(bucket(asset_a(), 100 * ONE), bucket(asset_b(), 100 * ONE), token(2))
        .unwrap();
    assert!(rest0.unwrap().is_empty());
    assert!(rest1.unwrap().is_empty());
    assert_eq!(attos(shares.amount()), 10 * ONE);
    assert_eq!(shares.resource_address().bytes, token(1).bytes);
    assert_eq!(reserves(&router, &asset_a(), &asset_b()), (1100 * ONE, 1100 * ONE));
    assert_eq!(router.pool_count(), 1);
}

#[test]
fn a_swap_of_ten_against_a_thousand_yields_nine_point_eight_seven() {
    let mut router = router_with_ab();
    let out = router.swap(bucket(asset_a(), 10 * ONE), &asset_b()).unwrap();
    assert_eq!(out.resource_address().bytes, asset_b().bytes);
    assert_eq!(attos(out.amount()), 9_871_580_343_970_612_988);
    assert_eq!(
        reserves(&router, &asset_a(), &asset_b()),
        (1010 * ONE, 990_128_419_656_029_387_012)
    );
}

#[test]
fn a_deposit_for_a_pair_without_a_pool_creates_one() {
    let mut router = router_with_ab();
    let (rest0, rest1, shares) = router
        .add_liquidity(bucket(asset_c(), 5 * ONE), bucket(asset_a(), 20 * ONE), token(2))
        .unwrap();
    assert!(rest0.is_none());
    assert!(rest1.is_none());
    assert_eq!(attos(shares.amount()), 100 * ONE);
    assert_eq!(shares.resource_address().bytes, token(2).bytes);
    assert_eq!(router.pool_count(), 2);
    assert_eq!(reserves(&router, &asset_a(), &asset_c()), (20 * ONE, 5 * ONE));
    assert_eq!(reserves(&router, &asset_a(), &asset_b()), (1000 * ONE, 1000 * ONE));
}

#[test]
fn shares_are_redeemed_at_the_pool_that_issued_them() {
    let mut router = router_with_ab();
    router
        .new_liquidity_pool(bucket(asset_a(), 40 * ONE), bucket(asset_c(), 80 * ONE), token(2))
        .unwrap();
    let (out0, out1) = router.remove_liquidity(bucket(token(2), 50 * ONE)).unwrap();
    assert_eq!(out0.resource_address().bytes, asset_c().bytes);
    assert_eq!(attos(out0.amount()), 40 * ONE);
    assert_eq!(out1.resource_address().bytes, asset_a().bytes);
    assert_eq!(attos(out1.amount()), 20 * ONE);
    assert_eq!(reserves(&router, &asset_a(), &asset_c()), (20 * ONE, 40 * ONE));
    assert_eq!(reserves(&router, &asset_a(), &asset_b()), (1000 * ONE, 1000 * ONE));
}

#[test]
fn shares_of_no_pool_are_not_found() {
    let mut router = router_with_ab();
    let r = router.remove_liquidity(bucket(token(7), ONE));
    assert_eq!(r.err(), Some(PoolError::NotFound));
    let r = router.remove_liquidity(bucket(asset_a(), ONE));
    assert_eq!(r.err(), Some(PoolError::NotFound));
    assert_eq!(reserves(&router, &asset_a(), &asset_b()), (1000 * ONE, 1000 * ONE));
}

#[test]
fn a_swap_for_a_pair_without_a_pool_is_not_found() {
    let mut router = router_with_ab();
    let r = router.swap(bucket(asset_a(), ONE), &asset_c());
    assert_eq!(r.err(), Some(PoolError::NotFound));
    let r = router.swap(bucket(asset_a(), ONE), &asset_a());
    assert_eq!(r.err(), Some(PoolError::NotFound));
    let r = router.swap_exact_tokens_for_tokens(
        bucket(asset_c(), ONE),
        &asset_b(),
        Amount::zero(),
    );
    assert_eq!(r.err(), Some(PoolError::NotFound));
    let r = router.swap_tokens_for_exact_tokens(
        bucket(asset_c(), ONE),
        &asset_b(),
        Amount::from_units(1),
    );
    assert_eq!(r.err(), Some(PoolError::NotFound));
    assert_eq!(reserves(&router, &asset_a(), &asset_b()), (1000 * ONE, 1000 * ONE));
}

#[test]
fn a_routed_swap_below_the_minimum_is_refused_and_changes_nothing() {
    let mut router = router_with_ab();
    let r = router.swap_exact_tokens_for_tokens(
        bucket(asset_a(), 10 * ONE),
        &asset_b(),
        Amount::from_units(10),
    );
    assert_eq!(r.err(), Some(PoolError::Slippage));
    assert_eq!(reserves(&router, &asset_a(), &asset_b()), (1000 * ONE, 1000 * ONE));
    let out = router
        .swap_exact_tokens_for_tokens(bucket(asset_a(), 10 * ONE), &asset_b(), Amount::from_units(9))
        .unwrap();
    assert_eq!(attos(out.amount()), 9_871_580_343_970_612_988);
}

#[test]
fn a_routed_swap_for_an_exact_output_returns_the_rest() {
    let mut router = router_with_ab();
    let (out, rest) = router
        .swap_tokens_for_exact_tokens(bucket(asset_b(), 20 * ONE), &asset_a(), Amount::from_units(10))
        .unwrap();
    assert_eq!(out.resource_address().bytes, asset_a().bytes);
    assert_eq!(attos(out.amount()), 10 * ONE);
    assert_eq!(rest.resource_address().bytes, asset_b().bytes);
    assert_eq!(attos(rest.amount()), 20 * ONE - 10_131_404_313_951_956_880);
    assert_eq!(
        reserves(&router, &asset_a(), &asset_b()),
        (990 * ONE, 1000 * ONE + 10_131_404_313_951_956_880)
    );
}

#[test]
fn a_routed_deposit_of_mismatched_amounts_returns_the_excess() {
    let mut router = router_with_ab();
    let (rest0, rest1, shares) = router
        .add_liquidity(bucket(asset_a(), 100 * ONE), bucket(asset_b(), 250 * ONE), token(2))
        .unwrap();
    let rest0 = rest0.unwrap();
    let rest1 = rest1.unwrap();
    assert_eq!(rest0.resource_address().bytes, asset_b().bytes);
    assert_eq!(attos(rest0.amount()), 150 * ONE);
    assert_eq!(rest1.resource_address().bytes, asset_a().bytes);
    assert_eq!(attos(rest1.amount()), 0);
    assert_eq!(attos(shares.amount()), 10 * ONE);
}

fn restored(x: AssetId, y: AssetId, share: AssetId) -> LiquidityPool {
    LiquidityPool::from_state(
        PairKey::canonicalize(x, y).unwrap(),
        Amount::from_units(30),
        Amount::from_units(60),
        share,
        Amount::from_units(100),
        Amount::from_units(1),
    )
    .unwrap()
}

#[test]
fn a_pool_is_restored_from_what_the_ledger_holds() {
    let pool = restored(asset_a(), asset_b(), token(1));
    assert_eq!(attos(pool.reserve(&asset_b()).unwrap()), 30 * ONE);
    assert_eq!(attos(pool.reserve(&asset_a()).unwrap()), 60 * ONE);
    assert_eq!(attos(pool.provider_supply()), 100 * ONE);
    assert_eq!(attos(pool.pool_fee()), ONE);
    assert_eq!(pool.provider_token_address().bytes, token(1).bytes);
    assert_eq!(attos(pool.k().unwrap()), 1800 * ONE);
}

#[test]
fn a_pool_is_not_restored_with_a_fee_above_one_hundred_or_its_own_asset_for_shares() {
    let r = LiquidityPool::from_state(
        PairKey::canonicalize(asset_a(), asset_b()).unwrap(),
        Amount::zero(),
        Amount::zero(),
        token(1),
        Amount::zero(),
        Amount::from_attos(100 * ONE + 1),
    );
    assert_eq!(r.err(), Some(PoolError::Validation));
    let r = LiquidityPool::from_state(
        PairKey::canonicalize(asset_a(), asset_b()).unwrap(),
        Amount::zero(),
        Amount::zero(),
        asset_b(),
        Amount::zero(),
        Amount::zero(),
    );
    assert_eq!(r.err(), Some(PoolError::Validation));
}

#[test]
fn restored_pools_are_registered_once_each() {
    let mut router = ElisionSwap::new();
    assert_eq!(router.register(restored(asset_a(), asset_b(), token(1))), Ok(()));
    assert_eq!(router.register(restored(asset_a(), asset_c(), token(2))), Ok(()));
    assert_eq!(
        router.register(restored(asset_b(), asset_a(), token(3))),
        Err(PoolError::AlreadyExists)
    );
    assert_eq!(
        router.register(restored(asset_b(), asset_c(), token(2))),
        Err(PoolError::Validation)
    );
    assert_eq!(router.pool_count(), 2);
    assert!(router.pool_exists(&asset_c(), &asset_a()));
    assert!(!router.pool_exists(&asset_c(), &asset_b()));
    let out = router.swap(bucket(asset_c(), ONE), &asset_a()).unwrap();
    assert_eq!(out.resource_address().bytes, asset_a().bytes);
}

#[test]
fn the_router_names_a_pool_and_lists_its_assets() {
    let router = router_with_ab();
    let both = router.addresses(&asset_a(), &asset_b()).unwrap();
    assert_eq!(both.len(), 2);
    assert_eq!(both[0].bytes, asset_b().bytes);
    assert_eq!(both[1].bytes, asset_a().bytes);
    let name =
        router.name(asset_a(), asset_b(), Some(String::from("AAA")), None).unwrap();
    assert_eq!(name, "b001-AAA");
    assert_eq!(router.addresses(&asset_a(), &asset_c()).err(), Some(PoolError::NotFound));
    assert_eq!(
        router.name(asset_a(), asset_c(), None, None).err(),
        Some(PoolError::NotFound)
    );
}
