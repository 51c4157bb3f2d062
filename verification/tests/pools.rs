use elision_exchange::amount::Amount;
use elision_exchange::asset::AssetId;
use elision_exchange::bucket::{AssetKind, Bucket};
use elision_exchange::error::PoolError;
use elision_exchange::liquidity_pool::LiquidityPool;

const ONE: u128 = 1_000_000_000_000_000_000;

// `hi` comes first in the canonical order, `lo` second.
fn hi() -> AssetId {
    AssetId::new(vec![2, 0, 0])
}

fn lo() -> AssetId {
    AssetId::new(vec![1, 0, 0])
}

fn shares_id() -> AssetId {
    AssetId::new(vec![9, 9, 9])
}

fn stranger() -> AssetId {
    AssetId::new(vec![5])
}

fn bucket(asset: AssetId, attos: u128) -> Bucket {
    Bucket::new(asset, AssetKind::Fungible, Amount::from_attos(attos))
}

fn fee(attos: u128) -> Amount {
    Amount::from_attos(attos)
}

fn attos(a: Amount) -> u128 {
    a.to_attos().unwrap()
}

fn pool(hi_units: u128, lo_units: u128, fee_attos: u128) -> LiquidityPool {
    let (pool, _) = LiquidityPool::new(
        bucket(lo(), lo_units * ONE),
        bucket(hi(), hi_units * ONE),
        fee(fee_attos),
        shares_id(),
    )
    .unwrap();
    pool
}

fn reserves(pool: &LiquidityPool) -> (u128, u128) {
    (attos(pool.reserve(&hi()).unwrap()), attos(pool.reserve(&lo()).unwrap()))
}

#[test]
fn a_new_pool_holds_the_two_buckets_and_mints_the_bootstrap_shares() {
    let (pool, shares) = LiquidityPool::new(
        bucket(lo(), 40 * ONE),
        bucket(hi(), 60 * ONE),
        fee(ONE / 2),
        shares_id(),
    )
    .unwrap();
    assert_eq!(reserves(&pool), (60 * ONE, 40 * ONE));
    assert_eq!(attos(shares.amount()), 100 * ONE);
    assert_eq!(shares.resource_address().bytes, shares_id().bytes);
    assert_eq!(shares.kind(), AssetKind::Fungible);
    assert_eq!(attos(pool.provider_supply()), 100 * ONE);
    assert_eq!(attos(pool.pool_fee()), ONE / 2);
    assert_eq!(pool.provider_token_address().bytes, shares_id().bytes);
    let both = pool.addresses();
    assert_eq!(both.len(), 2);
    assert_eq!(both[0].bytes, hi().bytes);
    assert_eq!(both[1].bytes, lo().bytes);
    assert_eq!(pool.pair().first().bytes, hi().bytes);
    assert_eq!(pool.pair().second().bytes, lo().bytes);
}

#[test]
fn a_pool_of_one_asset_is_refused() {
    let r = LiquidityPool::new(bucket(lo(), ONE), bucket(lo(), ONE), fee(0), shares_id());
    assert_eq!(r.err(), Some(PoolError::Validation));
}

#[test]
fn a_pool_of_a_non_fungible_asset_is_refused() {
    let odd = Bucket::new(hi(), AssetKind::NonFungible, Amount::from_units(1));
    let r = LiquidityPool::new(bucket(lo(), ONE), odd, fee(0), shares_id());
    assert_eq!(r.err(), Some(PoolError::Validation));
    let odd = Bucket::new(lo(), AssetKind::NonFungible, Amount::from_units(1));
    let r = LiquidityPool::new(odd, bucket(hi(), ONE), fee(0), shares_id());
    assert_eq!(r.err(), Some(PoolError::Validation));
}

#[test]
fn a_pool_from_an_empty_bucket_is_refused() {
    let r = LiquidityPool::new(bucket(lo(), 0), bucket(hi(), ONE), fee(0), shares_id());
    assert_eq!(r.err(), Some(PoolError::Validation));
    let r = LiquidityPool::new(bucket(lo(), ONE), bucket(hi(), 0), fee(0), shares_id());
    assert_eq!(r.err(), Some(PoolError::Validation));
}

#[test]
fn a_fee_above_one_hundred_is_refused() {
    let r = LiquidityPool::new(bucket(lo(), ONE), bucket(hi(), ONE), fee(100 * ONE + 1), shares_id());
    assert_eq!(r.err(), Some(PoolError::Validation));
    let r = LiquidityPool::new(bucket(lo(), ONE), bucket(hi(), ONE), fee(100 * ONE), shares_id());
    assert!(r.is_ok());
}

#[test]
fn a_share_token_that_is_one_of_the_assets_is_refused() {
    let r = LiquidityPool::new(bucket(lo(), ONE), bucket(hi(), ONE), fee(0), lo());
    assert_eq!(r.err(), Some(PoolError::Validation));
    let r = LiquidityPool::new(bucket(lo(), ONE), bucket(hi(), ONE), fee(0), hi());
    assert_eq!(r.err(), Some(PoolError::Validation));
}

#[test]
fn membership_is_of_the_two_assets_only() {
    let p = pool(10, 10, 0);
    assert!(p.belongs_to_pool(&hi()));
    assert!(p.belongs_to_pool(&lo()));
    assert!(!p.belongs_to_pool(&stranger()));
    assert!(!p.belongs_to_pool(&shares_id()));
    assert_eq!(p.assert_belongs_to_pool(&hi()), Ok(()));
    assert_eq!(p.assert_belongs_to_pool(&stranger()), Err(PoolError::Membership));
}

#[test]
fn each_asset_has_the_other_for_sibling() {
    let p = pool(10, 10, 0);
    assert_eq!(p.other_resource_address(&hi()).unwrap().bytes, lo().bytes);
    assert_eq!(p.other_resource_address(&lo()).unwrap().bytes, hi().bytes);
    assert_eq!(p.other_resource_address(&stranger()).err(), Some(PoolError::Membership));
    assert_eq!(p.reserve(&stranger()).err(), Some(PoolError::Membership));
}

#[test]
fn k_is_the_product_of_the_reserves() {
    let p = pool(1000, 250, 0);
    assert_eq!(attos(p.k().unwrap()), 250_000 * ONE);
}

#[test]
fn the_pool_is_named_by_its_pair() {
    let p = pool(10, 10, 0);
    assert_eq!(p.name(Some(String::from("HI")), Some(String::from("LO"))), "HI-LO");
    assert_eq!(p.name(None, None), "020000-010000");
}

#[test]
fn output_is_quoted_by_the_constant_product_with_the_fee_taken() {
    let p = pool(1000, 1000, 3 * ONE / 10);
    let out = p.calculate_output_amount(&lo(), Amount::from_units(10)).unwrap();
    assert_eq!(attos(out), 9_871_580_343_970_612_988);
    let out = p.calculate_output_amount(&hi(), Amount::from_units(10)).unwrap();
    assert_eq!(attos(out), 9_871_580_343_970_612_988);
}

#[test]
fn output_is_quoted_from_the_reserve_of_the_input_side() {
    // 500 of `hi` against 2000 of `lo`, fee one percent, 7.5 of `hi` in.
    let p = pool(500, 2000, ONE);
    let out = p.calculate_output_amount(&hi(), Amount::from_attos(7 * ONE + ONE / 2)).unwrap();
    assert_eq!(attos(out), 29_265_408_681_085_874_759);
}

#[test]
fn a_fee_of_one_hundred_leaves_no_output() {
    let p = pool(1000, 1000, 100 * ONE);
    let out = p.calculate_output_amount(&lo(), Amount::from_units(10)).unwrap();
    assert_eq!(attos(out), 0);
}

#[test]
fn no_fee_gives_the_plain_constant_product_output() {
    let p = pool(1000, 1000, 0);
    let out = p.calculate_output_amount(&lo(), Amount::from_units(10)).unwrap();
    assert_eq!(attos(out), 9_900_990_099_009_900_990);
}

#[test]
fn a_quote_for_a_stranger_is_refused() {
    let p = pool(1000, 1000, 0);
    let r = p.calculate_output_amount(&stranger(), Amount::from_units(10));
    assert_eq!(r.err(), Some(PoolError::Membership));
    let r = p.calculate_input_amount(&stranger(), Amount::from_units(10));
    assert_eq!(r.err(), Some(PoolError::Membership));
}

#[test]
fn input_is_quoted_for_an_output() {
    let p = pool(1000, 1000, 3 * ONE / 10);
    let input = p.calculate_input_amount(&hi(), Amount::from_units(10)).unwrap();
    assert_eq!(attos(input), 10_131_404_313_951_956_880);
    // 25 of `lo` out of a pool of 500 `hi` and 2000 `lo` at one percent.
    let p = pool(500, 2000, ONE);
    let input = p.calculate_input_amount(&lo(), Amount::from_units(25)).unwrap();
    assert_eq!(attos(input), 6_393_044_367_727_912_031);
}

#[test]
fn an_output_of_the_whole_reserve_or_more_cannot_be_quoted() {
    let p = pool(1000, 1000, 3 * ONE / 10);
    let r = p.calculate_input_amount(&hi(), Amount::from_units(1000));
    assert_eq!(r.err(), Some(PoolError::Liquidity));
    let r = p.calculate_input_amount(&hi(), Amount::from_units(1001));
    assert_eq!(r.err(), Some(PoolError::Liquidity));
    let r = p.calculate_input_amount(&hi(), Amount::from_units(999));
    assert!(r.is_ok());
}

#[test]
fn an_output_that_leaves_less_than_the_fee_can_count_has_no_quote() {
    // One atto would be left, and 0.997 of one atto rounds down to nothing.
    let p = pool(1000, 1000, 3 * ONE / 10);
    let r = p.calculate_input_amount(&hi(), Amount::from_attos(1000 * ONE - 1));
    assert_eq!(r.err(), Some(PoolError::Overflow));
}

#[test]
fn an_input_quote_at_a_fee_of_one_hundred_has_no_value() {
    let p = pool(1000, 1000, 100 * ONE);
    let r = p.calculate_input_amount(&hi(), Amount::from_units(10));
    assert_eq!(r.err(), Some(PoolError::Overflow));
}

#[test]
fn quoting_output_then_input_recovers_no_more_than_the_input() {
    let p = pool(1000, 1000, 3 * ONE / 10);
    let out = p.calculate_output_amount(&lo(), Amount::from_units(10)).unwrap();
    let back = p.calculate_input_amount(&hi(), out).unwrap();
    assert_eq!(attos(back), 9_999_999_999_999_999_999);
    assert!(back.at_most(&Amount::from_units(10)));
}

#[test]
fn quoting_back_can_exceed_the_input_where_next_to_nothing_is_left() {
    // One whole unit of `hi` against two millionths of a millionth of `lo`.
    let (p, _) = LiquidityPool::new(
        bucket(hi(), ONE),
        bucket(lo(), 2_000_000),
        fee(3 * ONE / 10),
        shares_id(),
    )
    .unwrap();
    let input = Amount::from_attos(1_003_009_027_081_243_732_000_000);
    let out = p.calculate_output_amount(&hi(), input).unwrap();
    assert_eq!(attos(out), 1_999_998);
    let back = p.calculate_input_amount(&lo(), out).unwrap();
    assert_eq!(attos(back), 1_999_998_000_000_000_000_000_000);
    assert!(input.less_than(&back));
}

#[test]
fn a_swap_pays_the_quote_and_keeps_the_input() {
    let mut p = pool(1000, 1000, 3 * ONE / 10);
    let out = p.swap(bucket(lo(), 10 * ONE)).unwrap();
    assert_eq!(out.resource_address().bytes, hi().bytes);
    assert_eq!(attos(out.amount()), 9_871_580_343_970_612_988);
    assert_eq!(reserves(&p), (990_128_419_656_029_387_012, 1010 * ONE));
    assert_eq!(attos(p.provider_supply()), 100 * ONE);
}

#[test]
fn a_swap_never_lowers_k() {
    let mut p = pool(1000, 1000, 3 * ONE / 10);
    let before = attos(p.k().unwrap());
    p.swap(bucket(lo(), 10 * ONE)).unwrap();
    let after = attos(p.k().unwrap());
    assert_eq!(before, 1_000_000 * ONE);
    assert_eq!(after, 1_000_029_703_852_589_680_882_120);
    assert!(after >= before);
}

#[test]
fn without_a_fee_a_swap_keeps_k_but_for_rounding() {
    let mut p = pool(1000, 1000, 0);
    p.swap(bucket(lo(), 10 * ONE)).unwrap();
    assert_eq!(reserves(&p), (1000 * ONE - 9_900_990_099_009_900_990, 1010 * ONE));
    assert_eq!(attos(p.k().unwrap()), 1_000_000 * ONE + 100);
}

#[test]
fn a_swap_of_a_stranger_is_refused() {
    let mut p = pool(1000, 1000, 0);
    let r = p.swap(bucket(stranger(), ONE));
    assert_eq!(r.err(), Some(PoolError::Membership));
    assert_eq!(reserves(&p), (1000 * ONE, 1000 * ONE));
}

#[test]
fn a_swap_of_nothing_into_an_empty_pool_has_no_quote() {
    let mut p = pool(1, 1, 0);
    p.remove_liquidity(bucket(shares_id(), 100 * ONE)).unwrap();
    assert_eq!(reserves(&p), (0, 0));
    let r = p.swap(bucket(lo(), 0));
    assert_eq!(r.err(), Some(PoolError::Overflow));
}

#[test]
fn a_swap_that_meets_the_minimum_goes_through() {
    let mut p = pool(1000, 1000, 3 * ONE / 10);
    let out = p
        .swap_exact_tokens_for_tokens(
            bucket(lo(), 10 * ONE),
            Amount::from_attos(9_871_580_343_970_612_988),
        )
        .unwrap();
    assert_eq!(attos(out.amount()), 9_871_580_343_970_612_988);
    assert_eq!(reserves(&p), (990_128_419_656_029_387_012, 1010 * ONE));
}

#[test]
fn a_swap_below_the_minimum_is_refused_and_changes_nothing() {
    let mut p = pool(1000, 1000, 3 * ONE / 10);
    let r = p.swap_exact_tokens_for_tokens(
        bucket(lo(), 10 * ONE),
        Amount::from_attos(9_871_580_343_970_612_989),
    );
    assert_eq!(r.err(), Some(PoolError::Slippage));
    assert_eq!(reserves(&p), (1000 * ONE, 1000 * ONE));
    assert_eq!(attos(p.provider_supply()), 100 * ONE);
}

#[test]
fn a_swap_for_an_exact_output_takes_what_it_costs_and_returns_the_rest() {
    let mut p = pool(1000, 1000, 3 * ONE / 10);
    let (out, rest) =
        p.swap_tokens_for_exact_tokens(bucket(lo(), 11 * ONE), Amount::from_units(10)).unwrap();
    assert_eq!(out.resource_address().bytes, hi().bytes);
    assert_eq!(attos(out.amount()), 10 * ONE);
    assert_eq!(rest.resource_address().bytes, lo().bytes);
    assert_eq!(attos(rest.amount()), 11 * ONE - 10_131_404_313_951_956_880);
    assert_eq!(reserves(&p), (990 * ONE, 1000 * ONE + 10_131_404_313_951_956_880));
}

#[test]
fn a_swap_for_an_exact_output_with_exactly_enough_leaves_an_empty_bucket() {
    let mut p = pool(1000, 1000, 3 * ONE / 10);
    let (out, rest) = p
        .swap_tokens_for_exact_tokens(
            bucket(lo(), 10_131_404_313_951_956_880),
            Amount::from_units(10),
        )
        .unwrap();
    assert_eq!(attos(out.amount()), 10 * ONE);
    assert!(rest.is_empty());
    assert_eq!(rest.resource_address().bytes, lo().bytes);
}

#[test]
fn a_swap_for_an_exact_output_with_too_little_input_is_refused() {
    let mut p = pool(1000, 1000, 3 * ONE / 10);
    let r = p.swap_tokens_for_exact_tokens(
        bucket(lo(), 10_131_404_313_951_956_879),
        Amount::from_units(10),
    );
    assert_eq!(r.err(), Some(PoolError::Liquidity));
    assert_eq!(reserves(&p), (1000 * ONE, 1000 * ONE));
}

#[test]
fn a_swap_for_the_whole_reserve_is_refused() {
    let mut p = pool(1000, 1000, 3 * ONE / 10);
    let r = p.swap_tokens_for_exact_tokens(bucket(lo(), 5000 * ONE), Amount::from_units(1000));
    assert_eq!(r.err(), Some(PoolError::Liquidity));
    let r = p.swap_tokens_for_exact_tokens(bucket(stranger(), ONE), Amount::from_units(1));
    assert_eq!(r.err(), Some(PoolError::Membership));
    assert_eq!(reserves(&p), (1000 * ONE, 1000 * ONE));
}

#[test]
fn a_deposit_in_the_pools_ratio_is_taken_whole() {
    let mut p = pool(1000, 1000, 3 * ONE / 10);
    let (rest0, rest1, shares) =
        p.add_liquidity(bucket(lo(), 100 * ONE), bucket(hi(), 100 * ONE)).unwrap();
    assert_eq!(rest0.resource_address().bytes, hi().bytes);
    assert_eq!(rest1.resource_address().bytes, lo().bytes);
    assert!(rest0.is_empty());
    assert!(rest1.is_empty());
    assert_eq!(attos(shares.amount()), 10 * ONE);
    assert_eq!(shares.resource_address().bytes, shares_id().bytes);
    assert_eq!(reserves(&p), (1100 * ONE, 1100 * ONE));
    assert_eq!(attos(p.provider_supply()), 110 * ONE);
}

#[test]
fn a_deposit_with_too_much_of_the_first_asset_returns_the_excess() {
    // 300 `hi` against 700 `lo`; 10 of each offered: `lo` is the short side.
    let mut p = pool(300, 700, 0);
    let (rest0, rest1, shares) =
        p.add_liquidity(bucket(hi(), 10 * ONE), bucket(lo(), 10 * ONE)).unwrap();
    assert_eq!(attos(rest0.amount()), 5_714_285_714_285_714_286);
    assert_eq!(attos(rest1.amount()), 0);
    assert_eq!(attos(shares.amount()), 1_428_571_428_571_428_571);
    assert_eq!(reserves(&p), (300 * ONE + 4_285_714_285_714_285_714, 710 * ONE));
    assert_eq!(attos(p.provider_supply()), 100 * ONE + 1_428_571_428_571_428_571);
}

#[test]
fn a_deposit_with_too_much_of_the_second_asset_returns_the_excess() {
    // 300 `hi` against 700 `lo`; 10 `hi` and 30 `lo` offered: `hi` is the short side.
    let mut p = pool(300, 700, 0);
    let (rest0, rest1, shares) =
        p.add_liquidity(bucket(lo(), 30 * ONE), bucket(hi(), 10 * ONE)).unwrap();
    assert_eq!(rest0.resource_address().bytes, hi().bytes);
    assert_eq!(attos(rest0.amount()), 0);
    assert_eq!(attos(rest1.amount()), 6_666_666_666_666_666_667);
    assert_eq!(attos(shares.amount()), 3_333_333_333_333_333_333);
    assert_eq!(reserves(&p), (310 * ONE, 700 * ONE + 23_333_333_333_333_333_333));
}

#[test]
fn a_deposit_of_a_stranger_is_refused() {
    let mut p = pool(300, 700, 0);
    let r = p.add_liquidity(bucket(stranger(), ONE), bucket(lo(), ONE));
    assert_eq!(r.err(), Some(PoolError::Membership));
    let r = p.add_liquidity(bucket(hi(), ONE), bucket(stranger(), ONE));
    assert_eq!(r.err(), Some(PoolError::Membership));
    assert_eq!(reserves(&p), (300 * ONE, 700 * ONE));
}

#[test]
fn a_deposit_from_an_empty_bucket_or_of_one_asset_twice_is_refused() {
    let mut p = pool(300, 700, 0);
    let r = p.add_liquidity(bucket(hi(), 0), bucket(lo(), ONE));
    assert_eq!(r.err(), Some(PoolError::Validation));
    let r = p.add_liquidity(bucket(hi(), ONE), bucket(lo(), 0));
    assert_eq!(r.err(), Some(PoolError::Validation));
    let r = p.add_liquidity(bucket(hi(), ONE), bucket(hi(), ONE));
    assert_eq!(r.err(), Some(PoolError::Validation));
    assert_eq!(reserves(&p), (300 * ONE, 700 * ONE));
    assert_eq!(attos(p.provider_supply()), 100 * ONE);
}

#[test]
fn a_deposit_into_an_emptied_pool_mints_the_bootstrap_shares() {
    let mut p = pool(3, 7, 0);
    p.remove_liquidity(bucket(shares_id(), 100 * ONE)).unwrap();
    assert_eq!(reserves(&p), (0, 0));
    assert_eq!(attos(p.provider_supply()), 0);
    let (rest0, rest1, shares) =
        p.add_liquidity(bucket(hi(), 5 * ONE), bucket(lo(), 2 * ONE)).unwrap();
    assert!(rest0.is_empty());
    assert!(rest1.is_empty());
    assert_eq!(attos(shares.amount()), 100 * ONE);
    assert_eq!(reserves(&p), (5 * ONE, 2 * ONE));
}

#[test]
fn redeeming_shares_withdraws_their_fraction_of_both_reserves() {
    let mut p = pool(1000, 1000, 0);
    let (out0, out1) = p.remove_liquidity(bucket(shares_id(), 25 * ONE)).unwrap();
    assert_eq!(out0.resource_address().bytes, hi().bytes);
    assert_eq!(out1.resource_address().bytes, lo().bytes);
    assert_eq!(attos(out0.amount()), 250 * ONE);
    assert_eq!(attos(out1.amount()), 250 * ONE);
    assert_eq!(reserves(&p), (750 * ONE, 750 * ONE));
    assert_eq!(attos(p.provider_supply()), 75 * ONE);
}

#[test]
fn the_fraction_redeemed_is_rounded_down() {
    let mut p = pool(1000, 500, 0);
    let (out0, out1) =
        p.remove_liquidity(bucket(shares_id(), 33_333_333_333_333_333_333)).unwrap();
    assert_eq!(attos(out0.amount()), 333_333_333_333_333_333_000);
    assert_eq!(attos(out1.amount()), 166_666_666_666_666_666_500);
    assert_eq!(attos(p.provider_supply()), 100 * ONE - 33_333_333_333_333_333_333);
}

#[test]
fn redeeming_another_token_is_refused_and_changes_nothing() {
    let mut p = pool(1000, 1000, 0);
    let r = p.remove_liquidity(bucket(stranger(), 25 * ONE));
    assert_eq!(r.err(), Some(PoolError::Validation));
    let r = p.remove_liquidity(bucket(hi(), 25 * ONE));
    assert_eq!(r.err(), Some(PoolError::Validation));
    assert_eq!(reserves(&p), (1000 * ONE, 1000 * ONE));
    assert_eq!(attos(p.provider_supply()), 100 * ONE);
}

#[test]
fn redeeming_more_shares_than_are_outstanding_is_refused() {
    let mut p = pool(1000, 1000, 0);
    let r = p.remove_liquidity(bucket(shares_id(), 100 * ONE + 1));
    assert_eq!(r.err(), Some(PoolError::Liquidity));
    assert_eq!(reserves(&p), (1000 * ONE, 1000 * ONE));
}

#[test]
fn redeeming_from_a_pool_without_shares_has_no_fraction() {
    let mut p = pool(1, 1, 0);
    p.remove_liquidity(bucket(shares_id(), 100 * ONE)).unwrap();
    let r = p.remove_liquidity(bucket(shares_id(), 0));
    assert_eq!(r.err(), Some(PoolError::Overflow));
}

#[test]
fn a_deposit_redeemed_at_once_leaves_the_pool_no_poorer() {
    let mut p = pool(300, 700, 0);
    let (_, _, shares) = p.add_liquidity(bucket(hi(), 10 * ONE), bucket(lo(), 10 * ONE)).unwrap();
    let (out0, out1) = p.remove_liquidity(shares).unwrap();
    assert_eq!(attos(out0.amount()), 4_285_714_285_714_285_675);
    assert_eq!(attos(out1.amount()), 9_999_999_999_999_999_910);
    assert_eq!(attos(p.provider_supply()), 100 * ONE);
    let (now0, now1) = reserves(&p);
    assert!(now0 >= 300 * ONE && now0 - 300 * ONE == 39);
    assert!(now1 >= 700 * ONE && now1 - 700 * ONE == 90);
}

#[test]
fn a_reserve_that_would_pass_the_largest_amount_refuses_the_swap() {
    let max = Amount::from_limbs(u64::MAX, u64::MAX, 0x7fff_ffff_ffff_ffff).unwrap();
    let (mut p, _) = LiquidityPool::new(
        Bucket::new(hi(), AssetKind::Fungible, max),
        bucket(lo(), ONE),
        fee(100 * ONE),
        shares_id(),
    )
    .unwrap();
    let r = p.swap(bucket(hi(), 1));
    assert_eq!(r.err(), Some(PoolError::Overflow));
    assert!(p.k().is_ok());
    let (mut q, _) = LiquidityPool::new(
        Bucket::new(hi(), AssetKind::Fungible, max),
        bucket(lo(), 2 * ONE),
        fee(0),
        shares_id(),
    )
    .unwrap();
    assert_eq!(q.k().err(), Some(PoolError::Overflow));
    let r = q.swap(bucket(lo(), 2 * ONE));
    assert_eq!(r.err(), Some(PoolError::Overflow));
    assert!(q.swap(bucket(lo(), ONE)).is_ok());
}

#[test]
fn without_a_fee_a_swap_for_an_exact_output_can_lower_k_by_rounding() {
    let mut p = pool(1000, 1000, 0);
    let (out, rest) =
        p.swap_tokens_for_exact_tokens(bucket(lo(), 11 * ONE), Amount::from_units(10)).unwrap();
    assert_eq!(attos(out.amount()), 10 * ONE);
    assert_eq!(attos(rest.amount()), 11 * ONE - 10_101_010_101_010_101_010);
    assert_eq!(attos(p.k().unwrap()), 999_999_999_999_999_999_999_900);
}

// A small generator of numbers, the same on every run.
fn next(state: &mut u64) -> u64 {
    *state = state.wrapping_mul(6364136223846793005).wrapping_add(1442695040888963407);
    *state >> 24
}

#[test]
fn quotes_and_swaps_agree_with_plain_integers_on_many_pools() {
    let fees: [u128; 5] = [0, 3 * ONE / 10, ONE, 37 * ONE + 5, 100 * ONE];
    let mut state: u64 = 0x2545_f491_4f6c_dd1d;
    for round in 0..1500 {
        // Below 2^40 attos each, so that every intermediate fits in 128 bits.
        let x = 1 + next(&mut state) as u128;
        let y = 1 + next(&mut state) as u128;
        let dx = next(&mut state) as u128 >> (round % 40);
        let f = fees[round % 5];
        let (mut p, _) =
            LiquidityPool::new(bucket(hi(), x), bucket(lo(), y), fee(f), shares_id()).unwrap();
        let r = (100 * ONE - f) * ONE / (100 * ONE);
        let net = dx * r / ONE;
        let expected = (net * y / ONE) * ONE / (x + net);
        let quoted = p.calculate_output_amount(&hi(), Amount::from_attos(dx)).unwrap();
        assert_eq!(attos(quoted), expected);
        assert!(expected <= y);
        // Quoting back never asks for more, where enough is left.
        let left = r * (y - expected) / ONE;
        if expected < y && left > 0 {
            let back = p.calculate_input_amount(&lo(), quoted).unwrap();
            let wanted = (expected * x / ONE) * ONE / left;
            assert_eq!(attos(back), wanted);
            assert!(wanted * left <= dx * left + dx);
            if dx <= left || f == 0 {
                assert!(wanted <= dx);
            }
        }
        // The swap pays the quote, and the product of the reserves does not fall.
        let out = p.swap(bucket(hi(), dx)).unwrap();
        assert_eq!(attos(out.amount()), expected);
        let (now_x, now_y) = reserves(&p);
        assert_eq!((now_x, now_y), (x + dx, y - expected));
        assert!(now_x * now_y >= x * y);
        if f == 0 {
            assert!(now_x * now_y < x * y + ONE + now_x);
        }
    }
}

#[test]
fn deposits_and_redemptions_agree_with_plain_integers_on_many_pools() {
    let mut state: u64 = 0x1234_5678_9abc_def1;
    for _ in 0..1500 {
        // Reserves below 2^40 attos and offers of at most twice the reserves,
        // so that every intermediate fits in 128 bits.
        let m = 1 + next(&mut state) as u128;
        let n = 1 + next(&mut state) as u128;
        let dm = 1 + next(&mut state) as u128 % (2 * m);
        let dn = 1 + next(&mut state) as u128 % (2 * n);
        let (mut p, _) =
            LiquidityPool::new(bucket(hi(), m), bucket(lo(), n), fee(0), shares_id()).unwrap();
        let supply = 100 * ONE;
        let held = m * ONE / n;
        let offered = dm * ONE / dn;
        let (a0, a1) = if held == offered {
            (dm, dn)
        } else if held < offered {
            ((dn * m / ONE) * ONE / n, dn)
        } else {
            (dm, (dm * n / ONE) * ONE / m)
        };
        let minted = (a0 * supply / ONE) * ONE / m;
        let (rest0, rest1, shares) = p.add_liquidity(bucket(lo(), dn), bucket(hi(), dm)).unwrap();
        assert_eq!(attos(rest0.amount()), dm - a0);
        assert_eq!(attos(rest1.amount()), dn - a1);
        assert_eq!(attos(shares.amount()), minted);
        assert_eq!(reserves(&p), (m + a0, n + a1));
        assert_eq!(attos(p.provider_supply()), supply + minted);
        // Redeeming the shares at once.
        let fraction = minted * ONE / (supply + minted);
        let (out0, out1) = p.remove_liquidity(shares).unwrap();
        assert_eq!(attos(out0.amount()), (m + a0) * fraction / ONE);
        assert_eq!(attos(out1.amount()), (n + a1) * fraction / ONE);
        assert_eq!(attos(p.provider_supply()), supply);
        let (o0, o1) = (attos(out0.amount()), attos(out1.amount()));
        assert!(o0 <= a0);
        assert!(o1 * m <= a1 * m || o1 * m <= a0 * n);
        if a0 * n <= a1 * m {
            assert!(o1 <= a1);
        }
    }
}
