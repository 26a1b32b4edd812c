use dex::pool::{Direction, Pool};
use dex::reserve_math::{isqrt, quote_shares_for_deposit, quote_swap_output, quote_withdraw, DepositQuote};
use dex::DexError;

fn funded(a: u64, b: u64, fee_numerator: u64, fee_denominator: u64) -> Pool {
    let mut pool = Pool::new();
    pool.create_pool(a, b, fee_numerator, fee_denominator).unwrap();
    pool
}

fn product(pool: &Pool) -> u128 {
    pool.reserve_a as u128 * pool.reserve_b as u128
}

#[test]
fn swap_with_standard_fee_pays_91() {
    let mut pool = funded(1000, 1000, 3, 1000);
    assert_eq!(pool.swap(100, 0, Direction::AToB), Ok(91));
    assert_eq!(pool.reserve_a, 1100);
    assert_eq!(pool.reserve_b, 909);
    assert_eq!(pool.total_shares, 1000);
}

#[test]
fn swap_b_to_a_moves_the_other_reserves() {
    let mut pool = funded(1000, 1000, 3, 1000);
    assert_eq!(pool.swap(100, 91, Direction::BToA), Ok(91));
    assert_eq!(pool.reserve_a, 909);
    assert_eq!(pool.reserve_b, 1100);
}

#[test]
fn first_deposit_mints_geometric_mean() {
    assert_eq!(
        quote_shares_for_deposit(0, 0, 0, 1000, 4000),
        Ok(DepositQuote { accepted_a: 1000, accepted_b: 4000, shares_minted: 2000 })
    );
    let mut pool = Pool::new();
    assert_eq!(pool.create_pool(1000, 4000, 3, 1000), Ok(2000));
    assert_eq!(pool.total_shares, 2000);
    assert_eq!((pool.reserve_a, pool.reserve_b), (1000, 4000));
}

#[test]
fn withdraw_more_than_total_fails() {
    let mut pool = funded(1000, 4000, 3, 1000);
    let before = pool;
    assert_eq!(pool.withdraw(2001), Err(DexError::InsufficientShares));
    assert_eq!(pool, before);
    assert_eq!(quote_withdraw(1000, 4000, 2000, 5000), Err(DexError::InsufficientShares));
}

#[test]
fn withdraw_zero_shares_fails() {
    let mut pool = funded(1000, 4000, 3, 1000);
    assert_eq!(pool.withdraw(0), Err(DexError::InsufficientShares));
}

#[test]
fn swap_product_with_fee_covering_rounding_does_not_fall() {
    let mut pool = funded(1000, 1000, 500, 1000);
    let before = product(&pool);
    assert_eq!(pool.swap(1000, 0, Direction::AToB), Ok(334));
    assert_eq!((pool.reserve_a, pool.reserve_b), (2000, 666));
    assert!(product(&pool) >= before);
}

#[test]
fn swap_product_falls_less_than_one_output_unit() {
    let mut pool = funded(1000, 1000, 3, 1000);
    let before = product(&pool);
    pool.swap(100, 0, Direction::AToB).unwrap();
    assert_eq!(product(&pool), 999_900);
    assert!(before < product(&pool) + pool.reserve_a as u128);
}

#[test]
fn fee_free_swap_keeps_product_up_to_rounding() {
    let mut pool = funded(1000, 1000, 0, 1);
    let before = product(&pool);
    assert_eq!(pool.swap(100, 0, Direction::AToB), Ok(91));
    let after = product(&pool);
    assert!(after <= before);
    assert!(before < after + pool.reserve_a as u128);
}

#[test]
fn provision_then_withdraw_returns_at_most_deposit() {
    let mut pool = funded(1000, 3000, 3, 1000);
    assert_eq!(pool.total_shares, 1732);
    let quote = pool.provision(10, 100).unwrap();
    assert_eq!(quote, DepositQuote { accepted_a: 10, accepted_b: 30, shares_minted: 17 });
    assert_eq!((pool.reserve_a, pool.reserve_b, pool.total_shares), (1010, 3030, 1749));
    let (a, b) = pool.withdraw(quote.shares_minted).unwrap();
    assert_eq!((a, b), (9, 29));
    assert!(a <= quote.accepted_a && b <= quote.accepted_b);
}

#[test]
fn provision_exact_ratio_round_trip() {
    let mut pool = funded(1000, 4000, 3, 1000);
    let quote = pool.provision(100, 1000).unwrap();
    assert_eq!(quote, DepositQuote { accepted_a: 100, accepted_b: 400, shares_minted: 200 });
    assert_eq!(pool.withdraw(200), Ok((100, 400)));
    assert_eq!((pool.reserve_a, pool.reserve_b, pool.total_shares), (1000, 4000, 2000));
}

#[test]
fn provision_limited_by_side_b() {
    let mut pool = funded(1000, 4000, 3, 1000);
    let quote = pool.provision(1000, 400).unwrap();
    assert_eq!(quote, DepositQuote { accepted_a: 100, accepted_b: 400, shares_minted: 200 });
}

#[test]
fn higher_fee_never_pays_more() {
    let free = quote_swap_output(1000, 1000, 100, 0, 1000).unwrap();
    let standard = quote_swap_output(1000, 1000, 100, 3, 1000).unwrap();
    let steep = quote_swap_output(1000, 1000, 100, 100, 1000).unwrap();
    assert_eq!((free, standard, steep), (91, 91, 83));
    assert!(free >= standard && standard >= steep);
}

#[test]
fn slippage_bound_below_output_passes() {
    let mut pool = funded(1000, 1000, 3, 1000);
    assert_eq!(pool.swap(100, 50, Direction::AToB), Ok(91));
}

#[test]
fn slippage_bound_equal_to_output_passes() {
    let mut pool = funded(1000, 1000, 3, 1000);
    assert_eq!(pool.swap(100, 91, Direction::AToB), Ok(91));
}

#[test]
fn slippage_bound_above_output_fails_without_change() {
    let mut pool = funded(1000, 1000, 3, 1000);
    let before = pool;
    assert_eq!(pool.swap(100, 92, Direction::AToB), Err(DexError::SlippageExceeded));
    assert_eq!(pool, before);
}

#[test]
fn create_twice_is_refused() {
    let mut pool = funded(1000, 1000, 3, 1000);
    assert_eq!(pool.create_pool(5, 5, 3, 1000), Err(DexError::AlreadyInitialized));
    assert_eq!((pool.reserve_a, pool.reserve_b), (1000, 1000));
}

#[test]
fn create_with_bad_fee_is_refused() {
    let mut pool = Pool::new();
    assert_eq!(pool.create_pool(10, 10, 1000, 1000), Err(DexError::InvalidFeeRate));
    assert_eq!(pool.create_pool(10, 10, 0, 0), Err(DexError::InvalidFeeRate));
    assert_eq!(pool, Pool::new());
    assert_eq!(quote_swap_output(10, 10, 1, 2, 1), Err(DexError::InvalidFeeRate));
}

#[test]
fn zero_amounts_are_refused() {
    let mut pool = Pool::new();
    assert_eq!(pool.create_pool(0, 10, 3, 1000), Err(DexError::ZeroAmount));
    assert_eq!(pool.create_pool(10, 0, 3, 1000), Err(DexError::ZeroAmount));
    let mut pool = funded(1000, 1000, 3, 1000);
    assert_eq!(pool.provision(0, 10), Err(DexError::ZeroAmount));
}

#[test]
fn deposit_too_small_for_a_share_is_refused() {
    let mut pool = funded(1000, 4000, 3, 1000);
    let before = pool;
    assert_eq!(pool.provision(1, 1), Err(DexError::RatioMismatch));
    assert_eq!(pool, before);
    assert_eq!(quote_shares_for_deposit(0, 5, 10, 1, 1), Err(DexError::RatioMismatch));
}

#[test]
fn swap_on_unfunded_pool_is_refused() {
    let mut pool = Pool::new();
    assert_eq!(pool.swap(100, 0, Direction::AToB), Err(DexError::InsufficientLiquidity));
}

#[test]
fn swap_that_would_drain_is_refused() {
    assert_eq!(quote_swap_output(1, 1, 1000, 0, 1), Err(DexError::InsufficientLiquidity));
    assert_eq!(quote_swap_output(0, 0, 0, 0, 1), Err(DexError::InsufficientLiquidity));
}

#[test]
fn swap_overflowing_input_reserve_is_refused() {
    let half: u64 = 1 << 63;
    let mut pool = funded(half, half, 0, 1);
    let before = pool;
    assert_eq!(pool.swap(half, 0, Direction::AToB), Err(DexError::ArithmeticOverflow));
    assert_eq!(pool, before);
}

#[test]
fn provision_overflowing_reserve_is_refused() {
    let mut pool = funded(u64::MAX, 1, 3, 1000);
    assert_eq!(pool.provision(u64::MAX, u64::MAX), Err(DexError::ArithmeticOverflow));
}

#[test]
fn deposit_minting_too_many_shares_is_refused() {
    assert_eq!(quote_shares_for_deposit(1, 1, u64::MAX, 2, 2), Err(DexError::ArithmeticOverflow));
}

#[test]
fn full_withdraw_empties_pool_and_allows_reseeding() {
    let mut pool = funded(1000, 4000, 3, 1000);
    assert_eq!(pool.withdraw(2000), Ok((1000, 4000)));
    assert_eq!((pool.reserve_a, pool.reserve_b, pool.total_shares), (0, 0, 0));
    let drained = pool;
    assert_eq!(pool.provision(9, 16), Err(DexError::RatioMismatch));
    assert_eq!(pool, drained);
    assert_eq!(pool.create_pool(9, 16, 1, 100), Ok(12));
    assert_eq!(pool.withdraw(12), Ok((9, 16)));
    assert_eq!(pool.create_pool(50, 50, 1, 100), Ok(50));
}

#[test]
fn provision_into_unfunded_pool_is_refused() {
    let mut pool = Pool::new();
    assert_eq!(pool.provision(10, 10), Err(DexError::RatioMismatch));
    assert_eq!(pool, Pool::new());
    assert_eq!(pool.create_pool(10, 10, 3, 1000), Ok(10));
}

#[test]
fn skewed_pool_takes_only_what_the_ratio_asks_of_side_b() {
    let mut pool = funded(1, 10000, 3, 1000);
    assert_eq!(pool.total_shares, 100);
    let quote = pool.provision(10, 15000).unwrap();
    assert_eq!(quote, DepositQuote { accepted_a: 1, accepted_b: 10000, shares_minted: 100 });
    assert_eq!((pool.reserve_a, pool.reserve_b, pool.total_shares), (2, 20000, 200));
}

#[test]
fn skewed_pool_takes_only_what_the_ratio_asks_of_side_a() {
    let mut pool = funded(10000, 1, 3, 1000);
    let quote = pool.provision(15000, 10).unwrap();
    assert_eq!(quote, DepositQuote { accepted_a: 10000, accepted_b: 1, shares_minted: 100 });
}

#[test]
fn derived_side_rounds_up_within_one_unit() {
    // 7 B scale to 7 * 3 / 7 = 3 A; 3 A derive back to ceil(3 * 7 / 3) = 7 B.
    assert_eq!(
        quote_shares_for_deposit(3, 7, 21, 100, 7),
        Ok(DepositQuote { accepted_a: 3, accepted_b: 7, shares_minted: 21 })
    );
    // 4 A scale to 4 * 7 / 3 = 9 B; 9 B derive back to ceil(9 * 3 / 7) = 4 A.
    assert_eq!(
        quote_shares_for_deposit(3, 7, 21, 4, 100),
        Ok(DepositQuote { accepted_a: 4, accepted_b: 9, shares_minted: 27 })
    );
}

#[test]
fn partial_withdraw_rounds_down() {
    assert_eq!(quote_withdraw(1000, 3000, 1749, 17), Ok((9, 29)));
    assert_eq!(quote_withdraw(1000, 3000, 1000, 1000), Ok((1000, 3000)));
}

#[test]
fn integer_square_roots() {
    assert_eq!(isqrt(0), 0);
    assert_eq!(isqrt(1), 1);
    assert_eq!(isqrt(15), 3);
    assert_eq!(isqrt(16), 4);
    assert_eq!(isqrt(4_000_000), 2000);
    assert_eq!(isqrt(u128::MAX), u64::MAX);
}
