//! Pure pool arithmetic: the constant-product swap quote, liquidity shares
//! for a deposit, and proportional withdrawal.
//!
//! Deposits and withdrawals round in the pool's favour: a depositor is never
//! charged less than the reserve ratio asks, shares minted and amounts paid
//! out round down. A swap rounds the output reserve that remains down, so its
//! payout can exceed the exact constant-product amount by less than one unit;
//! `laws::swap_product_falls_less_than_one_output_unit` bounds the effect.
use vstd::prelude::*;
use vstd::arithmetic::div_mod::{lemma_div_is_ordered, lemma_div_multiples_vanish, lemma_fundamental_div_mod, lemma_mod_bound, lemma_div_pos_is_pos};
use vstd::arithmetic::mul::{lemma_mul_inequality, lemma_mul_upper_bound};

use crate::DexError;

verus! {

/// A fee rate `fee_numerator / fee_denominator` is valid when it lies in `[0, 1)`.
pub open spec fn fee_is_valid(fee_numerator: int, fee_denominator: int) -> bool {
    0 <= fee_numerator < fee_denominator
}

/// The part of `amount_in` that moves the price once the fee is kept back.
pub open spec fn spec_after_fee(amount_in: int, fee_numerator: int, fee_denominator: int) -> int {
    amount_in * (fee_denominator - fee_numerator) / fee_denominator
}

/// What stays in the output reserve: the product divided by the grown input reserve.
pub open spec fn spec_kept_out(
    reserve_in: int,
    reserve_out: int,
    amount_in: int,
    fee_numerator: int,
    fee_denominator: int,
) -> int {
    (reserve_in * reserve_out) / (reserve_in + spec_after_fee(
        amount_in,
        fee_numerator,
        fee_denominator,
    ))
}

/// The amount a swap pays out by the constant-product relation.
pub open spec fn spec_swap_output(
    reserve_in: int,
    reserve_out: int,
    amount_in: int,
    fee_numerator: int,
    fee_denominator: int,
) -> int {
    reserve_out - spec_kept_out(reserve_in, reserve_out, amount_in, fee_numerator, fee_denominator)
}

/// A swap can be priced: the fee is valid, the grown input reserve is positive
/// and the output leaves something in the output reserve.
pub open spec fn swap_is_priced(
    reserve_in: int,
    reserve_out: int,
    amount_in: int,
    fee_numerator: int,
    fee_denominator: int,
) -> bool {
    &&& fee_is_valid(fee_numerator, fee_denominator)
    &&& reserve_in + spec_after_fee(amount_in, fee_numerator, fee_denominator) > 0
    &&& spec_swap_output(reserve_in, reserve_out, amount_in, fee_numerator, fee_denominator)
        < reserve_out
}

/// The outcome of pricing a swap: the fee rate is checked first, then whether
/// the pool can pay out without being drained.
pub open spec fn spec_quote_swap(
    reserve_in: int,
    reserve_out: int,
    amount_in: int,
    fee_numerator: int,
    fee_denominator: int,
) -> Result<u64, DexError> {
    if !fee_is_valid(fee_numerator, fee_denominator) {
        Err(DexError::InvalidFeeRate)
    } else if !swap_is_priced(reserve_in, reserve_out, amount_in, fee_numerator, fee_denominator) {
        Err(DexError::InsufficientLiquidity)
    } else {
        Ok(spec_swap_output(reserve_in, reserve_out, amount_in, fee_numerator, fee_denominator) as u64)
    }
}

proof fn lemma_mul_u64_fits(a: u64, b: u64)
    ensures
        0 <= (a as int) * (b as int) <= u64::MAX as int * u64::MAX as int,
{
    lemma_mul_upper_bound(a as int, u64::MAX as int, b as int, u64::MAX as int);
    assert(0 <= (a as int) * (b as int)) by (nonlinear_arith);
}

/// The fee never makes the counted input larger than the input.
pub(crate) proof fn lemma_after_fee_bounds(amount_in: int, fee_numerator: int, fee_denominator: int)
    requires
        amount_in >= 0,
        fee_is_valid(fee_numerator, fee_denominator),
    ensures
        0 <= spec_after_fee(amount_in, fee_numerator, fee_denominator) <= amount_in,
{
    let d = fee_denominator;
    lemma_mul_inequality(d - fee_numerator, d, amount_in);
    assert(amount_in * (d - fee_numerator) == (d - fee_numerator) * amount_in) by (nonlinear_arith);
    assert(amount_in * d == d * amount_in) by (nonlinear_arith);
    assert(amount_in * (d - fee_numerator) >= 0) by (nonlinear_arith)
        requires
            amount_in >= 0,
            d - fee_numerator > 0,
    ;
    lemma_div_is_ordered(amount_in * (d - fee_numerator), d * amount_in, d);
    lemma_div_multiples_vanish(amount_in, d);
    lemma_div_pos_is_pos(amount_in * (d - fee_numerator), d);
}

/// What stays in the output reserve is never more than it held.
pub(crate) proof fn lemma_kept_out_bounds(reserve_in: int, reserve_out: int, grown_in: int)
    requires
        0 <= reserve_in <= grown_in,
        0 < grown_in,
        reserve_out >= 0,
    ensures
        0 <= (reserve_in * reserve_out) / grown_in <= reserve_out,
{
    lemma_mul_inequality(reserve_in, grown_in, reserve_out);
    assert(grown_in * reserve_out == reserve_out * grown_in) by (nonlinear_arith);
    assert(reserve_in * reserve_out >= 0) by (nonlinear_arith)
        requires
            reserve_in >= 0,
            reserve_out >= 0,
    ;
    lemma_div_is_ordered(reserve_in * reserve_out, reserve_out * grown_in, grown_in);
    lemma_div_multiples_vanish(reserve_out, grown_in);
    assert(grown_in * reserve_out == reserve_out * grown_in) by (nonlinear_arith);
    lemma_div_pos_is_pos(reserve_in * reserve_out, grown_in);
}

/// Prices a swap of `amount_in` against the reserves `reserve_in` and
/// `reserve_out`, keeping back the fee `fee_numerator / fee_denominator`.
pub fn quote_swap_output(
    reserve_in: u64,
    reserve_out: u64,
    amount_in: u64,
    fee_numerator: u64,
    fee_denominator: u64,
) -> (r: Result<u64, DexError>)
    ensures
        r == spec_quote_swap(
            reserve_in as int,
            reserve_out as int,
            amount_in as int,
            fee_numerator as int,
            fee_denominator as int,
        ),
        r is Ok ==> r->Ok_0 == spec_swap_output(
            reserve_in as int,
            reserve_out as int,
            amount_in as int,
            fee_numerator as int,
            fee_denominator as int,
        ) && r->Ok_0 < reserve_out,
{
    if fee_numerator >= fee_denominator {
        return Err(DexError::InvalidFeeRate);
    }
    proof {
        lemma_mul_u64_fits(amount_in, (fee_denominator - fee_numerator) as u64);
        lemma_mul_u64_fits(reserve_in, reserve_out);
        lemma_after_fee_bounds(amount_in as int, fee_numerator as int, fee_denominator as int);
    }
    let weighted: u128 = (amount_in as u128) * ((fee_denominator - fee_numerator) as u128);
    let after_fee: u128 = weighted / (fee_denominator as u128);
    let grown_in: u128 = (reserve_in as u128) + after_fee;
    if grown_in == 0 {
        return Err(DexError::InsufficientLiquidity);
    }
    let product: u128 = (reserve_in as u128) * (reserve_out as u128);
    let kept: u128 = product / grown_in;
    proof {
        lemma_kept_out_bounds(reserve_in as int, reserve_out as int, grown_in as int);
    }
    let amount_out: u128 = (reserve_out as u128) - kept;
    if amount_out >= reserve_out as u128 {
        return Err(DexError::InsufficientLiquidity);
    }
    Ok(amount_out as u64)
}

/// `root` is the integer square root of `n`.
pub open spec fn is_isqrt(n: int, root: int) -> bool {
    0 <= root && root * root <= n && n < (root + 1) * (root + 1)
}

/// The integer square root of `n`.
pub open spec fn spec_isqrt(n: int) -> int {
    choose|root: int| is_isqrt(n, root)
}

/// A number has at most one integer square root.
pub proof fn lemma_isqrt_unique(n: int, r1: int, r2: int)
    requires
        is_isqrt(n, r1),
        is_isqrt(n, r2),
    ensures
        r1 == r2,
{
    if r1 < r2 {
        lemma_mul_upper_bound(r1 + 1, r2, r1 + 1, r2);
    } else if r2 < r1 {
        lemma_mul_upper_bound(r2 + 1, r1, r2 + 1, r1);
    }
}

/// Largest `r` with `r * r <= n`, found by bisection.
pub fn isqrt(n: u128) -> (r: u64)
    ensures
        is_isqrt(n as int, r as int),
        r == spec_isqrt(n as int),
{
    let mut lo: u128 = 0;
    let mut hi: u128 = 0x1_0000_0000_0000_0000;
    assert(n < hi * hi);
    while hi - lo > 1
        invariant
            lo < hi <= 0x1_0000_0000_0000_0000,
            lo * lo <= n,
            n < hi * hi,
        decreases hi - lo,
    {
        let mid: u128 = lo + (hi - lo) / 2;
        proof {
            lemma_mul_upper_bound(mid as int, u64::MAX as int, mid as int, u64::MAX as int);
        }
        if mid * mid <= n {
            lo = mid;
        } else {
            hi = mid;
        }
    }
    proof {
        let root = spec_isqrt(n as int);
        assert(is_isqrt(n as int, lo as int));
        lemma_isqrt_unique(n as int, root, lo as int);
    }
    lo as u64
}

/// `x / d` rounded up.
pub open spec fn spec_ceil_div(x: int, d: int) -> int {
    (x + d - 1) / d
}

/// The offer on side A limits a deposit: side A scaled to the ratio fits
/// within the offer on side B.
pub open spec fn a_limits(reserve_a: int, reserve_b: int, deposit_a: int, deposit_b: int) -> bool {
    deposit_a * reserve_b / reserve_a <= deposit_b
}

/// The part of an offered pair `(deposit_a, deposit_b)` that matches the
/// reserve ratio `reserve_a : reserve_b`. The limiting side is scaled to the
/// other side of the ratio and rounded down; the limiting side is then
/// derived back from that amount, rounded up, so neither side exceeds what
/// the ratio asks by a whole unit of the other.
pub open spec fn spec_matched(reserve_a: int, reserve_b: int, deposit_a: int, deposit_b: int) -> (
    int,
    int,
) {
    if a_limits(reserve_a, reserve_b, deposit_a, deposit_b) {
        let b = deposit_a * reserve_b / reserve_a;
        (spec_ceil_div(b * reserve_a, reserve_b), b)
    } else {
        let a = deposit_b * reserve_a / reserve_b;
        (a, spec_ceil_div(a * reserve_b, reserve_a))
    }
}

/// Shares owed for an accepted pair: the smaller of the two proportional
/// claims, each rounded down.
pub open spec fn spec_minted(
    reserve_a: int,
    reserve_b: int,
    total_shares: int,
    accepted_a: int,
    accepted_b: int,
) -> int {
    let by_a = total_shares * accepted_a / reserve_a;
    let by_b = total_shares * accepted_b / reserve_b;
    if by_a <= by_b {
        by_a
    } else {
        by_b
    }
}

/// What a deposit into a funded pool yields, before any range check.
pub open spec fn spec_ratio_deposit(
    reserve_a: int,
    reserve_b: int,
    total_shares: int,
    deposit_a: int,
    deposit_b: int,
) -> (int, int, int) {
    let (a, b) = spec_matched(reserve_a, reserve_b, deposit_a, deposit_b);
    (a, b, spec_minted(reserve_a, reserve_b, total_shares, a, b))
}

/// The outcome of pricing a deposit.
pub open spec fn spec_quote_deposit(
    reserve_a: int,
    reserve_b: int,
    total_shares: int,
    deposit_a: int,
    deposit_b: int,
) -> Result<DepositQuote, DexError> {
    if deposit_a == 0 || deposit_b == 0 {
        Err(DexError::ZeroAmount)
    } else if total_shares == 0 {
        Ok(
            DepositQuote {
                accepted_a: deposit_a as u64,
                accepted_b: deposit_b as u64,
                shares_minted: spec_isqrt(deposit_a * deposit_b) as u64,
            },
        )
    } else if reserve_a == 0 || reserve_b == 0 {
        Err(DexError::RatioMismatch)
    } else {
        let (a, b, s) = spec_ratio_deposit(
            reserve_a,
            reserve_b,
            total_shares,
            deposit_a,
            deposit_b,
        );
        if a == 0 || b == 0 || s == 0 {
            Err(DexError::RatioMismatch)
        } else if s > u64::MAX {
            Err(DexError::ArithmeticOverflow)
        } else {
            Ok(DepositQuote { accepted_a: a as u64, accepted_b: b as u64, shares_minted: s as u64 })
        }
    }
}

/// Amounts taken from a depositor and the shares minted for them.
#[derive(Clone, Copy, Debug, PartialEq, Eq, Structural)]
pub struct DepositQuote {
    pub accepted_a: u64,
    pub accepted_b: u64,
    pub shares_minted: u64,
}

/// Scaling the other side down never exceeds what was offered on this side.
proof fn lemma_matched_within_offer(reserve_a: int, reserve_b: int, deposit_a: int, deposit_b: int)
    requires
        reserve_a > 0,
        reserve_b > 0,
        deposit_a >= 0,
        deposit_b >= 0,
        deposit_a * reserve_b / reserve_a > deposit_b,
    ensures
        0 <= deposit_b * reserve_a / reserve_b < deposit_a,
{
    let x = deposit_a * reserve_b;
    let y = deposit_b * reserve_a;
    lemma_fundamental_div_mod(x, reserve_a);
    lemma_mod_bound(x, reserve_a);
    lemma_fundamental_div_mod(y, reserve_b);
    lemma_mod_bound(y, reserve_b);
    let qx = x / reserve_a;
    let qy = y / reserve_b;
    assert(x >= (deposit_b + 1) * reserve_a) by (nonlinear_arith)
        requires
            x == reserve_a * qx + x % reserve_a,
            x % reserve_a >= 0,
            qx >= deposit_b + 1,
            reserve_a > 0,
    ;
    assert(y < x) by (nonlinear_arith)
        requires
            x >= (deposit_b + 1) * reserve_a,
            y == deposit_b * reserve_a,
            reserve_a > 0,
    ;
    assert(y >= 0) by (nonlinear_arith)
        requires
            y == deposit_b * reserve_a,
            deposit_b >= 0,
            reserve_a > 0,
    ;
    lemma_div_pos_is_pos(y, reserve_b);
    assert(qy < deposit_a) by (nonlinear_arith)
        requires
            y == reserve_b * qy + y % reserve_b,
            y % reserve_b >= 0,
            y < x,
            x == deposit_a * reserve_b,
            reserve_b > 0,
    ;
}

/// Rounding down a quotient and multiplying back never exceeds the dividend.
pub(crate) proof fn lemma_floor_mul(x: int, d: int)
    requires
        d > 0,
    ensures
        (x / d) * d <= x,
{
    lemma_fundamental_div_mod(x, d);
    lemma_mod_bound(x, d);
    assert((x / d) * d == d * (x / d)) by (nonlinear_arith);
}

/// Deriving an amount back from `y` units of the other side, rounded up,
/// stays within `x` when `y` was at most `x` scaled to the other side.
proof fn lemma_ceil_back(y: int, r_from: int, r_to: int, x: int)
    requires
        r_from > 0,
        r_to > 0,
        y >= 0,
        x >= 0,
        y * r_from <= x * r_to,
    ensures
        ({
            let c = spec_ceil_div(y * r_from, r_to);
            &&& 0 <= c <= x
            &&& y * r_from <= c * r_to < y * r_from + r_to
        }),
{
    let n = y * r_from;
    let c = spec_ceil_div(n, r_to);
    assert(n >= 0) by (nonlinear_arith)
        requires
            y >= 0,
            r_from > 0,
            n == y * r_from,
    ;
    lemma_fundamental_div_mod(n + r_to - 1, r_to);
    lemma_mod_bound(n + r_to - 1, r_to);
    lemma_div_pos_is_pos(n + r_to - 1, r_to);
    assert(c * r_to == r_to * c) by (nonlinear_arith);
    assert(c <= x) by (nonlinear_arith)
        requires
            c * r_to < n + r_to,
            n <= x * r_to,
            r_to > 0,
    ;
}

/// The matched pair stays within the offer and keeps the reserve ratio to
/// within one unit of the side derived back.
pub(crate) proof fn lemma_matched_bounds(reserve_a: int, reserve_b: int, deposit_a: int, deposit_b: int)
    requires
        reserve_a > 0,
        reserve_b > 0,
        deposit_a >= 0,
        deposit_b >= 0,
    ensures
        ({
            let (a, b) = spec_matched(reserve_a, reserve_b, deposit_a, deposit_b);
            &&& 0 <= a <= deposit_a
            &&& 0 <= b <= deposit_b
            &&& a_limits(reserve_a, reserve_b, deposit_a, deposit_b) ==> b * reserve_a <= a
                * reserve_b < b * reserve_a + reserve_b
            &&& !a_limits(reserve_a, reserve_b, deposit_a, deposit_b) ==> a * reserve_b <= b
                * reserve_a < a * reserve_b + reserve_a
        }),
{
    assert(deposit_a * reserve_b >= 0 && deposit_b * reserve_a >= 0) by (nonlinear_arith)
        requires
            reserve_a > 0,
            reserve_b > 0,
            deposit_a >= 0,
            deposit_b >= 0,
    ;
    if a_limits(reserve_a, reserve_b, deposit_a, deposit_b) {
        let b = deposit_a * reserve_b / reserve_a;
        lemma_floor_mul(deposit_a * reserve_b, reserve_a);
        lemma_div_pos_is_pos(deposit_a * reserve_b, reserve_a);
        assert(deposit_a * reserve_b == reserve_b * deposit_a) by (nonlinear_arith);
        lemma_ceil_back(b, reserve_a, reserve_b, deposit_a);
    } else {
        let a = deposit_b * reserve_a / reserve_b;
        lemma_matched_within_offer(reserve_a, reserve_b, deposit_a, deposit_b);
        lemma_floor_mul(deposit_b * reserve_a, reserve_b);
        assert(deposit_b * reserve_a == reserve_a * deposit_b) by (nonlinear_arith);
        lemma_ceil_back(a, reserve_b, reserve_a, deposit_b);
    }
}

/// Prices a deposit of up to `deposit_a` and `deposit_b`. Into an unfunded
/// pool (`total_shares == 0`) the whole offer is taken and the integer square
/// root of its product is minted. Into a funded pool only the part that
/// matches the reserve ratio is taken, and shares are minted in proportion.
pub fn quote_shares_for_deposit(
    reserve_a: u64,
    reserve_b: u64,
    total_shares: u64,
    deposit_a: u64,
    deposit_b: u64,
) -> (r: Result<DepositQuote, DexError>)
    ensures
        r == spec_quote_deposit(
            reserve_a as int,
            reserve_b as int,
            total_shares as int,
            deposit_a as int,
            deposit_b as int,
        ),
        total_shares == 0 && r is Ok ==> is_isqrt(
            deposit_a * deposit_b,
            r->Ok_0.shares_minted as int,
        ),
        total_shares > 0 && r is Ok ==> {
            let (a, b, s) = spec_ratio_deposit(
                reserve_a as int,
                reserve_b as int,
                total_shares as int,
                deposit_a as int,
                deposit_b as int,
            );
            r->Ok_0.accepted_a == a && r->Ok_0.accepted_b == b && r->Ok_0.shares_minted == s
        },
        total_shares > 0 && r is Ok && a_limits(
            reserve_a as int,
            reserve_b as int,
            deposit_a as int,
            deposit_b as int,
        ) ==> r->Ok_0.accepted_b * reserve_a <= r->Ok_0.accepted_a * reserve_b
            < r->Ok_0.accepted_b * reserve_a + reserve_b,
        total_shares > 0 && r is Ok && !a_limits(
            reserve_a as int,
            reserve_b as int,
            deposit_a as int,
            deposit_b as int,
        ) ==> r->Ok_0.accepted_a * reserve_b <= r->Ok_0.accepted_b * reserve_a
            < r->Ok_0.accepted_a * reserve_b + reserve_a,
        r is Ok ==> r->Ok_0.accepted_a <= deposit_a && r->Ok_0.accepted_b <= deposit_b,
{
    if deposit_a == 0 || deposit_b == 0 {
        return Err(DexError::ZeroAmount);
    }
    proof {
        lemma_mul_u64_fits(deposit_a, deposit_b);
        lemma_mul_u64_fits(deposit_a, reserve_b);
        lemma_mul_u64_fits(deposit_b, reserve_a);
    }
    if total_shares == 0 {
        let shares = isqrt((deposit_a as u128) * (deposit_b as u128));
        return Ok(DepositQuote { accepted_a: deposit_a, accepted_b: deposit_b, shares_minted: shares });
    }
    if reserve_a == 0 || reserve_b == 0 {
        return Err(DexError::RatioMismatch);
    }
    proof {
        lemma_matched_bounds(reserve_a as int, reserve_b as int, deposit_a as int, deposit_b as int);
    }
    let b_for_a: u128 = (deposit_a as u128) * (reserve_b as u128) / (reserve_a as u128);
    let accepted_a: u64;
    let accepted_b: u64;
    if b_for_a <= deposit_b as u128 {
        accepted_b = b_for_a as u64;
        proof {
            lemma_mul_u64_fits(accepted_b, reserve_a);
        }
        let scaled: u128 = (accepted_b as u128) * (reserve_a as u128);
        accepted_a = ((scaled + (reserve_b as u128) - 1) / (reserve_b as u128)) as u64;
    } else {
        accepted_a = ((deposit_b as u128) * (reserve_a as u128) / (reserve_b as u128)) as u64;
        proof {
            lemma_mul_u64_fits(accepted_a, reserve_b);
        }
        let scaled: u128 = (accepted_a as u128) * (reserve_b as u128);
        accepted_b = ((scaled + (reserve_a as u128) - 1) / (reserve_a as u128)) as u64;
    }
    proof {
        lemma_mul_u64_fits(total_shares, accepted_a);
        lemma_mul_u64_fits(total_shares, accepted_b);
    }
    let by_a: u128 = (total_shares as u128) * (accepted_a as u128) / (reserve_a as u128);
    let by_b: u128 = (total_shares as u128) * (accepted_b as u128) / (reserve_b as u128);
    let shares: u128 = if by_a <= by_b {
        by_a
    } else {
        by_b
    };
    if accepted_a == 0 || accepted_b == 0 || shares == 0 {
        return Err(DexError::RatioMismatch);
    }
    if shares > u64::MAX as u128 {
        return Err(DexError::ArithmeticOverflow);
    }
    Ok(DepositQuote { accepted_a, accepted_b, shares_minted: shares as u64 })
}

/// One side's payout for burning `shares_burned` of `total_shares`.
pub open spec fn spec_withdraw_amount(reserve: int, total_shares: int, shares_burned: int) -> int {
    reserve * shares_burned / total_shares
}

/// The outcome of pricing a withdrawal.
pub open spec fn spec_quote_withdraw(
    reserve_a: int,
    reserve_b: int,
    total_shares: int,
    shares_burned: int,
) -> Result<(u64, u64), DexError> {
    if shares_burned == 0 || shares_burned > total_shares {
        Err(DexError::InsufficientShares)
    } else {
        Ok(
            (
                spec_withdraw_amount(reserve_a, total_shares, shares_burned) as u64,
                spec_withdraw_amount(reserve_b, total_shares, shares_burned) as u64,
            ),
        )
    }
}

/// Prices burning `shares_burned` of `total_shares`: each reserve is paid out
/// in proportion, rounded down.
pub fn quote_withdraw(reserve_a: u64, reserve_b: u64, total_shares: u64, shares_burned: u64) -> (r:
    Result<(u64, u64), DexError>)
    ensures
        r == spec_quote_withdraw(
            reserve_a as int,
            reserve_b as int,
            total_shares as int,
            shares_burned as int,
        ),
        r is Ok ==> {
            &&& 0 <= spec_withdraw_amount(
                reserve_a as int,
                total_shares as int,
                shares_burned as int,
            ) <= reserve_a
            &&& 0 <= spec_withdraw_amount(
                reserve_b as int,
                total_shares as int,
                shares_burned as int,
            ) <= reserve_b
        },
{
    if shares_burned == 0 || shares_burned > total_shares {
        return Err(DexError::InsufficientShares);
    }
    proof {
        lemma_mul_u64_fits(reserve_a, shares_burned);
        lemma_mul_u64_fits(reserve_b, shares_burned);
        lemma_kept_out_bounds(shares_burned as int, reserve_a as int, total_shares as int);
        lemma_kept_out_bounds(shares_burned as int, reserve_b as int, total_shares as int);
        assert(shares_burned * reserve_a == reserve_a * shares_burned) by (nonlinear_arith);
        assert(shares_burned * reserve_b == reserve_b * shares_burned) by (nonlinear_arith);
    }
    let amount_a: u128 = (reserve_a as u128) * (shares_burned as u128) / (total_shares as u128);
    let amount_b: u128 = (reserve_b as u128) * (shares_burned as u128) / (total_shares as u128);
    Ok((amount_a as u64, amount_b as u64))
}

} // verus!
