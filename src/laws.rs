//! Properties that hold across operations of the pool.
use vstd::prelude::*;
use vstd::arithmetic::div_mod::{
    lemma_div_is_ordered,
    lemma_div_is_ordered_by_denominator,
    lemma_div_multiples_vanish,
    lemma_fundamental_div_mod,
    lemma_mod_bound,
};
use vstd::arithmetic::mul::lemma_mul_inequality;

use crate::pool::{Direction, Pool};
use crate::reserve_math::{
    fee_is_valid,
    lemma_after_fee_bounds,
    lemma_kept_out_bounds,
    lemma_floor_mul,
    lemma_matched_bounds,
    spec_after_fee,
    spec_kept_out,
    spec_swap_output,
    swap_is_priced,
};

verus! {

/// The product of the reserves after a swap, split into the product before,
/// the remainder that rounding drops, and the fee-retained input times what
/// stays in the output reserve.
proof fn lemma_swap_product_parts(
    reserve_in: int,
    reserve_out: int,
    amount_in: int,
    fee_numerator: int,
    fee_denominator: int,
)
    requires
        reserve_in >= 0,
        reserve_out >= 0,
        amount_in >= 0,
        swap_is_priced(reserve_in, reserve_out, amount_in, fee_numerator, fee_denominator),
    ensures
        ({
            let counted = spec_after_fee(amount_in, fee_numerator, fee_denominator);
            let grown = reserve_in + counted;
            let product = reserve_in * reserve_out;
            let kept = spec_kept_out(reserve_in, reserve_out, amount_in, fee_numerator, fee_denominator);
            &&& 0 <= counted <= amount_in
            &&& 0 <= kept <= reserve_out
            &&& 0 <= product % grown < grown
            &&& (reserve_in + amount_in) * kept == product - product % grown + (amount_in - counted) * kept
        }),
{
    let counted = spec_after_fee(amount_in, fee_numerator, fee_denominator);
    let grown = reserve_in + counted;
    let product = reserve_in * reserve_out;
    let kept = spec_kept_out(reserve_in, reserve_out, amount_in, fee_numerator, fee_denominator);
    lemma_after_fee_bounds(amount_in, fee_numerator, fee_denominator);
    lemma_fundamental_div_mod(product, grown);
    lemma_mod_bound(product, grown);
    lemma_kept_out_bounds(reserve_in, reserve_out, grown);
    assert((reserve_in + amount_in) * kept == grown * kept + (amount_in - counted) * kept)
        by (nonlinear_arith)
        requires
            grown == reserve_in + counted,
    ;
}

/// The products of the reserves before and after an accepted swap, in terms
/// of the input reserve, the output reserve and what stays in the latter.
proof fn lemma_swap_products(pool: Pool, amount_in: u64, minimum_amount_out: u64, direction: Direction)
    requires
        pool.wf(),
        pool.spec_swap(amount_in, minimum_amount_out, direction) is Ok,
    ensures
        ({
            let rin = pool.reserve_in(direction) as int;
            let rout = pool.reserve_out(direction) as int;
            let kept = spec_kept_out(
                rin,
                rout,
                amount_in as int,
                pool.fee_numerator as int,
                pool.fee_denominator as int,
            );
            let after = pool.spec_swap(amount_in, minimum_amount_out, direction)->Ok_0.0;
            &&& swap_is_priced(
                rin,
                rout,
                amount_in as int,
                pool.fee_numerator as int,
                pool.fee_denominator as int,
            )
            &&& pool.reserve_a * pool.reserve_b == rin * rout
            &&& after.reserve_in(direction) == rin + amount_in
            &&& after.reserve_a * after.reserve_b == (rin + amount_in) * kept
        }),
{
    let rin = pool.reserve_in(direction) as int;
    let rout = pool.reserve_out(direction) as int;
    lemma_swap_product_parts(rin, rout, amount_in as int, pool.fee_numerator as int, pool.fee_denominator as int);
    let kept = spec_kept_out(rin, rout, amount_in as int, pool.fee_numerator as int, pool.fee_denominator as int);
    let after = pool.spec_swap(amount_in, minimum_amount_out, direction)->Ok_0.0;
    assert(after.reserve_out(direction) == kept);
    assert(pool.reserve_a * pool.reserve_b == rin * rout) by (nonlinear_arith)
        requires
            (rin == pool.reserve_a && rout == pool.reserve_b) || (rin == pool.reserve_b && rout
                == pool.reserve_a),
    ;
    assert(after.reserve_a * after.reserve_b == (rin + amount_in) * kept) by (nonlinear_arith)
        requires
            (rin + amount_in == after.reserve_a && kept == after.reserve_b) || (rin + amount_in
                == after.reserve_b && kept == after.reserve_a),
    ;
}

/// For every swap the pool accepts, the product of the reserves falls by less
/// than one unit of the output reserve: the product before is below the
/// product after plus the new input reserve.
pub proof fn swap_product_falls_less_than_one_output_unit(
    pool: Pool,
    amount_in: u64,
    minimum_amount_out: u64,
    direction: Direction,
)
    requires
        pool.wf(),
        pool.spec_swap(amount_in, minimum_amount_out, direction) is Ok,
    ensures
        ({
            let after = pool.spec_swap(amount_in, minimum_amount_out, direction)->Ok_0.0;
            pool.reserve_a * pool.reserve_b < after.reserve_a * after.reserve_b + after.reserve_in(
                direction,
            )
        }),
{
    let rin = pool.reserve_in(direction) as int;
    let rout = pool.reserve_out(direction) as int;
    lemma_swap_product_parts(rin, rout, amount_in as int, pool.fee_numerator as int, pool.fee_denominator as int);
    let kept = spec_kept_out(rin, rout, amount_in as int, pool.fee_numerator as int, pool.fee_denominator as int);
    let counted = spec_after_fee(amount_in as int, pool.fee_numerator as int, pool.fee_denominator as int);
    assert((amount_in - counted) * kept >= 0) by (nonlinear_arith)
        requires
            amount_in - counted >= 0,
            kept >= 0,
    ;
    lemma_swap_products(pool, amount_in, minimum_amount_out, direction);
}

/// A swap never lowers the product of the reserves when the input that the
/// fee keeps back, times what stays in the output reserve, covers the
/// remainder that rounding drops from the new output reserve.
pub proof fn swap_never_lowers_product_when_fee_covers_rounding(
    pool: Pool,
    amount_in: u64,
    minimum_amount_out: u64,
    direction: Direction,
)
    requires
        pool.wf(),
        pool.spec_swap(amount_in, minimum_amount_out, direction) is Ok,
        ({
            let rin = pool.reserve_in(direction) as int;
            let rout = pool.reserve_out(direction) as int;
            let counted = spec_after_fee(
                amount_in as int,
                pool.fee_numerator as int,
                pool.fee_denominator as int,
            );
            (rin * rout) % (rin + counted) <= (amount_in - counted) * ((rin * rout) / (rin
                + counted))
        }),
    ensures
        ({
            let after = pool.spec_swap(amount_in, minimum_amount_out, direction)->Ok_0.0;
            after.reserve_a * after.reserve_b >= pool.reserve_a * pool.reserve_b
        }),
{
    let rin = pool.reserve_in(direction) as int;
    let rout = pool.reserve_out(direction) as int;
    lemma_swap_product_parts(rin, rout, amount_in as int, pool.fee_numerator as int, pool.fee_denominator as int);
    lemma_swap_products(pool, amount_in, minimum_amount_out, direction);
}

/// Without a fee, a swap keeps the product of the reserves up to rounding:
/// the product never rises, and falls by less than one unit of the output
/// reserve.
pub proof fn fee_free_swap_keeps_product_up_to_rounding(
    pool: Pool,
    amount_in: u64,
    minimum_amount_out: u64,
    direction: Direction,
)
    requires
        pool.wf(),
        pool.fee_numerator == 0,
        pool.spec_swap(amount_in, minimum_amount_out, direction) is Ok,
    ensures
        ({
            let after = pool.spec_swap(amount_in, minimum_amount_out, direction)->Ok_0.0;
            &&& after.reserve_a * after.reserve_b <= pool.reserve_a * pool.reserve_b
            &&& pool.reserve_a * pool.reserve_b < after.reserve_a * after.reserve_b
                + after.reserve_in(direction)
        }),
{
    let rin = pool.reserve_in(direction) as int;
    let rout = pool.reserve_out(direction) as int;
    let d = pool.fee_denominator as int;
    lemma_swap_product_parts(rin, rout, amount_in as int, 0, d);
    lemma_div_multiples_vanish(amount_in as int, d);
    assert(amount_in * (d - 0) == d * amount_in) by (nonlinear_arith);
    assert(spec_after_fee(amount_in as int, 0, d) == amount_in);
    let kept = spec_kept_out(rin, rout, amount_in as int, 0, d);
    assert((amount_in - amount_in) * kept == 0) by (nonlinear_arith);
    swap_product_falls_less_than_one_output_unit(pool, amount_in, minimum_amount_out, direction);
    lemma_swap_products(pool, amount_in, minimum_amount_out, direction);
}

/// Holding the reserves and the input fixed, a higher fee never pays out more.
pub proof fn swap_output_nonincreasing_in_fee(
    reserve_in: u64,
    reserve_out: u64,
    amount_in: u64,
    fee_low: u64,
    fee_high: u64,
    fee_denominator: u64,
)
    requires
        fee_is_valid(fee_low as int, fee_denominator as int),
        fee_is_valid(fee_high as int, fee_denominator as int),
        fee_low <= fee_high,
        reserve_in + spec_after_fee(amount_in as int, fee_high as int, fee_denominator as int) > 0,
    ensures
        spec_swap_output(
            reserve_in as int,
            reserve_out as int,
            amount_in as int,
            fee_high as int,
            fee_denominator as int,
        ) <= spec_swap_output(
            reserve_in as int,
            reserve_out as int,
            amount_in as int,
            fee_low as int,
            fee_denominator as int,
        ),
{
    let d = fee_denominator as int;
    let a = amount_in as int;
    lemma_mul_inequality(d - fee_high, d - fee_low, a);
    assert(a * (d - fee_high) == (d - fee_high) * a && a * (d - fee_low) == (d - fee_low) * a)
        by (nonlinear_arith);
    lemma_div_is_ordered(a * (d - fee_high), a * (d - fee_low), d);
    let high = reserve_in + spec_after_fee(a, fee_high as int, d);
    let low = reserve_in + spec_after_fee(a, fee_low as int, d);
    assert(reserve_in * reserve_out >= 0) by (nonlinear_arith);
    lemma_div_is_ordered_by_denominator(reserve_in * reserve_out, high, low);
}

/// Depositing and then at once burning exactly the shares minted pays back no
/// more than was taken, which is no more than was offered.
pub proof fn provision_then_withdraw_returns_at_most_deposit(pool: Pool, deposit_a: u64, deposit_b: u64)
    requires
        pool.wf(),
        pool.spec_provision(deposit_a, deposit_b) is Ok,
    ensures
        ({
            let (next, quote) = pool.spec_provision(deposit_a, deposit_b)->Ok_0;
            let back = next.spec_withdraw(quote.shares_minted);
            &&& back is Ok
            &&& back->Ok_0.1.0 <= quote.accepted_a <= deposit_a
            &&& back->Ok_0.1.1 <= quote.accepted_b <= deposit_b
        }),
{
    let (next, quote) = pool.spec_provision(deposit_a, deposit_b)->Ok_0;
    let s = quote.shares_minted as int;
    let ra = pool.reserve_a as int;
    let rb = pool.reserve_b as int;
    let t = pool.total_shares as int;
    let a = quote.accepted_a as int;
    let b = quote.accepted_b as int;
    lemma_matched_bounds(ra, rb, deposit_a as int, deposit_b as int);
    lemma_floor_mul(t * a, ra);
    lemma_floor_mul(t * b, rb);
    lemma_proportional_payout_bounded(ra, t, a, s);
    lemma_proportional_payout_bounded(rb, t, b, s);
}

/// A swap whose minimum is at most the amount it would pay out is never
/// refused for slippage: where the new input reserve fits in `u64`, it
/// succeeds and pays out exactly that amount. In particular a minimum equal
/// to the output passes.
pub proof fn swap_with_minimum_at_most_output_succeeds(
    pool: Pool,
    amount_in: u64,
    minimum_amount_out: u64,
    direction: Direction,
)
    requires
        pool.wf(),
        pool.spec_swap_quote(amount_in, direction) is Ok,
        minimum_amount_out <= pool.spec_swap_quote(amount_in, direction)->Ok_0,
        pool.reserve_in(direction) + amount_in <= u64::MAX,
    ensures
        ({
            let r = pool.spec_swap(amount_in, minimum_amount_out, direction);
            r is Ok && r->Ok_0.1 == pool.spec_swap_quote(amount_in, direction)->Ok_0
        }),
{
}

/// Shares `s` minted for `added` on top of `reserve` and `total` outstanding,
/// with `s * reserve <= total * added`, redeem for at most `added`.
proof fn lemma_proportional_payout_bounded(reserve: int, total: int, added: int, s: int)
    requires
        reserve > 0,
        total > 0,
        added >= 0,
        s >= 0,
        s <= (total * added) / reserve,
        ((total * added) / reserve) * reserve <= total * added,
    ensures
        (reserve + added) * s / (total + s) <= added,
{
    assert(s * reserve <= total * added) by (nonlinear_arith)
        requires
            s <= (total * added) / reserve,
            ((total * added) / reserve) * reserve <= total * added,
            reserve > 0,
    ;
    assert((reserve + added) * s <= added * (total + s)) by (nonlinear_arith)
        requires
            s * reserve <= total * added,
    ;
    lemma_div_is_ordered((reserve + added) * s, added * (total + s), total + s);
    lemma_div_multiples_vanish(added, total + s);
    assert(added * (total + s) == (total + s) * added) by (nonlinear_arith);
}

} // verus!
