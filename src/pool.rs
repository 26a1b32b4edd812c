//! The pool's state and the four operations that change it. Each operation
//! either succeeds and moves the pool to its next state, or fails and leaves
//! the pool exactly as it was. Moving the assets themselves is left to the
//! caller, who performs the transfers for the amounts returned here.
use vstd::prelude::*;
use vstd::arithmetic::div_mod::{lemma_div_multiples_vanish, lemma_fundamental_div_mod, lemma_mod_bound};

use crate::DexError;
use crate::reserve_math::{
    DepositQuote,
    fee_is_valid,
    is_isqrt,
    quote_shares_for_deposit,
    quote_swap_output,
    quote_withdraw,
    spec_quote_deposit,
    spec_quote_swap,
    spec_quote_withdraw,
};

verus! {

/// `r` and the pool's state `after` are what `expected` gives; on an error the
/// pool is left as it was `before`.
pub open spec fn settled<T>(
    before: Pool,
    after: Pool,
    r: Result<T, DexError>,
    expected: Result<(Pool, T), DexError>,
) -> bool {
    match expected {
        Ok((p, v)) => after == p && r == Ok::<T, DexError>(v),
        Err(e) => after == before && r == Err::<T, DexError>(e),
    }
}

/// A seeding deposit of two positive amounts always mints at least one share.
proof fn lemma_seed_mints_shares(a: u64, b: u64, shares: int)
    requires
        a > 0,
        b > 0,
        is_isqrt(a * b, shares),
    ensures
        shares > 0,
{
    assert(a * b >= 1) by (nonlinear_arith)
        requires
            a > 0,
            b > 0,
    ;
}

/// Burning fewer than all shares leaves part of a positive reserve behind.
proof fn lemma_partial_withdraw_leaves_some(reserve: int, shares_burned: int, total_shares: int)
    requires
        reserve > 0,
        0 < shares_burned < total_shares,
    ensures
        reserve * shares_burned / total_shares < reserve,
{
    let x = reserve * shares_burned;
    lemma_fundamental_div_mod(x, total_shares);
    lemma_mod_bound(x, total_shares);
    assert(x / total_shares < reserve) by (nonlinear_arith)
        requires
            x == total_shares * (x / total_shares) + x % total_shares,
            x % total_shares >= 0,
            x == reserve * shares_burned,
            reserve > 0,
            0 < shares_burned < total_shares,
    ;
}

/// Burning every share pays out the whole reserve.
proof fn lemma_full_withdraw_takes_all(reserve: int, total_shares: int)
    requires
        total_shares > 0,
    ensures
        reserve * total_shares / total_shares == reserve,
{
    lemma_div_multiples_vanish(reserve, total_shares);
    assert(reserve * total_shares == total_shares * reserve) by (nonlinear_arith);
}

/// Which asset a swap takes in.
#[derive(Clone, Copy, Debug, PartialEq, Eq, Structural)]
pub enum Direction {
    /// Asset A in, asset B out.
    AToB,
    /// Asset B in, asset A out.
    BToA,
}

/// Reserves, outstanding liquidity shares and fee rate of one pool.
///
/// A pool with no shares holds nothing and is seeded only by `create_pool`;
/// this includes a pool whose every share has been withdrawn, which may be
/// seeded again, at a new fee rate. A pool with shares holds a positive
/// amount of both assets.
#[derive(Clone, Copy, Debug, PartialEq, Eq, Structural)]
pub struct Pool {
    pub reserve_a: u64,
    pub reserve_b: u64,
    pub total_shares: u64,
    pub fee_numerator: u64,
    pub fee_denominator: u64,
}

impl Pool {
    pub open spec fn wf(&self) -> bool {
        &&& fee_is_valid(self.fee_numerator as int, self.fee_denominator as int)
        &&& if self.total_shares == 0 {
            self.reserve_a == 0 && self.reserve_b == 0
        } else {
            self.reserve_a > 0 && self.reserve_b > 0
        }
    }

    /// The reserve that a swap in `direction` takes in.
    pub open spec fn reserve_in(&self, direction: Direction) -> u64 {
        match direction {
            Direction::AToB => self.reserve_a,
            Direction::BToA => self.reserve_b,
        }
    }

    /// The reserve that a swap in `direction` pays out of.
    pub open spec fn reserve_out(&self, direction: Direction) -> u64 {
        match direction {
            Direction::AToB => self.reserve_b,
            Direction::BToA => self.reserve_a,
        }
    }

    /// The pool with the given input and output reserves for `direction`.
    pub open spec fn with_reserves(self, direction: Direction, reserve_in: u64, reserve_out: u64) -> Pool {
        match direction {
            Direction::AToB => Pool { reserve_a: reserve_in, reserve_b: reserve_out, ..self },
            Direction::BToA => Pool { reserve_a: reserve_out, reserve_b: reserve_in, ..self },
        }
    }

    /// The outcome of `create_pool`: the next state and the shares minted.
    pub open spec fn spec_create(
        self,
        initial_a: u64,
        initial_b: u64,
        fee_numerator: u64,
        fee_denominator: u64,
    ) -> Result<(Pool, u64), DexError> {
        if self.total_shares != 0 {
            Err(DexError::AlreadyInitialized)
        } else if !fee_is_valid(fee_numerator as int, fee_denominator as int) {
            Err(DexError::InvalidFeeRate)
        } else {
            match spec_quote_deposit(0, 0, 0, initial_a as int, initial_b as int) {
                Ok(q) => Ok(
                    (
                        Pool {
                            reserve_a: initial_a,
                            reserve_b: initial_b,
                            total_shares: q.shares_minted,
                            fee_numerator,
                            fee_denominator,
                        },
                        q.shares_minted,
                    ),
                ),
                Err(e) => Err(e),
            }
        }
    }

    /// The outcome of `provision`: the next state and what was taken and minted.
    pub open spec fn spec_provision(self, deposit_a: u64, deposit_b: u64) -> Result<
        (Pool, DepositQuote),
        DexError,
    > {
        if self.total_shares == 0 {
            Err(DexError::RatioMismatch)
        } else {
        match spec_quote_deposit(
            self.reserve_a as int,
            self.reserve_b as int,
            self.total_shares as int,
            deposit_a as int,
            deposit_b as int,
        ) {
            Ok(q) => if self.reserve_a + q.accepted_a > u64::MAX || self.reserve_b + q.accepted_b
                > u64::MAX || self.total_shares + q.shares_minted > u64::MAX {
                Err(DexError::ArithmeticOverflow)
            } else {
                Ok(
                    (
                        Pool {
                            reserve_a: (self.reserve_a + q.accepted_a) as u64,
                            reserve_b: (self.reserve_b + q.accepted_b) as u64,
                            total_shares: (self.total_shares + q.shares_minted) as u64,
                            ..self
                        },
                        q,
                    ),
                )
            },
            Err(e) => Err(e),
        }
        }
    }

    /// The outcome of `withdraw`: the next state and the amounts paid out.
    pub open spec fn spec_withdraw(self, shares_burned: u64) -> Result<(Pool, (u64, u64)), DexError> {
        match spec_quote_withdraw(
            self.reserve_a as int,
            self.reserve_b as int,
            self.total_shares as int,
            shares_burned as int,
        ) {
            Ok((a, b)) => Ok(
                (
                    Pool {
                        reserve_a: (self.reserve_a - a) as u64,
                        reserve_b: (self.reserve_b - b) as u64,
                        total_shares: (self.total_shares - shares_burned) as u64,
                        ..self
                    },
                    (a, b),
                ),
            ),
            Err(e) => Err(e),
        }
    }

    /// What a swap in `direction` would pay out at the current reserves.
    pub open spec fn spec_swap_quote(self, amount_in: u64, direction: Direction) -> Result<u64, DexError> {
        spec_quote_swap(
            self.reserve_in(direction) as int,
            self.reserve_out(direction) as int,
            amount_in as int,
            self.fee_numerator as int,
            self.fee_denominator as int,
        )
    }

    /// The outcome of `swap`: the next state and the amount paid out.
    pub open spec fn spec_swap(self, amount_in: u64, minimum_amount_out: u64, direction: Direction) -> Result<
        (Pool, u64),
        DexError,
    > {
        match self.spec_swap_quote(amount_in, direction) {
            Ok(out) => if out < minimum_amount_out {
                Err(DexError::SlippageExceeded)
            } else if self.reserve_in(direction) + amount_in > u64::MAX {
                Err(DexError::ArithmeticOverflow)
            } else {
                Ok(
                    (
                        self.with_reserves(
                            direction,
                            (self.reserve_in(direction) + amount_in) as u64,
                            (self.reserve_out(direction) - out) as u64,
                        ),
                        out,
                    ),
                )
            },
            Err(e) => Err(e),
        }
    }

    /// An unfunded pool.
    pub fn new() -> (p: Pool)
        ensures
            p.wf(),
            p.total_shares == 0,
    {
        Pool { reserve_a: 0, reserve_b: 0, total_shares: 0, fee_numerator: 0, fee_denominator: 1 }
    }

    /// Whether a stored state is one the pool operations accept.
    pub fn is_well_formed(&self) -> (b: bool)
        ensures
            b == self.wf(),
    {
        self.fee_numerator < self.fee_denominator && if self.total_shares == 0 {
            self.reserve_a == 0 && self.reserve_b == 0
        } else {
            self.reserve_a > 0 && self.reserve_b > 0
        }
    }

    /// Seeds an unfunded pool with `initial_a` and `initial_b` at the fee rate
    /// `fee_numerator / fee_denominator`, and returns the shares minted to the
    /// depositor: the integer square root of `initial_a * initial_b`.
    pub fn create_pool(
        &mut self,
        initial_a: u64,
        initial_b: u64,
        fee_numerator: u64,
        fee_denominator: u64,
    ) -> (r: Result<u64, DexError>)
        requires
            old(self).wf(),
        ensures
            final(self).wf(),
            settled(
                *old(self),
                *final(self),
                r,
                old(self).spec_create(initial_a, initial_b, fee_numerator, fee_denominator),
            ),
            r is Ok ==> is_isqrt(initial_a * initial_b, r->Ok_0 as int),
    {
        if self.total_shares != 0 {
            return Err(DexError::AlreadyInitialized);
        }
        if fee_numerator >= fee_denominator {
            return Err(DexError::InvalidFeeRate);
        }
        let quote = match quote_shares_for_deposit(0, 0, 0, initial_a, initial_b) {
            Ok(q) => q,
            Err(e) => {
                return Err(e);
            },
        };
        proof {
            lemma_seed_mints_shares(initial_a, initial_b, quote.shares_minted as int);
        }
        *self = Pool {
            reserve_a: initial_a,
            reserve_b: initial_b,
            total_shares: quote.shares_minted,
            fee_numerator,
            fee_denominator,
        };
        Ok(quote.shares_minted)
    }

    /// Takes from an offer of `deposit_a` and `deposit_b` the part that
    /// matches the reserve ratio, adds it to the reserves and mints shares for
    /// it. An unfunded pool has no ratio to match: it fails with
    /// `RatioMismatch` and is seeded by `create_pool` instead.
    pub fn provision(&mut self, deposit_a: u64, deposit_b: u64) -> (r: Result<DepositQuote, DexError>)
        requires
            old(self).wf(),
        ensures
            final(self).wf(),
            settled(*old(self), *final(self), r, old(self).spec_provision(deposit_a, deposit_b)),
            r is Ok ==> r->Ok_0.accepted_a <= deposit_a && r->Ok_0.accepted_b <= deposit_b,
    {
        if self.total_shares == 0 {
            return Err(DexError::RatioMismatch);
        }
        let quote = match quote_shares_for_deposit(
            self.reserve_a,
            self.reserve_b,
            self.total_shares,
            deposit_a,
            deposit_b,
        ) {
            Ok(q) => q,
            Err(e) => {
                return Err(e);
            },
        };
        if quote.accepted_a > u64::MAX - self.reserve_a || quote.accepted_b > u64::MAX
            - self.reserve_b || quote.shares_minted > u64::MAX - self.total_shares {
            return Err(DexError::ArithmeticOverflow);
        }
        self.reserve_a = self.reserve_a + quote.accepted_a;
        self.reserve_b = self.reserve_b + quote.accepted_b;
        self.total_shares = self.total_shares + quote.shares_minted;
        Ok(quote)
    }

    /// Burns `shares_burned` and pays out the same fraction of each reserve,
    /// rounded down; returns the two amounts paid out.
    pub fn withdraw(&mut self, shares_burned: u64) -> (r: Result<(u64, u64), DexError>)
        requires
            old(self).wf(),
        ensures
            final(self).wf(),
            settled(*old(self), *final(self), r, old(self).spec_withdraw(shares_burned)),
    {
        let (amount_a, amount_b) = match quote_withdraw(
            self.reserve_a,
            self.reserve_b,
            self.total_shares,
            shares_burned,
        ) {
            Ok(amounts) => amounts,
            Err(e) => {
                return Err(e);
            },
        };
        proof {
            if shares_burned == self.total_shares {
                lemma_full_withdraw_takes_all(self.reserve_a as int, self.total_shares as int);
                lemma_full_withdraw_takes_all(self.reserve_b as int, self.total_shares as int);
            } else {
                lemma_partial_withdraw_leaves_some(
                    self.reserve_a as int,
                    shares_burned as int,
                    self.total_shares as int,
                );
                lemma_partial_withdraw_leaves_some(
                    self.reserve_b as int,
                    shares_burned as int,
                    self.total_shares as int,
                );
            }
        }
        self.reserve_a = self.reserve_a - amount_a;
        self.reserve_b = self.reserve_b - amount_b;
        self.total_shares = self.total_shares - shares_burned;
        Ok((amount_a, amount_b))
    }

    /// Swaps `amount_in` of the asset that `direction` takes in for the other
    /// asset at the current reserves, and returns the amount paid out. Fails
    /// with `SlippageExceeded`, changing nothing, when that amount is below
    /// `minimum_amount_out`.
    pub fn swap(&mut self, amount_in: u64, minimum_amount_out: u64, direction: Direction) -> (r: Result<
        u64,
        DexError,
    >)
        requires
            old(self).wf(),
        ensures
            final(self).wf(),
            settled(
                *old(self),
                *final(self),
                r,
                old(self).spec_swap(amount_in, minimum_amount_out, direction),
            ),
            r == Err::<u64, DexError>(DexError::SlippageExceeded) <==> {
                let quote = old(self).spec_swap_quote(amount_in, direction);
                quote is Ok && quote->Ok_0 < minimum_amount_out
            },
    {
        let (reserve_in, reserve_out) = match direction {
            Direction::AToB => (self.reserve_a, self.reserve_b),
            Direction::BToA => (self.reserve_b, self.reserve_a),
        };
        let amount_out = match quote_swap_output(
            reserve_in,
            reserve_out,
            amount_in,
            self.fee_numerator,
            self.fee_denominator,
        ) {
            Ok(out) => out,
            Err(e) => {
                return Err(e);
            },
        };
        if amount_out < minimum_amount_out {
            return Err(DexError::SlippageExceeded);
        }
        if amount_in > u64::MAX - reserve_in {
            return Err(DexError::ArithmeticOverflow);
        }
        let new_in = reserve_in + amount_in;
        let new_out = reserve_out - amount_out;
        match direction {
            Direction::AToB => {
                self.reserve_a = new_in;
                self.reserve_b = new_out;
            },
            Direction::BToA => {
                self.reserve_b = new_in;
                self.reserve_a = new_out;
            },
        }
        Ok(amount_out)
    }
}

} // verus!
