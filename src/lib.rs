use vstd::prelude::*;

pub mod laws;
pub mod pool;
pub mod reserve_math;

verus! {

/// Errors reported by the pool.
#[derive(Clone, Copy, Debug, PartialEq, Eq, Structural)]
pub enum DexError {
    /// The pool already holds liquidity and cannot be seeded again.
    AlreadyInitialized,
    /// A seeding or deposit amount is zero.
    ZeroAmount,
    /// The fee rate is not a fraction in `[0, 1)`.
    InvalidFeeRate,
    /// No positive part of a deposit matches the reserve ratio.
    RatioMismatch,
    /// A withdrawal burns no shares or more than are outstanding.
    InsufficientShares,
    /// A swap would drain the output reserve.
    InsufficientLiquidity,
    /// A swap would pay out less than the caller's minimum.
    SlippageExceeded,
    /// A reserve or the share supply would leave the range of `u64`.
    ArithmeticOverflow,
    /// Moving assets failed; the operation is abandoned.
    TransferFailed,
}

} // verus!
