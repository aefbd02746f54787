use vstd::prelude::*;

verus! {

/// Every way an operation of the pool core can fail. A failed operation
/// leaves every record it was given unchanged.
#[derive(Clone, Copy, Debug, PartialEq, Eq, Structural)]
pub enum AmmError {
    InvalidFee,
    PoolAlreadyExists,
    ZeroLiquidity,
    RatioMismatch,
    InsufficientShares,
    UnknownAsset,
    HookNotWhitelisted,
    /// The computed output fell below the caller's minimum; it carries that output.
    SlippageExceeded { amount_out: u64 },
    InsufficientLiquidity,
    ArithmeticOverflow,
    DivisionByZero,
    Unauthorized,
}

} // verus!
