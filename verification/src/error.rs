use vstd::prelude::*;

verus! {

/// Reasons an operation on the pool engine can be rejected. Every failure is
/// reported synchronously; a failed operation must be treated as having had no
/// effect.
#[derive(Clone, Copy, Debug, PartialEq, Eq, Structural)]
pub enum ErrorCode {
    /// A tick index lies outside the valid tick range.
    InvalidTick,
    /// A square-root price lies outside the representable price range.
    PriceOverflow,
    /// A tick-array start index is not a valid array boundary.
    InvalidTickIndex,
    /// The lower tick of a range is not strictly below the upper tick.
    TickInvalidOrder,
    /// A tick index is not a multiple of the pool's tick spacing.
    TickAndSpacingNotMatch,
    /// A tick does not belong to the tick array it was looked up in.
    InvalidTickArray,
    /// The operation is disabled by the pool's status bitmask.
    NotApproved,
    /// All reward slots are already initialized.
    FullRewardInfo,
    /// The candidate reward mint is already used by another slot.
    RewardTokenAlreadyInUse,
    /// The candidate reward mint fails the slot eligibility rules.
    ExceptRewardMint,
    /// The number of reward accounts supplied does not match the pool.
    InvalidRewardInputAccountNumber,
    /// A tick array outside the default bitmap window was touched without
    /// the bitmap extension being supplied.
    MissingTickArrayBitmapExtensionAccount,
    /// No initialized tick array exists in the requested direction.
    InsufficientLiquidityForDirection,
    /// Adding a liquidity delta would overflow a liquidity accumulator.
    LiquidityAddValueErr,
    /// Removing a liquidity delta would underflow a liquidity accumulator.
    LiquiditySubValueErr,
    /// Checked arithmetic on a growth or accounting value overflowed.
    MathOverflow,
    /// A supplied timestamp is older than the state it must follow.
    InvalidTimestamp,
    /// A claim asks for more than the unclaimed amount available.
    InsufficientClaimAmount,
    /// A withdrawal would return less than the caller's stated minimum.
    /// Slippage is judged on the price-curve token amounts, which callers
    /// compute outside this library, so no function here produces it.
    PriceSlippageCheck,
    /// A serialized account does not have the expected size.
    InvalidAccountData,
}

} // verus!
