use vstd::prelude::*;

verus! {

/// Every reason for which the pool refuses an operation.
#[derive(Debug, Clone, Copy, PartialEq, Eq, Structural)]
pub enum PoolError {
    // input
    InvalidInstructionData,
    InvalidFeeInput,
    MaxDecimalDifferenceExceeded,
    OutsideSpecifiedLimits,
    AddRequiresAllTokens,
    InvalidAmpFactorValue,
    InvalidAmpFactorTimestamp,
    // accounts
    DuplicateAccount,
    InvalidMintAccount,
    InvalidMintAuthority,
    MintHasBalance,
    MintHasFreezeAuthority,
    TokenAccountHasBalance,
    TokenAccountHasDelegate,
    TokenAccountHasCloseAuthority,
    InvalidPoolAuthorityAccount,
    PoolTokenAccountExpected,
    InvalidGovernanceAccount,
    InvalidGovernanceFeeAccount,
    MissingRequiredSignature,
    IllegalOwner,
    MintMismatch,
    OwnerMismatch,
    UninitializedAccount,
    AccountAlreadyInitialized,
    AccountNotRentExempt,
    AccountDataTooSmall,
    IncorrectProgramId,
    // state
    PoolIsPaused,
    InvalidEnact,
    InsufficientDelay,
    AmpJumpTooLarge,
    // numeric
    NumericOverflow,
    DivByZero,
    DidNotConverge,
}

} // verus!
