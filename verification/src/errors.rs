//! Error types shared by the system-level components.
use vstd::prelude::*;

verus! {

/// Defects that are not caused by the transaction but by an inconsistent state.
#[derive(Clone, Copy, Debug, PartialEq, Eq)]
pub enum InternalError {
    /// The oracle did not deliver the initial value of a storage slot.
    MissingInitialSlotValue,
    /// The oracle claimed a slot is new but gave it a non-zero initial value.
    NonTrivialInitialValueOfEmptySlot,
    /// A rollback was requested to a snapshot that does not exist.
    InvalidSnapshot,
    /// An amount that must fit in 256 (or 64) bits does not.
    ArithmeticOverflow,
    /// An L1 transaction's deposit does not cover its value and fee.
    DepositTooLow,
    /// An upgrade transaction reverted; upgrades must succeed.
    UpgradeTransactionFailed,
}

/// Runtime conditions that end the current execution.
#[derive(Clone, Copy, Debug, PartialEq, Eq)]
pub enum RuntimeError {
    OutOfErgs,
    FatalRuntimeError,
}

/// Errors of system functions: either a runtime condition or a defect.
#[derive(Clone, Copy, Debug, PartialEq, Eq)]
pub enum SystemError {
    LeafRuntime(RuntimeError),
    LeafDefect(InternalError),
}

/// Reasons a transaction is rejected during validation.
#[derive(Clone, Copy, Debug, PartialEq, Eq)]
pub enum InvalidTransaction {
    /// A FRI proof transaction (`0x7c`) after a regular one.
    FriProofTxOutOfOrder,
    PriorityFeeGreaterThanMaxFee,
    BaseFeeGreaterThanMaxFee,
}

/// Errors of transaction processing.
#[derive(Clone, Copy, Debug, PartialEq, Eq)]
pub enum TxError {
    Validation(InvalidTransaction),
    Internal(InternalError),
}

/// Errors that stop block production.
#[derive(Clone, Copy, Debug, PartialEq, Eq)]
pub enum BootloaderError {
    UnsupportedTransactionType,
    TransactionFailed,
    ProofVerificationFailed,
    /// More FRI proof transactions at the head of the block than allowed.
    TooManyFriProofTxs,
    /// A FRI proof transaction without a proof payload.
    MalformedFriProofTx,
}

} // verus!
