//! The outcome of a transaction's execution step, and what the bootloader reports of a
//! processed transaction.
use vstd::prelude::*;

use crate::primitives::B160;

verus! {

/// Address deployed, or the reason for the lack thereof.
#[derive(Clone, Copy, Debug, PartialEq, Eq)]
pub enum DeployedAddress {
    CallNoAddress,
    RevertedNoAddress,
    Address(B160),
}

/// The output of a successful execution step.
#[derive(Debug)]
pub enum ExecutionOutput<'a> {
    /// Return data.
    Call(&'a [u8]),
    /// Return data and the address of the deployed contract.
    Create(&'a [u8], B160),
}

/// The result of an execution step.
#[derive(Debug)]
pub enum ExecutionResult<'a> {
    /// The transaction executed successfully.
    Success { output: ExecutionOutput<'a> },
    /// The transaction reverted.
    Revert { output: &'a [u8] },
}

impl<'a> ExecutionResult<'a> {
    /// The same result turned into a revert: a success keeps its return data and loses
    /// its deployed address; a revert stays as it is.
    pub fn reverted(self) -> (r: Self)
        ensures
            r matches ExecutionResult::Revert { output } && output@ == match self {
                ExecutionResult::Success { output: ExecutionOutput::Call(d) } => d@,
                ExecutionResult::Success { output: ExecutionOutput::Create(d, _) } => d@,
                ExecutionResult::Revert { output } => output@,
            },
    {
        match self {
            ExecutionResult::Success { output: ExecutionOutput::Call(r) } => ExecutionResult::Revert {
                output: r,
            },
            ExecutionResult::Success { output: ExecutionOutput::Create(r, _) } => {
                ExecutionResult::Revert { output: r }
            },
            a => a,
        }
    }
}

/// What the bootloader reports of a processed transaction.
#[derive(Debug)]
pub struct TxProcessingOutput<'a> {
    pub status: bool,
    pub output: &'a [u8],
    pub contract_address: Option<B160>,
    pub gas_used: u64,
    pub gas_refunded: u64,
    pub computational_native_used: u64,
    pub native_used: u64,
    pub pubdata_used: u64,
    /// Computational native resources consumed during validation and fee payment,
    /// intrinsic computational native included.
    pub validation_computational_native_used: u64,
    /// Pubdata bytes consumed during validation.
    pub validation_pubdata: u64,
}

} // verus!
