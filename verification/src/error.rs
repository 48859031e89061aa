//! The error taxonomy. Every error is terminal for the current request: the
//! caller commits no partial state when one is returned.

use vstd::prelude::*;
use crate::state::ProposalStatus;

verus! {

/// Everything that can make a request fail.
#[derive(Clone, Copy, Debug, PartialEq, Eq, Structural)]
pub enum ContractError {
    /// The actor is not allowed to perform the operation.
    Unauthorized,
    /// A proposer tried to address a proposal to themselves.
    InvalidReceiver,
    /// The attached amount in the fee denomination does not match what the
    /// creation requires.
    InvalidProposalCreationFee { amount: u128, expected: u128 },
    /// A required gift leg was underpaid, overpaid or missing.
    GiftFeeNotPaid,
    /// An attached denomination falls outside the required total, or the fee
    /// denomination was overpaid beyond exact coverage.
    ExtraFundsSent,
    /// Cancellation was attempted on a proposal that is no longer pending.
    CancelProposalInvalidStatus { current_status: ProposalStatus },
    /// A sum exceeded the range of its amount type.
    ArithmeticOverflow,
    /// A derived tally would be negative.
    ArithmeticUnderflow,
    /// No proposal carries the requested id.
    NotFound,
}

} // verus!
