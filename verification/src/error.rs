//! The errors that the ledger and the relay can report.

use vstd::prelude::*;

verus! {

/// Why a relay attempt did not settle a payment.
#[derive(Debug, PartialEq, Eq)]
pub enum RelayError {
    /// The settlement network could not be reached; holds the cause as text.
    TransportFailure(String),
    /// The settlement network answered and refused; holds the response body.
    Rejected(String),
}

/// Every failure that an operation of the ledger can surface.
#[derive(Debug, PartialEq, Eq)]
pub enum PaymentError {
    /// The text is empty or is not written in the network's address alphabet.
    InvalidIdentity,
    /// The amount is negative.
    InvalidAmount,
    /// The host denied access to the durable store.
    StorageUnavailable,
    /// The bytes are not the encoding of any history.
    DecodeCorruption,
    /// The relay did not settle the payment.
    PaymentFailed { reason: RelayError },
}

impl Clone for RelayError {
    fn clone(&self) -> (copy: Self)
        ensures
            copy == *self,
    {
        match self {
            RelayError::TransportFailure(cause) => RelayError::TransportFailure(cause.clone()),
            RelayError::Rejected(body) => RelayError::Rejected(body.clone()),
        }
    }
}

impl Clone for PaymentError {
    fn clone(&self) -> (copy: Self)
        ensures
            copy == *self,
    {
        match self {
            PaymentError::InvalidIdentity => PaymentError::InvalidIdentity,
            PaymentError::InvalidAmount => PaymentError::InvalidAmount,
            PaymentError::StorageUnavailable => PaymentError::StorageUnavailable,
            PaymentError::DecodeCorruption => PaymentError::DecodeCorruption,
            PaymentError::PaymentFailed { reason } => PaymentError::PaymentFailed {
                reason: reason.clone(),
            },
        }
    }
}

} // verus!
