//! Errors of the registry and the signal ledger.

use vstd::prelude::*;

verus! {

/// Failures of the registry and the signal ledger. Each aborts the call
/// that raised it with no change to the store.
#[derive(Debug, Clone, Copy, PartialEq, Eq, Structural)]
pub enum Error {
    NameAlreadyExists,
    PaymentCodeAlreadyExists,
    PaymentCodeDoesntExist,
    IncorrectPaymentCodeLength,
    IncorrectPaymentSignalLength,
    /// Every `u32` index has been given out; the ledger takes no more signals.
    SignalIndexExhausted,
}

impl Error {
    /// The stable numeric code surfaced to callers of the host.
    pub fn code(&self) -> (r: u16)
        ensures
            r == error_code(*self),
    {
        match self {
            Error::NameAlreadyExists => 1,
            Error::PaymentCodeAlreadyExists => 2,
            Error::PaymentCodeDoesntExist => 3,
            Error::IncorrectPaymentCodeLength => 4,
            Error::IncorrectPaymentSignalLength => 5,
            Error::SignalIndexExhausted => 6,
        }
    }
}

pub open spec fn error_code(e: Error) -> u16 {
    match e {
        Error::NameAlreadyExists => 1,
        Error::PaymentCodeAlreadyExists => 2,
        Error::PaymentCodeDoesntExist => 3,
        Error::IncorrectPaymentCodeLength => 4,
        Error::IncorrectPaymentSignalLength => 5,
        Error::SignalIndexExhausted => 6,
    }
}

} // verus!
