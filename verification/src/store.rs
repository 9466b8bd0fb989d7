//! The durable store: two registers that the host keeps for the ledger, each
//! absent or holding bytes, replaced as a whole on every write.

use crate::error::PaymentError;
use vstd::prelude::*;

verus! {

/// The key under which the host keeps the latest memo.
pub const LAST_MESSAGE_KEY: &'static str = "last_payment_message";

/// The key under which the host keeps the written history.
pub const TRANSACTION_HISTORY_KEY: &'static str = "transaction_history";

/// The two registers of the store.
#[derive(Debug, Clone, Copy, PartialEq, Eq, Structural)]
pub enum Register {
    LastMessage,
    TransactionHistory,
}

impl Register {
    /// The key of the register in the host's namespace.
    pub fn key(&self) -> (key: &'static str)
        ensures
            key@ == match *self {
                Register::LastMessage => LAST_MESSAGE_KEY@,
                Register::TransactionHistory => TRANSACTION_HISTORY_KEY@,
            },
    {
        match self {
            Register::LastMessage => LAST_MESSAGE_KEY,
            Register::TransactionHistory => TRANSACTION_HISTORY_KEY,
        }
    }
}

/// What a store holds: the bytes of each register, where it has any, and
/// whether the host grants access.
pub struct StoreView {
    pub last_message: Option<Seq<u8>>,
    pub transaction_history: Option<Seq<u8>>,
    pub available: bool,
}

impl StoreView {
    /// The bytes of `register`.
    pub open spec fn value(self, register: Register) -> Option<Seq<u8>> {
        match register {
            Register::LastMessage => self.last_message,
            Register::TransactionHistory => self.transaction_history,
        }
    }

    /// The store after `bytes` have replaced what `register` held.
    pub open spec fn with_value(self, register: Register, bytes: Seq<u8>) -> StoreView {
        match register {
            Register::LastMessage => StoreView { last_message: Some(bytes), ..self },
            Register::TransactionHistory => StoreView { transaction_history: Some(bytes), ..self },
        }
    }
}

/// The store before anything was written: both registers absent, access
/// granted.
pub open spec fn fresh_store() -> StoreView {
    StoreView { last_message: None, transaction_history: None, available: true }
}

/// The bytes that a read hands out, as a sequence.
pub open spec fn bytes_view(value: Option<&Vec<u8>>) -> Option<Seq<u8>> {
    match value {
        Some(bytes) => Some(bytes@),
        None => None,
    }
}

/// The durable store of the ledger.
#[derive(Debug)]
pub struct Store {
    last_message: Option<Vec<u8>>,
    transaction_history: Option<Vec<u8>>,
    available: bool,
}

impl View for Store {
    type V = StoreView;

    closed spec fn view(&self) -> StoreView {
        StoreView {
            last_message: match self.last_message {
                Some(bytes) => Some(bytes@),
                None => None,
            },
            transaction_history: match self.transaction_history {
                Some(bytes) => Some(bytes@),
                None => None,
            },
            available: self.available,
        }
    }
}

impl Store {
    /// A store with both registers absent, to which the host grants access.
    pub fn new() -> (store: Store)
        ensures
            store@ == fresh_store(),
    {
        Store { last_message: None, transaction_history: None, available: true }
    }

    /// Tells whether the host grants access.
    pub fn is_available(&self) -> (available: bool)
        ensures
            available == self@.available,
    {
        self.available
    }

    /// Records that the host grants access from now on, or denies it. The
    /// registers keep what they hold.
    pub fn set_available(&mut self, available: bool)
        ensures
            final(self)@ == (StoreView { available, ..old(self)@ }),
    {
        self.available = available;
    }

    /// Reads `register`: its bytes, or `None` where it is absent. Fails with
    /// `StorageUnavailable` exactly where the host denies access.
    pub fn get(&self, register: Register) -> (r: Result<Option<&Vec<u8>>, PaymentError>)
        ensures
            r is Ok <==> self@.available,
            r matches Ok(value) ==> bytes_view(value) == self@.value(register),
            r matches Err(e) ==> e == PaymentError::StorageUnavailable,
    {
        if !self.available {
            return Err(PaymentError::StorageUnavailable);
        }
        let held = match register {
            Register::LastMessage => &self.last_message,
            Register::TransactionHistory => &self.transaction_history,
        };
        match held {
            Some(bytes) => Ok(Some(bytes)),
            None => Ok(None),
        }
    }

    /// Replaces what `register` holds by `value`, as a whole; the other
    /// register keeps what it holds. Fails with `StorageUnavailable` exactly
    /// where the host denies access, and then changes nothing.
    pub fn set(&mut self, register: Register, value: Vec<u8>) -> (r: Result<(), PaymentError>)
        ensures
            r is Ok <==> old(self)@.available,
            r is Ok ==> final(self)@ == old(self)@.with_value(register, value@),
            r matches Err(e) ==> e == PaymentError::StorageUnavailable && final(self)@ == old(
                self,
            )@,
    {
        if !self.available {
            return Err(PaymentError::StorageUnavailable);
        }
        match register {
            Register::LastMessage => {
                self.last_message = Some(value);
            },
            Register::TransactionHistory => {
                self.transaction_history = Some(value);
            },
        }
        Ok(())
    }
}

} // verus!
