//! The payment contract: the service that validates a payment, records its
//! memo, hands out the instruction to relay, classifies what the relay
//! brought back, and records transactions in the history.
//!
//! A payment goes through these states. It is validated when its amount has
//! been found not to be negative. Its message is recorded when the memo
//! stands in the store; `send_payment` returns there, with the instruction
//! that the caller relays. It is relayed when `settle` finds that the
//! network accepted the instruction. Its history is appended when
//! `record_transaction` has recorded it, which is a call of its own. It has
//! failed wherever one of these returns an error.

use crate::text::bytes_of;
use crate::error::PaymentError;
use crate::identity::PartyIdentity;
use crate::ledger::{after_append, append, read_all, stored_history};
use crate::record::{history_view, RecordView, TransactionRecord};
use crate::relay::{
    classification, classify, instruction_text, settlement_instruction, RelayReply, RelayResult,
};
use crate::store::{fresh_store, Register, Store, StoreView};
use vstd::prelude::*;
use vstd::slice::slice_to_vec;
use vstd::string::*;
use vstd::utf8::*;

verus! {

/// What reading the latest memo gives while no memo has been recorded.
pub const NO_MESSAGE: &'static str = "No message";

/// The latest memo that a store holds. A register that is absent, or whose
/// bytes are no text, holds none, and reads as `NO_MESSAGE`.
pub open spec fn last_message_of(store: StoreView) -> Seq<char> {
    match store.last_message {
        Some(bytes) => if valid_utf8(bytes) {
            decode_utf8(bytes)
        } else {
            NO_MESSAGE@
        },
        None => NO_MESSAGE@,
    }
}

/// The store after the memo of a payment has been recorded.
pub open spec fn after_send(store: StoreView, memo: Seq<char>) -> StoreView {
    store.with_value(Register::LastMessage, bytes_of(memo))
}

/// What `send_payment` owes for a payment, given whether the host grants
/// access to the store: the instruction to relay, `InvalidAmount` where the
/// amount is negative, `StorageUnavailable` where the amount is accepted and
/// the memo cannot be written.
pub open spec fn is_send_outcome(
    outcome: Result<Vec<u8>, PaymentError>,
    available: bool,
    from: Seq<char>,
    to: Seq<char>,
    amount: int,
    memo: Seq<char>,
) -> bool {
    match outcome {
        Ok(instruction) => amount >= 0 && available && instruction@ == instruction_text(
            from,
            to,
            amount,
            memo,
        ),
        Err(e) => if amount < 0 {
            e == PaymentError::InvalidAmount
        } else {
            !available && e == PaymentError::StorageUnavailable
        },
    }
}

/// How a payment ends once the relay has brought `reply`: with the body of
/// the response where the network accepted, with `PaymentFailed` and the
/// reason where it rejected or could not be reached.
pub open spec fn settlement(reply: RelayReply) -> Result<String, PaymentError> {
    match classification(reply) {
        RelayResult::Accepted(body) => Ok(body),
        RelayResult::Failed(reason) => Err(PaymentError::PaymentFailed { reason }),
    }
}

/// Whatever becomes of the relay, the memo of a payment that was sent is the
/// latest memo of the store.
pub proof fn lemma_last_message_after_send(store: StoreView, memo: Seq<char>)
    ensures
        last_message_of(after_send(store, memo)) == memo,
{
    encode_utf8_valid_utf8(memo);
    encode_utf8_decode_utf8(memo);
}

/// Sending a payment leaves the history as it was: only `record_transaction`
/// appends to it.
pub proof fn lemma_send_keeps_history(store: StoreView, memo: Seq<char>)
    ensures
        stored_history(after_send(store, memo)) == stored_history(store),
{
}

/// Recording a transaction leaves the latest memo as it was.
pub proof fn lemma_record_keeps_last_message(store: StoreView, record: RecordView)
    ensures
        last_message_of(after_append(store, record)) == last_message_of(store),
{
}

/// Before any payment the latest memo reads as `NO_MESSAGE`.
pub proof fn lemma_fresh_store_has_no_message()
    ensures
        last_message_of(fresh_store()) == NO_MESSAGE@,
{
}

/// The payment contract, which owns the store.
#[derive(Debug)]
pub struct PaymentContract {
    store: Store,
}

impl View for PaymentContract {
    type V = StoreView;

    closed spec fn view(&self) -> StoreView {
        self.store@
    }
}

impl PaymentContract {
    /// A contract over a fresh store.
    pub fn new() -> (contract: PaymentContract)
        ensures
            contract@ == fresh_store(),
    {
        PaymentContract { store: Store::new() }
    }

    /// A contract over `store`.
    pub fn with_store(store: Store) -> (contract: PaymentContract)
        ensures
            contract@ == store@,
    {
        PaymentContract { store }
    }

    /// The store of the contract.
    pub fn store(&self) -> (store: &Store)
        ensures
            store@ == self@,
    {
        &self.store
    }

    /// Gives the store back and ends the contract.
    pub fn into_store(self) -> (store: Store)
        ensures
            store@ == self@,
    {
        self.store
    }

    fn prepare(&mut self, from: &PartyIdentity, to: &PartyIdentity, amount: i128, message: &str) -> (r:
        Result<Vec<u8>, PaymentError>)
        ensures
            is_send_outcome(r, old(self)@.available, from@, to@, amount as int, message@),
            r is Ok ==> final(self)@ == after_send(old(self)@, message@),
            r is Err ==> final(self)@ == old(self)@,
    {
        if amount < 0 {
            return Err(PaymentError::InvalidAmount);
        }
        match self.store.set(Register::LastMessage, message.as_bytes_vec()) {
            Ok(()) => Ok(settlement_instruction(from, to, amount, message)),
            Err(e) => Err(e),
        }
    }

    /// Starts a payment of `amount` from `from` to `to` with the memo
    /// `message`. A negative amount is refused with `InvalidAmount` before
    /// anything is written. Otherwise the memo replaces the latest memo of
    /// the store, which fails with `StorageUnavailable` where the host
    /// denies access, and the settlement instruction is returned for the
    /// caller to relay. Nothing is appended to the history.
    pub fn send_payment(
        &mut self,
        from: PartyIdentity,
        to: PartyIdentity,
        amount: i128,
        message: String,
    ) -> (r: Result<Vec<u8>, PaymentError>)
        ensures
            is_send_outcome(r, old(self)@.available, from@, to@, amount as int, message@),
            r is Ok ==> final(self)@ == after_send(old(self)@, message@),
            r is Err ==> final(self)@ == old(self)@,
    {
        self.prepare(&from, &to, amount, message.as_str())
    }

    /// Starts one payment for each recipient of `to_list`, in the order of
    /// the list, each as `send_payment` does: the outcome at each place is
    /// that of the payment to the recipient at that place, and a failure at
    /// one place stops no other.
    pub fn send_payment_multiple(
        &mut self,
        from: PartyIdentity,
        to_list: Vec<PartyIdentity>,
        amount: i128,
        message: String,
    ) -> (outcomes: Vec<Result<Vec<u8>, PaymentError>>)
        ensures
            outcomes.len() == to_list.len(),
            forall|i: int|
                0 <= i < to_list.len() ==> is_send_outcome(
                    #[trigger] outcomes[i],
                    old(self)@.available,
                    from@,
                    to_list[i]@,
                    amount as int,
                    message@,
                ),
            final(self)@ == if to_list.len() > 0 && amount >= 0 && old(self)@.available {
                after_send(old(self)@, message@)
            } else {
                old(self)@
            },
    {
        let mut outcomes: Vec<Result<Vec<u8>, PaymentError>> = Vec::new();
        let mut i: usize = 0;
        while i < to_list.len()
            invariant
                i <= to_list.len(),
                outcomes.len() == i,
                forall|k: int|
                    0 <= k < i ==> is_send_outcome(
                        #[trigger] outcomes[k],
                        old(self)@.available,
                        from@,
                        to_list[k]@,
                        amount as int,
                        message@,
                    ),
                self@.available == old(self)@.available,
                self@ == if i > 0 && amount >= 0 && old(self)@.available {
                    after_send(old(self)@, message@)
                } else {
                    old(self)@
                },
            decreases to_list.len() - i,
        {
            let outcome = self.prepare(&from, &to_list[i], amount, message.as_str());
            outcomes.push(outcome);
            i = i + 1;
        }
        outcomes
    }

    /// Ends a payment with what the relay brought back.
    pub fn settle(reply: &RelayReply) -> (r: Result<String, PaymentError>)
        ensures
            r == settlement(*reply),
    {
        match classify(reply) {
            RelayResult::Accepted(body) => Ok(body),
            RelayResult::Failed(reason) => Err(PaymentError::PaymentFailed { reason }),
        }
    }

    /// Ends each payment of a list with the reply that the relay brought for
    /// it: the result at each place is that of the reply at that place,
    /// whatever became of the others.
    pub fn settle_multiple(replies: &Vec<RelayReply>) -> (results: Vec<Result<String, PaymentError>>)
        ensures
            results.len() == replies.len(),
            forall|i: int|
                0 <= i < replies.len() ==> #[trigger] results[i] == settlement(replies[i]),
    {
        let mut results: Vec<Result<String, PaymentError>> = Vec::new();
        let mut i: usize = 0;
        while i < replies.len()
            invariant
                i <= replies.len(),
                results.len() == i,
                forall|k: int| 0 <= k < i ==> #[trigger] results[k] == settlement(replies[k]),
            decreases replies.len() - i,
        {
            results.push(PaymentContract::settle(&replies[i]));
            i = i + 1;
        }
        results
    }

    /// Appends the record of a payment of `amount` from `from` to `to` with
    /// the memo `message` to the history, whether or not such a payment was
    /// relayed. Fails with `StorageUnavailable` exactly where the host
    /// denies access, and then changes nothing.
    pub fn record_transaction(
        &mut self,
        from: PartyIdentity,
        to: PartyIdentity,
        amount: i128,
        message: String,
    ) -> (r: Result<(), PaymentError>)
        ensures
            r is Ok <==> old(self)@.available,
            r is Ok ==> final(self)@ == after_append(
                old(self)@,
                RecordView { from: from@, to: to@, amount: amount as int, message: message@ },
            ),
            r is Ok ==> stored_history(final(self)@) == stored_history(old(self)@).push(
                RecordView { from: from@, to: to@, amount: amount as int, message: message@ },
            ),
            r matches Err(e) ==> e == PaymentError::StorageUnavailable && final(self)@ == old(
                self,
            )@,
    {
        append(&mut self.store, TransactionRecord::new(from, to, amount, message))
    }

    /// The whole history, in the order of recording. A history whose stored
    /// bytes are corrupt reads as empty. Reading changes nothing, so that a
    /// second reading gives what the first gave. Fails with
    /// `StorageUnavailable` exactly where the host denies access.
    pub fn get_transaction_history(&self) -> (r: Result<Vec<TransactionRecord>, PaymentError>)
        ensures
            r is Ok <==> self@.available,
            r matches Ok(records) ==> history_view(records@) == stored_history(self@),
            r matches Err(e) ==> e == PaymentError::StorageUnavailable,
    {
        read_all(&self.store)
    }

    /// The memo of the payment that was sent last, or `NO_MESSAGE` where none
    /// was. Fails with `StorageUnavailable` exactly where the host denies
    /// access.
    pub fn get_last_message(&self) -> (r: Result<String, PaymentError>)
        ensures
            r is Ok <==> self@.available,
            r matches Ok(memo) ==> memo@ == last_message_of(self@),
            r matches Err(e) ==> e == PaymentError::StorageUnavailable,
    {
        match self.store.get(Register::LastMessage) {
            Err(e) => Err(e),
            Ok(None) => Ok(NO_MESSAGE.to_owned()),
            Ok(Some(bytes)) => match String::from_utf8(slice_to_vec(bytes.as_slice())) {
                Ok(memo) => Ok(memo),
                Err(_) => Ok(NO_MESSAGE.to_owned()),
            },
        }
    }
}

} // verus!
