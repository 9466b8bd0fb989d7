//! Transaction records and their mathematical model.

use crate::identity::{well_formed_identity, PartyIdentity};
use vstd::prelude::*;

verus! {

/// What a transaction record says: who paid whom, how much, and the memo.
pub struct RecordView {
    pub from: Seq<char>,
    pub to: Seq<char>,
    pub amount: int,
    pub message: Seq<char>,
}

/// A record is well formed when both parties are well-formed addresses and
/// the amount fits in 128 bits with a sign.
pub open spec fn well_formed_record(record: RecordView) -> bool {
    &&& well_formed_identity(record.from)
    &&& well_formed_identity(record.to)
    &&& i128::MIN <= record.amount <= i128::MAX
}

/// A history is well formed when each of its records is.
pub open spec fn well_formed_history(history: Seq<RecordView>) -> bool {
    forall|i: int| 0 <= i < history.len() ==> well_formed_record(#[trigger] history[i])
}

/// One completed payment, as the history keeps it. The amount is counted in
/// the smallest unit of the network.
#[derive(Debug, PartialEq, Eq)]
pub struct TransactionRecord {
    pub from: PartyIdentity,
    pub to: PartyIdentity,
    pub amount: i128,
    pub message: String,
}

impl View for TransactionRecord {
    type V = RecordView;

    open spec fn view(&self) -> RecordView {
        RecordView {
            from: self.from@,
            to: self.to@,
            amount: self.amount as int,
            message: self.message@,
        }
    }
}

/// What a sequence of records says, record by record.
pub open spec fn history_view(records: Seq<TransactionRecord>) -> Seq<RecordView> {
    records.map_values(|record: TransactionRecord| record@)
}

impl TransactionRecord {
    /// The record of a payment of `amount` from `from` to `to` with the memo `message`.
    pub fn new(from: PartyIdentity, to: PartyIdentity, amount: i128, message: String) -> (record:
        TransactionRecord)
        ensures
            record@ == (RecordView { from: from@, to: to@, amount: amount as int, message: message@ }),
            well_formed_record(record@),
    {
        proof {
            use_type_invariant(&from);
            use_type_invariant(&to);
        }
        TransactionRecord { from, to, amount, message }
    }
}

impl Clone for TransactionRecord {
    fn clone(&self) -> (copy: Self)
        ensures
            copy@ == self@,
    {
        TransactionRecord {
            from: self.from.clone(),
            to: self.to.clone(),
            amount: self.amount,
            message: self.message.clone(),
        }
    }
}

} // verus!
