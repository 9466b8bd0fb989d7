//! The ledger: the append-only history of recorded transactions, kept in the
//! store as one written text.

use crate::codec::{
    decode_history, encode_history, history_of, history_text, is_history_text,
    lemma_decode_inverts_encode,
};
use crate::error::PaymentError;
use crate::record::{
    history_view, well_formed_history, well_formed_record, RecordView, TransactionRecord,
};
use crate::store::{fresh_store, Register, Store, StoreView};
use vstd::prelude::*;

verus! {

/// The history that bytes stand for. Bytes that are the written form of no
/// history, the empty text among them, stand for the empty history.
pub open spec fn history_of_bytes(text: Seq<u8>) -> Seq<RecordView> {
    if is_history_text(text) {
        history_of(text)
    } else {
        Seq::empty()
    }
}

/// The history that a store holds. An absent register holds the empty
/// history.
pub open spec fn stored_history(store: StoreView) -> Seq<RecordView> {
    match store.transaction_history {
        Some(text) => history_of_bytes(text),
        None => Seq::empty(),
    }
}

/// The store after `record` has been appended to its history.
pub open spec fn after_append(store: StoreView, record: RecordView) -> StoreView {
    store.with_value(
        Register::TransactionHistory,
        history_text(stored_history(store).push(record)),
    )
}

/// The history that a store holds is well formed.
pub proof fn lemma_stored_history_is_well_formed(store: StoreView)
    ensures
        well_formed_history(stored_history(store)),
{
}

/// After an append the store holds the history that it held, then the new
/// record.
pub proof fn lemma_append_extends_history(store: StoreView, record: RecordView)
    requires
        well_formed_record(record),
    ensures
        stored_history(after_append(store, record)) == stored_history(store).push(record),
{
    lemma_stored_history_is_well_formed(store);
    lemma_decode_inverts_encode(stored_history(store).push(record));
}

/// The store after each record of `records` has been appended, in order.
pub open spec fn after_appends(store: StoreView, records: Seq<RecordView>) -> StoreView
    decreases records.len(),
{
    if records.len() == 0 {
        store
    } else {
        after_append(after_appends(store, records.drop_last()), records.last())
    }
}

/// The history only grows, and only at its end: after any number of appends
/// the store holds the history that it held, then the appended records in
/// the order of the calls.
pub proof fn lemma_history_is_append_only(store: StoreView, records: Seq<RecordView>)
    requires
        well_formed_history(records),
    ensures
        stored_history(after_appends(store, records)) == stored_history(store) + records,
        stored_history(after_appends(store, records)).len() == stored_history(store).len()
            + records.len(),
    decreases records.len(),
{
    if records.len() == 0 {
        assert(stored_history(store) + records == stored_history(store));
    } else {
        let front = records.drop_last();
        lemma_history_is_append_only(store, front);
        lemma_append_extends_history(after_appends(store, front), records.last());
        assert((stored_history(store) + front).push(records.last()) == stored_history(store)
            + records);
    }
}

/// A fresh store holds the empty history, and after N appends it holds the N
/// appended records in the order of the calls.
pub proof fn lemma_fresh_store_holds_what_was_appended(records: Seq<RecordView>)
    requires
        well_formed_history(records),
    ensures
        stored_history(fresh_store()) == Seq::<RecordView>::empty(),
        stored_history(after_appends(fresh_store(), records)) == records,
{
    lemma_history_is_append_only(fresh_store(), records);
    assert(Seq::<RecordView>::empty() + records == records);
}

/// A history text has at least the two bytes that open and close it.
pub proof fn lemma_history_text_is_not_empty(history: Seq<RecordView>)
    ensures
        history_text(history).len() >= 2,
{
}

/// A store whose history bytes are the written form of no history holds the
/// empty history; the empty text is such bytes.
pub proof fn lemma_corrupt_history_reads_empty(store: StoreView)
    requires
        store.transaction_history matches Some(text) && !is_history_text(text),
    ensures
        stored_history(store) == Seq::<RecordView>::empty(),
        !is_history_text(Seq::<u8>::empty()),
{
    assert forall|history: Seq<RecordView>| history_text(history) != Seq::<u8>::empty() by {
        lemma_history_text_is_not_empty(history);
    }
}

/// Reading is a function of the store alone: two readings with no write
/// between them give the same history.
pub proof fn lemma_readings_agree(
    store: StoreView,
    first: Seq<TransactionRecord>,
    second: Seq<TransactionRecord>,
)
    requires
        history_view(first) == stored_history(store),
        history_view(second) == stored_history(store),
    ensures
        history_view(first) == history_view(second),
        first.len() == second.len(),
        forall|i: int| 0 <= i < first.len() ==> first[i]@ == second[i]@,
{
    assert(history_view(first).len() == first.len());
    assert(history_view(second).len() == second.len());
    assert forall|i: int| 0 <= i < first.len() implies first[i]@ == second[i]@ by {
        assert(history_view(first)[i] == first[i]@);
        assert(history_view(second)[i] == second[i]@);
    }
}

/// Reads the bytes of a history leniently: what is corrupt reads as empty.
pub fn decode_leniently(text: &[u8]) -> (records: Vec<TransactionRecord>)
    ensures
        history_view(records@) == history_of_bytes(text@),
        well_formed_history(history_view(records@)),
{
    match decode_history(text) {
        Ok(records) => records,
        Err(_) => {
            let records: Vec<TransactionRecord> = Vec::new();
            assert(history_view(records@) == Seq::<RecordView>::empty());
            records
        },
    }
}

/// Reads the whole history of the store, in the order of recording. Fails
/// with `StorageUnavailable` exactly where the host denies access.
pub fn read_all(store: &Store) -> (r: Result<Vec<TransactionRecord>, PaymentError>)
    ensures
        r is Ok <==> store@.available,
        r matches Ok(records) ==> history_view(records@) == stored_history(store@),
        r matches Err(e) ==> e == PaymentError::StorageUnavailable,
{
    match store.get(Register::TransactionHistory) {
        Err(e) => Err(e),
        Ok(None) => {
            let records: Vec<TransactionRecord> = Vec::new();
            assert(history_view(records@) == Seq::<RecordView>::empty());
            Ok(records)
        },
        Ok(Some(text)) => Ok(decode_leniently(text.as_slice())),
    }
}

/// Appends `record` to the history of the store: reads the history, adds the
/// record behind it, and writes the whole back. The store is borrowed
/// exclusively, so that no other access falls between the reading and the
/// writing. Fails with `StorageUnavailable` exactly where the host denies
/// access, and then changes nothing.
pub fn append(store: &mut Store, record: TransactionRecord) -> (r: Result<(), PaymentError>)
    ensures
        r is Ok <==> old(store)@.available,
        r is Ok ==> final(store)@ == after_append(old(store)@, record@),
        r is Ok ==> stored_history(final(store)@) == stored_history(old(store)@).push(record@),
        r matches Err(e) ==> e == PaymentError::StorageUnavailable && final(store)@ == old(
            store,
        )@,
{
    let mut records = match read_all(store) {
        Ok(records) => records,
        Err(e) => {
            return Err(e);
        },
    };
    let ghost before = history_view(records@);
    let ghost said = record@;
    proof {
        use_type_invariant(&record.from);
        use_type_invariant(&record.to);
        lemma_append_extends_history(store@, said);
    }
    records.push(record);
    assert(history_view(records@) == before.push(said));
    store.set(Register::TransactionHistory, encode_history(&records))
}

} // verus!
