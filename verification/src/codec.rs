//! The stored form of a history: how records are written to bytes and read
//! back, and the laws that tie the two together.

use crate::error::PaymentError;
use crate::reader::{lemma_scan_history_reads_history, read_history};
use crate::record::{history_view, well_formed_history, RecordView, TransactionRecord};
use crate::scan::same_bytes;
use crate::text::bytes_of;
use crate::wire::{decimal, push_all, push_decimal, push_quoted, quoted};
use vstd::prelude::*;
use vstd::string::*;

verus! {

/// `[`, which opens a history.
pub const OPEN_LIST: u8 = 0x5b;

/// `]`, which closes a history.
pub const CLOSE_LIST: u8 = 0x5d;

/// `,`, which stands between two records.
pub const COMMA: u8 = 0x2c;

/// `}`, which closes a record.
pub const CLOSE_RECORD: u8 = 0x7d;

/// The token that opens a record and announces the paying party.
pub const KEY_FROM: &'static str = "{\"from\":";

/// The token that announces the party paid.
pub const KEY_TO: &'static str = ",\"to\":";

/// The token that announces the amount.
pub const KEY_AMOUNT: &'static str = ",\"amount\":";

/// The token that announces the memo.
pub const KEY_MESSAGE: &'static str = ",\"message\":";

/// A record as it is written: an object with the fields `from`, `to`,
/// `amount` and `message`, in this order and without spaces.
pub open spec fn record_text(record: RecordView) -> Seq<u8> {
    bytes_of(KEY_FROM@) + quoted(bytes_of(record.from)) + bytes_of(KEY_TO@) + quoted(
        bytes_of(record.to),
    ) + bytes_of(KEY_AMOUNT@) + decimal(record.amount) + bytes_of(KEY_MESSAGE@) + quoted(
        bytes_of(record.message),
    ) + seq![CLOSE_RECORD]
}

/// The records of a history as they are written, with a comma between each
/// two of them.
pub open spec fn records_text(history: Seq<RecordView>) -> Seq<u8>
    decreases history.len(),
{
    if history.len() == 0 {
        Seq::empty()
    } else if history.len() == 1 {
        record_text(history[0])
    } else {
        records_text(history.drop_last()) + seq![COMMA] + record_text(history.last())
    }
}

/// A history as it is written: its records in order between `[` and `]`.
pub open spec fn history_text(history: Seq<RecordView>) -> Seq<u8> {
    seq![OPEN_LIST] + records_text(history) + seq![CLOSE_LIST]
}

/// Appends a record to `out` as it is written.
pub fn push_record(out: &mut Vec<u8>, record: &TransactionRecord)
    ensures
        final(out)@ == old(out)@ + record_text(record@),
{
    push_all(out, KEY_FROM.as_bytes());
    push_quoted(out, record.from.as_str().as_bytes());
    push_all(out, KEY_TO.as_bytes());
    push_quoted(out, record.to.as_str().as_bytes());
    push_all(out, KEY_AMOUNT.as_bytes());
    push_decimal(out, record.amount);
    push_all(out, KEY_MESSAGE.as_bytes());
    push_quoted(out, record.message.as_str().as_bytes());
    out.push(CLOSE_RECORD);
    assert(out@ == old(out)@ + record_text(record@));
}

/// Writes a history to bytes.
pub fn encode_history(records: &Vec<TransactionRecord>) -> (text: Vec<u8>)
    ensures
        text@ == history_text(history_view(records@)),
{
    let ghost history = history_view(records@);
    let mut text: Vec<u8> = Vec::new();
    text.push(OPEN_LIST);
    let mut i: usize = 0;
    assert(history.take(0) == Seq::<RecordView>::empty());
    while i < records.len()
        invariant
            i <= records.len(),
            history == history_view(records@),
            text@ == seq![OPEN_LIST] + records_text(history.take(i as int)),
        decreases records.len() - i,
    {
        if i > 0 {
            text.push(COMMA);
        }
        push_record(&mut text, &records[i]);
        proof {
            let done = history.take(i + 1);
            assert(done.drop_last() == history.take(i as int));
            assert(done.last() == records@[i as int]@);
        }
        i = i + 1;
    }
    assert(history.take(records.len() as int) == history);
    text.push(CLOSE_LIST);
    text
}

/// `text` is the written form of `history`, and `history` is well formed.
pub open spec fn decodes_to(text: Seq<u8>, history: Seq<RecordView>) -> bool {
    well_formed_history(history) && history_text(history) == text
}

/// `text` is the written form of some well-formed history.
pub open spec fn is_history_text(text: Seq<u8>) -> bool {
    exists|history: Seq<RecordView>| decodes_to(text, history)
}

/// The history that `text` is the written form of, where it is one.
pub open spec fn history_of(text: Seq<u8>) -> Seq<RecordView> {
    choose|history: Seq<RecordView>| decodes_to(text, history)
}

/// Two well-formed histories that are written alike are the same history.
pub proof fn lemma_history_text_injective(first: Seq<RecordView>, second: Seq<RecordView>)
    requires
        well_formed_history(first),
        well_formed_history(second),
        history_text(first) == history_text(second),
    ensures
        first == second,
{
    lemma_scan_history_reads_history(first);
    lemma_scan_history_reads_history(second);
}

/// Decoding undoes encoding: the written form of a well-formed history is
/// the text of a history, and of that history only.
pub proof fn lemma_decode_inverts_encode(history: Seq<RecordView>)
    requires
        well_formed_history(history),
    ensures
        is_history_text(history_text(history)),
        history_of(history_text(history)) == history,
{
    assert(decodes_to(history_text(history), history));
    lemma_history_text_injective(history, history_of(history_text(history)));
}

/// Encoding, decoding and encoding again gives the bytes of the first
/// encoding.
pub proof fn lemma_encode_decode_encode(history: Seq<RecordView>)
    requires
        well_formed_history(history),
    ensures
        history_text(history_of(history_text(history))) == history_text(history),
{
    lemma_decode_inverts_encode(history);
}

/// Reads a history from bytes. Only the bytes that `encode_history` writes
/// for some history are accepted; anything else is corrupt.
pub fn decode_history(text: &[u8]) -> (r: Result<Vec<TransactionRecord>, PaymentError>)
    ensures
        r is Ok <==> is_history_text(text@),
        r matches Ok(records) ==> decodes_to(text@, history_view(records@)) && history_view(
            records@,
        ) == history_of(text@),
        r matches Err(e) ==> e == PaymentError::DecodeCorruption,
{
    proof {
        if is_history_text(text@) {
            lemma_scan_history_reads_history(history_of(text@));
        }
    }
    let records = match read_history(text) {
        Some(records) => records,
        None => {
            return Err(PaymentError::DecodeCorruption);
        },
    };
    let written = encode_history(&records);
    if same_bytes(written.as_slice(), text) {
        proof {
            assert(decodes_to(text@, history_view(records@)));
            lemma_history_text_injective(history_view(records@), history_of(text@));
        }
        Ok(records)
    } else {
        Err(PaymentError::DecodeCorruption)
    }
}

} // verus!
