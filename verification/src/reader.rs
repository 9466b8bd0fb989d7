//! Reading a written history back: the scanners for records and histories,
//! each with the proof that it reads what the writer wrote.

use crate::codec::{
    history_text, record_text, records_text, CLOSE_LIST, CLOSE_RECORD, COMMA, KEY_AMOUNT,
    KEY_FROM, KEY_MESSAGE, KEY_TO, OPEN_LIST,
};
use crate::identity::{well_formed_identity, PartyIdentity};
use crate::record::{
    history_view, well_formed_history, well_formed_record, RecordView, TransactionRecord,
};
use crate::scan::{
    has_at, holds_at, lemma_has_at_concat, lemma_has_at_within, lemma_scan_number_reads_decimal,
    lemma_scan_quoted_reads_quoted, read_number, read_quoted, scan_number, scan_quoted,
};
use crate::text::bytes_of;
use crate::wire::{decimal, quoted};
use vstd::prelude::*;
use vstd::string::*;
use vstd::utf8::*;

verus! {

/// Reads one field: the token `key` at offset `at`, then a quoted string.
/// Gives the bytes of the string and the offset behind it.
spec fn scan_field(text: Seq<u8>, at: int, key: Seq<u8>) -> Option<(Seq<u8>, int)> {
    if has_at(text, at, key) {
        scan_quoted(text, at + key.len())
    } else {
        None
    }
}

/// The address that bytes hold, where they hold a well-formed one.
spec fn identity_of(bytes: Seq<u8>) -> Option<Seq<char>> {
    if valid_utf8(bytes) && well_formed_identity(decode_utf8(bytes)) {
        Some(decode_utf8(bytes))
    } else {
        None
    }
}

/// Reads the amount and the memo of a record, and the brace that closes it,
/// from offset `at`.
spec fn scan_record_end(text: Seq<u8>, at: int) -> Option<(int, Seq<u8>, int)> {
    if !has_at(text, at, bytes_of(KEY_AMOUNT@)) {
        None
    } else {
        match scan_number(text, at + bytes_of(KEY_AMOUNT@).len()) {
            None => None,
            Some((amount, after_amount)) => match scan_field(
                text,
                after_amount,
                bytes_of(KEY_MESSAGE@),
            ) {
                None => None,
                Some((message, after_message)) => if has_at(
                    text,
                    after_message,
                    seq![CLOSE_RECORD],
                ) {
                    Some((amount, message, after_message + 1))
                } else {
                    None
                },
            },
        }
    }
}

/// Reads a record that starts at offset `at`: gives what it says and the
/// offset behind its closing brace. The parties must be well-formed
/// addresses, the memo must be text.
spec fn scan_record(text: Seq<u8>, at: int) -> Option<(RecordView, int)> {
    match scan_field(text, at, bytes_of(KEY_FROM@)) {
        None => None,
        Some((from, after_from)) => match scan_field(text, after_from, bytes_of(KEY_TO@)) {
            None => None,
            Some((to, after_to)) => match scan_record_end(text, after_to) {
                None => None,
                Some((amount, message, end)) => if identity_of(from) is Some && identity_of(to)
                    is Some && valid_utf8(message) {
                    Some(
                        (
                            RecordView {
                                from: identity_of(from)->0,
                                to: identity_of(to)->0,
                                amount,
                                message: decode_utf8(message),
                            },
                            end,
                        ),
                    )
                } else {
                    None
                },
            },
        },
    }
}

/// Reads the records of a history from offset `at` to the closing `]`, which
/// must end the text, after the records `read` have been read. Gives all of
/// them.
spec fn scan_records(text: Seq<u8>, at: int, read: Seq<RecordView>) -> Option<
    Seq<RecordView>,
>
    decreases text.len() - at,
{
    match scan_record(text, at) {
        None => None,
        Some((record, end)) => if end <= at || end >= text.len() {
            None
        } else if text[end] == COMMA {
            scan_records(text, end + 1, read.push(record))
        } else if text[end] == CLOSE_LIST && end + 1 == text.len() {
            Some(read.push(record))
        } else {
            None
        },
    }
}

/// Reads a whole text as a history.
pub(crate) closed spec fn scan_history(text: Seq<u8>) -> Option<Seq<RecordView>> {
    if text.len() < 2 || text[0] != OPEN_LIST {
        None
    } else if text[1] == CLOSE_LIST {
        if text.len() == 2 {
            Some(Seq::empty())
        } else {
            None
        }
    } else {
        scan_records(text, 1, Seq::empty())
    }
}

/// The first byte of the token that announces the memo is a comma, and the
/// first byte of the token that opens a record is a brace.
proof fn lemma_first_bytes_of_keys()
    ensures
        bytes_of(KEY_MESSAGE@).len() > 0,
        bytes_of(KEY_MESSAGE@)[0] == COMMA,
        bytes_of(KEY_FROM@).len() > 0,
        bytes_of(KEY_FROM@)[0] == 0x7b,
{
    reveal_strlit(",\"message\":");
    reveal_strlit("{\"from\":");
    assert(is_ascii_chars(KEY_MESSAGE@));
    assert(is_ascii_chars(KEY_FROM@));
    is_ascii_chars_encode_utf8(KEY_MESSAGE@);
    is_ascii_chars_encode_utf8(KEY_FROM@);
    assert(KEY_MESSAGE@[0] == ',');
    assert(KEY_FROM@[0] == '{');
}

proof fn lemma_scan_field_reads_field(text: Seq<u8>, at: int, key: Seq<u8>, bytes: Seq<u8>)
    requires
        has_at(text, at, key + quoted(bytes)),
    ensures
        scan_field(text, at, key) == Some((bytes, at + key.len() + quoted(bytes).len())),
{
    lemma_has_at_concat(text, at, key, quoted(bytes));
    lemma_scan_quoted_reads_quoted(text, at + key.len(), bytes);
}

/// What was written as a record is read back as the same record, and the
/// reading ends right behind it.
proof fn lemma_scan_record_reads_record(text: Seq<u8>, at: int, record: RecordView)
    requires
        well_formed_record(record),
        has_at(text, at, record_text(record)),
    ensures
        scan_record(text, at) == Some((record, at + record_text(record).len())),
{
    let from = bytes_of(KEY_FROM@) + quoted(bytes_of(record.from));
    let to = bytes_of(KEY_TO@) + quoted(bytes_of(record.to));
    let key_amount = bytes_of(KEY_AMOUNT@);
    let amount = decimal(record.amount);
    let message = bytes_of(KEY_MESSAGE@) + quoted(bytes_of(record.message));
    let close = seq![CLOSE_RECORD];
    assert(record_text(record) == from + to + key_amount + amount + message + close);
    lemma_has_at_concat(text, at, from + to + key_amount + amount + message, close);
    lemma_has_at_concat(text, at, from + to + key_amount + amount, message);
    lemma_has_at_concat(text, at, from + to + key_amount, amount);
    lemma_has_at_concat(text, at, from + to, key_amount);
    lemma_has_at_concat(text, at, from, to);
    let after_from = at + from.len();
    let after_to = after_from + to.len();
    let after_amount = after_to + key_amount.len() + amount.len();
    let after_message = after_amount + message.len();
    lemma_scan_field_reads_field(text, at, bytes_of(KEY_FROM@), bytes_of(record.from));
    lemma_scan_field_reads_field(text, after_from, bytes_of(KEY_TO@), bytes_of(record.to));
    lemma_first_bytes_of_keys();
    lemma_has_at_concat(text, after_amount, bytes_of(KEY_MESSAGE@), quoted(bytes_of(record.message)));
    assert(text[after_amount + 0] == bytes_of(KEY_MESSAGE@)[0]);
    lemma_scan_number_reads_decimal(text, after_to + key_amount.len(), record.amount);
    lemma_scan_field_reads_field(text, after_amount, bytes_of(KEY_MESSAGE@), bytes_of(record.message));
    assert(scan_record_end(text, after_to) == Some(
        (record.amount, bytes_of(record.message), after_message + 1),
    ));
    encode_utf8_valid_utf8(record.from);
    encode_utf8_valid_utf8(record.to);
    encode_utf8_valid_utf8(record.message);
    encode_utf8_decode_utf8(record.from);
    encode_utf8_decode_utf8(record.to);
    encode_utf8_decode_utf8(record.message);
}

/// The first records of a history are written at the start of the whole, and
/// a comma follows them where more records follow.
proof fn lemma_records_text_starts_with(history: Seq<RecordView>, count: int)
    requires
        1 <= count <= history.len(),
    ensures
        has_at(records_text(history), 0, records_text(history.take(count))),
        count < history.len() ==> records_text(history).len() > records_text(
            history.take(count),
        ).len() && records_text(history)[records_text(history.take(count)).len() as int] == COMMA,
    decreases history.len() - count,
{
    if count == history.len() {
        assert(history.take(count) == history);
    } else {
        let front = history.drop_last();
        let whole = records_text(history);
        assert(whole == records_text(front) + seq![COMMA] + record_text(history.last()));
        assert(front.take(count) == history.take(count));
        lemma_has_at_concat(whole, 0, records_text(front) + seq![COMMA], record_text(history.last()));
        lemma_has_at_concat(whole, 0, records_text(front), seq![COMMA]);
        assert(whole[records_text(front).len() as int + 0] == seq![COMMA][0]);
        lemma_records_text_starts_with(front, count);
        lemma_has_at_within(whole, 0, records_text(front), 0, records_text(history.take(count)));
        if count < front.len() {
            let behind = records_text(history.take(count)).len() as int;
            assert(whole[behind] == records_text(front)[behind]);
        }
    }
}

/// Where record `next` of a written history starts.
spec fn record_offset(history: Seq<RecordView>, next: int) -> int {
    if next == 0 {
        1
    } else {
        1 + records_text(history.take(next)).len() as int + 1
    }
}

proof fn lemma_scan_records_reads_rest(history: Seq<RecordView>, next: int)
    requires
        well_formed_history(history),
        0 <= next < history.len(),
    ensures
        scan_records(history_text(history), record_offset(history, next), history.take(next))
            == Some(history),
    decreases history.len() - next,
{
    let text = history_text(history);
    let at = record_offset(history, next);
    let record = history[next];
    let done = history.take(next + 1);
    assert(done.drop_last() == history.take(next));
    assert(done.last() == record);
    assert(text == seq![OPEN_LIST] + records_text(history) + seq![CLOSE_LIST]);
    lemma_has_at_concat(text, 0, seq![OPEN_LIST] + records_text(history), seq![CLOSE_LIST]);
    lemma_has_at_concat(text, 0, seq![OPEN_LIST], records_text(history));
    lemma_records_text_starts_with(history, next + 1);
    lemma_has_at_within(text, 1, records_text(history), 0, records_text(done));
    if next == 0 {
        assert(records_text(done) == record_text(record));
    } else {
        assert(records_text(done) == records_text(history.take(next)) + seq![COMMA] + record_text(
            record,
        ));
        lemma_has_at_concat(
            text,
            1,
            records_text(history.take(next)) + seq![COMMA],
            record_text(record),
        );
    }
    assert(has_at(text, at, record_text(record)));
    lemma_scan_record_reads_record(text, at, record);
    let end = at + record_text(record).len();
    assert(end == 1 + records_text(done).len());
    assert(history.take(next).push(record) == done);
    if next + 1 < history.len() {
        assert(text[1 + records_text(done).len() as int] == records_text(history)[records_text(
            done,
        ).len() as int]);
        lemma_scan_records_reads_rest(history, next + 1);
    } else {
        assert(done == history);
        assert(text[end + 0] == seq![CLOSE_LIST][0]);
    }
}

/// What was written as a history is read back as the same history.
pub(crate) proof fn lemma_scan_history_reads_history(history: Seq<RecordView>)
    requires
        well_formed_history(history),
    ensures
        scan_history(history_text(history)) == Some(history),
{
    let text = history_text(history);
    if history.len() == 0 {
        assert(text == seq![OPEN_LIST, CLOSE_LIST]);
    } else {
        lemma_scan_records_reads_rest(history, 0);
        assert(history.take(0) == Seq::<RecordView>::empty());
        lemma_records_text_starts_with(history, 1);
        assert(records_text(history.take(1)) == record_text(history[0]));
        lemma_first_bytes_of_keys();
        let first = record_text(history[0]);
        lemma_has_at_concat(
            first,
            0,
            bytes_of(KEY_FROM@),
            quoted(bytes_of(history[0].from)) + bytes_of(KEY_TO@) + quoted(bytes_of(history[0].to))
                + bytes_of(KEY_AMOUNT@) + decimal(history[0].amount) + bytes_of(KEY_MESSAGE@) + quoted(
                bytes_of(history[0].message),
            ) + seq![CLOSE_RECORD],
        );
        assert(first[0] == bytes_of(KEY_FROM@)[0]);
        assert(records_text(history)[0] == first[0]);
        assert(text[1] == records_text(history)[0]);
    }
}

fn read_field(text: &[u8], at: usize, key: &[u8]) -> (r: Option<(Vec<u8>, usize)>)
    ensures
        match r {
            Some((bytes, end)) => scan_field(text@, at as int, key@) == Some((bytes@, end as int)),
            None => scan_field(text@, at as int, key@) is None,
        },
        r matches Some((_, end)) ==> at < end <= text.len(),
{
    if !holds_at(text, at, key) {
        return None;
    }
    read_quoted(text, at + key.len())
}

fn read_identity(bytes: Vec<u8>) -> (r: Option<PartyIdentity>)
    ensures
        match r {
            Some(identity) => identity_of(bytes@) == Some(identity@),
            None => identity_of(bytes@) is None,
        },
{
    match String::from_utf8(bytes) {
        Ok(address) => match PartyIdentity::new(address.as_str()) {
            Ok(identity) => Some(identity),
            Err(_) => None,
        },
        Err(_) => None,
    }
}

fn read_record_end(text: &[u8], at: usize) -> (r: Option<(i128, Vec<u8>, usize)>)
    ensures
        match r {
            Some((amount, message, end)) => scan_record_end(text@, at as int) == Some(
                (amount as int, message@, end as int),
            ),
            None => scan_record_end(text@, at as int) is None,
        },
        r matches Some((_, _, end)) ==> at < end <= text.len(),
{
    if !holds_at(text, at, KEY_AMOUNT.as_bytes()) {
        return None;
    }
    let (amount, after_amount) = match read_number(text, at + KEY_AMOUNT.len()) {
        Some(read) => read,
        None => {
            return None;
        },
    };
    let (message, after_message) = match read_field(text, after_amount, KEY_MESSAGE.as_bytes()) {
        Some(read) => read,
        None => {
            return None;
        },
    };
    if after_message < text.len() && text[after_message] == CLOSE_RECORD {
        assert(has_at(text@, after_message as int, seq![CLOSE_RECORD]));
        Some((amount, message, after_message + 1))
    } else {
        assert(!has_at(text@, after_message as int, seq![CLOSE_RECORD])) by {
            if has_at(text@, after_message as int, seq![CLOSE_RECORD]) {
                assert(text@[after_message + 0] == seq![CLOSE_RECORD][0]);
            }
        }
        None
    }
}

/// Reads a record that starts at offset `at` of `text`: gives the record and
/// the offset behind its closing brace.
fn read_record(text: &[u8], at: usize) -> (r: Option<(TransactionRecord, usize)>)
    ensures
        match r {
            Some((record, end)) => scan_record(text@, at as int) == Some((record@, end as int)),
            None => scan_record(text@, at as int) is None,
        },
        r matches Some((record, end)) ==> well_formed_record(record@) && at < end <= text.len(),
{
    let (from, after_from) = match read_field(text, at, KEY_FROM.as_bytes()) {
        Some(read) => read,
        None => {
            return None;
        },
    };
    let (to, after_to) = match read_field(text, after_from, KEY_TO.as_bytes()) {
        Some(read) => read,
        None => {
            return None;
        },
    };
    let (amount, message, end) = match read_record_end(text, after_to) {
        Some(read) => read,
        None => {
            return None;
        },
    };
    let from = match read_identity(from) {
        Some(identity) => identity,
        None => {
            return None;
        },
    };
    let to = match read_identity(to) {
        Some(identity) => identity,
        None => {
            return None;
        },
    };
    let message = match String::from_utf8(message) {
        Ok(memo) => memo,
        Err(_) => {
            return None;
        },
    };
    Some((TransactionRecord::new(from, to, amount, message), end))
}

pub(crate) fn read_history(text: &[u8]) -> (r: Option<Vec<TransactionRecord>>)
    ensures
        match r {
            Some(records) => scan_history(text@) == Some(history_view(records@)),
            None => scan_history(text@) is None,
        },
        r matches Some(records) ==> well_formed_history(history_view(records@)),
{
    if text.len() < 2 || text[0] != OPEN_LIST {
        return None;
    }
    let mut records: Vec<TransactionRecord> = Vec::new();
    if text[1] == CLOSE_LIST {
        if text.len() == 2 {
            assert(history_view(records@) == Seq::<RecordView>::empty());
            return Some(records);
        } else {
            return None;
        }
    }
    let mut at: usize = 1;
    assert(history_view(records@) == Seq::<RecordView>::empty());
    loop
        invariant
            at <= text.len(),
            scan_history(text@) == scan_records(text@, at as int, history_view(records@)),
            well_formed_history(history_view(records@)),
        decreases text.len() - at,
    {
        let (record, end) = match read_record(text, at) {
            Some(read) => read,
            None => {
                return None;
            },
        };
        if end >= text.len() {
            return None;
        }
        let ghost before = history_view(records@);
        let ghost said = record@;
        records.push(record);
        assert(history_view(records@) == before.push(said));
        if text[end] == COMMA {
            at = end + 1;
        } else if text[end] == CLOSE_LIST && end + 1 == text.len() {
            return Some(records);
        } else {
            return None;
        }
    }
}

} // verus!
