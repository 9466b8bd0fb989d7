use payment_relay::codec::{decode_history, encode_history, push_record};
use payment_relay::error::PaymentError;
use payment_relay::identity::PartyIdentity;
use payment_relay::ledger::{append, decode_leniently, read_all};
use payment_relay::record::TransactionRecord;
use payment_relay::store::{Register, Store, LAST_MESSAGE_KEY, TRANSACTION_HISTORY_KEY};
use payment_relay::wire::{push_decimal, push_quoted};

fn entry(from: &str, to: &str, amount: i128, message: &str) -> TransactionRecord {
    TransactionRecord::new(
        PartyIdentity::new(from).unwrap(),
        PartyIdentity::new(to).unwrap(),
        amount,
        message.to_string(),
    )
}

fn sample_histories() -> Vec<Vec<TransactionRecord>> {
    vec![
        vec![],
        vec![entry("A", "B", 10, "hi")],
        vec![entry("A", "B", 10, "hi"), entry("A", "C", 5, "bye")],
        vec![entry("GA7Q", "GB2Z", 0, ""), entry("SB", "GA", -1, "-")],
        vec![entry("A", "B", i128::MAX, "max"), entry("A", "B", i128::MIN, "min")],
        vec![entry("A", "B", 1, "say \"hi\" \\ and / go\n\r\t\u{8}\u{c}\u{0}\u{1f}\u{7f}")],
        vec![entry("A", "B", 1, "Gr\u{fc}\u{df}e, \u{4e16}\u{754c} \u{1f600}")],
        vec![entry("A", "B", 1, "\"},{\"from\":\"X\""), entry("A", "B", 2, "],[")],
    ]
}

#[test]
fn an_empty_history_is_written_as_an_empty_list() {
    assert_eq!(encode_history(&vec![]), b"[]".to_vec());
}

#[test]
fn a_history_is_written_as_a_list_of_objects() {
    let history = vec![entry("A", "B", 10, "hi"), entry("A", "C", 5, "bye")];
    assert_eq!(
        String::from_utf8(encode_history(&history)).unwrap(),
        "[{\"from\":\"A\",\"to\":\"B\",\"amount\":10,\"message\":\"hi\"},{\"from\":\"A\",\"to\":\"C\",\"amount\":5,\"message\":\"bye\"}]"
    );
}

#[test]
fn a_record_is_written_with_its_extreme_amounts() {
    let mut out = Vec::new();
    push_record(&mut out, &entry("A", "B", i128::MIN, "m"));
    assert_eq!(
        String::from_utf8(out).unwrap(),
        "{\"from\":\"A\",\"to\":\"B\",\"amount\":-170141183460469231731687303715884105728,\"message\":\"m\"}"
    );
}

#[test]
fn decoding_gives_back_what_was_encoded() {
    for history in sample_histories() {
        let text = encode_history(&history);
        assert_eq!(decode_history(&text), Ok(history));
    }
}

#[test]
fn encoding_decoding_and_encoding_again_gives_the_same_bytes() {
    for history in sample_histories() {
        let first = encode_history(&history);
        let again = encode_history(&decode_history(&first).unwrap());
        assert_eq!(first, again);
    }
}

#[test]
fn text_that_no_history_is_written_as_is_corrupt() {
    let corrupt: Vec<&[u8]> = vec![
        b"",
        b"[",
        b"]",
        b"[]]",
        b"[] ",
        b" []",
        b"[,]",
        b"null",
        b"{\"from\":\"A\",\"to\":\"B\",\"amount\":10,\"message\":\"hi\"}",
        b"[{\"from\":\"A\",\"to\":\"B\",\"amount\":10,\"message\":\"hi\"}",
        b"[{\"from\":\"A\",\"to\":\"B\",\"amount\":10,\"message\":\"hi\"},]",
        b"[{\"from\":\"A\",\"to\":\"B\",\"amount\":10,\"message\":\"hi\"}]x",
        b"[{\"from\":\"A\", \"to\":\"B\",\"amount\":10,\"message\":\"hi\"}]",
        b"[{\"to\":\"B\",\"from\":\"A\",\"amount\":10,\"message\":\"hi\"}]",
        b"[{\"from\":\"A\",\"to\":\"B\",\"amount\":10}]",
        b"[{\"from\":\"A\",\"to\":\"B\",\"amount\":\"10\",\"message\":\"hi\"}]",
        b"[{\"from\":\"A\",\"to\":\"B\",\"amount\":010,\"message\":\"hi\"}]",
        b"[{\"from\":\"A\",\"to\":\"B\",\"amount\":-0,\"message\":\"hi\"}]",
        b"[{\"from\":\"A\",\"to\":\"B\",\"amount\":+1,\"message\":\"hi\"}]",
        b"[{\"from\":\"A\",\"to\":\"B\",\"amount\":1.5,\"message\":\"hi\"}]",
        b"[{\"from\":\"A\",\"to\":\"B\",\"amount\":-,\"message\":\"hi\"}]",
        b"[{\"from\":\"A\",\"to\":\"B\",\"amount\":,\"message\":\"hi\"}]",
        b"[{\"from\":\"A\",\"to\":\"B\",\"amount\":170141183460469231731687303715884105728,\"message\":\"hi\"}]",
        b"[{\"from\":\"A\",\"to\":\"B\",\"amount\":-170141183460469231731687303715884105729,\"message\":\"hi\"}]",
        b"[{\"from\":\"A\",\"to\":\"B\",\"amount\":99999999999999999999999999999999999999999999,\"message\":\"hi\"}]",
        b"[{\"from\":\"\",\"to\":\"B\",\"amount\":10,\"message\":\"hi\"}]",
        b"[{\"from\":\"a\",\"to\":\"B\",\"amount\":10,\"message\":\"hi\"}]",
        b"[{\"from\":\"A\",\"to\":\"B1\",\"amount\":10,\"message\":\"hi\"}]",
        b"[{\"from\":\"A\",\"to\":\"B\",\"amount\":10,\"message\":\"h\\u0069\"}]",
        b"[{\"from\":\"A\",\"to\":\"B\",\"amount\":10,\"message\":\"a\\/b\"}]",
        b"[{\"from\":\"A\",\"to\":\"B\",\"amount\":10,\"message\":\"\\u001F\"}]",
        b"[{\"from\":\"A\",\"to\":\"B\",\"amount\":10,\"message\":\"\\u000a\"}]",
        b"[{\"from\":\"A\",\"to\":\"B\",\"amount\":10,\"message\":\"\n\"}]",
        b"[{\"from\":\"A\",\"to\":\"B\",\"amount\":10,\"message\":\"\\x\"}]",
        b"[{\"from\":\"A\",\"to\":\"B\",\"amount\":10,\"message\":\"\\u00\"}]",
        b"[{\"from\":\"A\",\"to\":\"B\",\"amount\":10,\"message\":\"hi}]",
        b"[{\"from\":\"A\",\"to\":\"B\",\"amount\":10,\"message\":\"\xff\"}]",
        b"[{\"from\":\"A\",\"to\":\"B\",\"amount\":10,\"message\":\"hi\"\\",
    ];
    for text in corrupt {
        assert_eq!(decode_history(text), Err(PaymentError::DecodeCorruption), "{:?}", String::from_utf8_lossy(text));
        assert_eq!(decode_leniently(text), vec![]);
    }
}

#[test]
fn lenient_decoding_reads_what_was_encoded() {
    for history in sample_histories() {
        assert_eq!(decode_leniently(&encode_history(&history)), history);
    }
}

#[test]
fn strings_are_quoted_with_their_escapes() {
    let cases: Vec<(&[u8], &str)> = vec![
        (b"", "\"\""),
        (b"hi", "\"hi\""),
        (b"\"", "\"\\\"\""),
        (b"\\", "\"\\\\\""),
        (b"\x08\x09\x0a\x0c\x0d", "\"\\b\\t\\n\\f\\r\""),
        (b"\x00\x01\x0b\x0e\x1f", "\"\\u0000\\u0001\\u000b\\u000e\\u001f\""),
        (b"\x20\x7f/", "\" \x7f/\""),
        ("\u{e9}\u{1f600}".as_bytes(), "\"\u{e9}\u{1f600}\""),
    ];
    for (bytes, expected) in cases {
        let mut out = b"x".to_vec();
        push_quoted(&mut out, bytes);
        assert_eq!(out, format!("x{}", expected).into_bytes());
    }
}

#[test]
fn quoting_agrees_with_serde_json() {
    let mut all = String::new();
    for code in 0u32..0x250 {
        all.push(char::from_u32(code).unwrap());
    }
    for text in [all.as_str(), "", "plain", "\u{1f600}\u{ffff}\u{10ffff}"] {
        let mut out = Vec::new();
        push_quoted(&mut out, text.as_bytes());
        assert_eq!(out, serde_json::to_vec(text).unwrap());
    }
}

#[test]
fn numbers_agree_with_serde_json() {
    for n in [0i128, 1, -1, 9, 10, 11, 99, 100, -100, 1234567890, i128::MAX, i128::MIN, i128::MAX - 1, i128::MIN + 1] {
        let mut out = Vec::new();
        push_decimal(&mut out, n);
        assert_eq!(out, serde_json::to_vec(&n).unwrap());
        assert_eq!(out, n.to_string().into_bytes());
    }
}

#[test]
fn a_written_history_is_json_with_the_fields_of_each_record() {
    let history = vec![entry("A", "B", 10, "say \"hi\"\n"), entry("A", "C", -5, "\u{1f600}")];
    let value: serde_json::Value = serde_json::from_slice(&encode_history(&history)).unwrap();
    let list = value.as_array().unwrap();
    assert_eq!(list.len(), 2);
    assert_eq!(list[0].get("from").unwrap().as_str(), Some("A"));
    assert_eq!(list[0].get("to").unwrap().as_str(), Some("B"));
    assert_eq!(list[0].get("amount").unwrap().as_i64(), Some(10));
    assert_eq!(list[0].get("message").unwrap().as_str(), Some("say \"hi\"\n"));
    assert_eq!(list[1].get("to").unwrap().as_str(), Some("C"));
    assert_eq!(list[1].get("amount").unwrap().as_i64(), Some(-5));
    assert_eq!(list[1].get("message").unwrap().as_str(), Some("\u{1f600}"));
    assert_eq!(list[1].as_object().unwrap().len(), 4);
}

#[test]
fn numbers_are_written_in_decimal() {
    let cases: Vec<(i128, &str)> = vec![
        (0, "0"),
        (7, "7"),
        (10, "10"),
        (-1, "-1"),
        (1000, "1000"),
        (i128::MAX, "170141183460469231731687303715884105727"),
        (i128::MIN, "-170141183460469231731687303715884105728"),
    ];
    for (n, expected) in cases {
        let mut out = b"=".to_vec();
        push_decimal(&mut out, n);
        assert_eq!(out, format!("={}", expected).into_bytes());
    }
}

#[test]
fn the_ledger_appends_behind_what_the_store_holds() {
    let mut store = Store::new();
    assert_eq!(read_all(&store), Ok(vec![]));
    assert_eq!(append(&mut store, entry("A", "B", 10, "hi")), Ok(()));
    assert_eq!(append(&mut store, entry("A", "C", 5, "bye")), Ok(()));
    assert_eq!(read_all(&store), Ok(vec![entry("A", "B", 10, "hi"), entry("A", "C", 5, "bye")]));
    assert_eq!(
        store.get(Register::TransactionHistory).unwrap().unwrap(),
        &encode_history(&vec![entry("A", "B", 10, "hi"), entry("A", "C", 5, "bye")])
    );
    assert_eq!(store.get(Register::LastMessage), Ok(None));
}

#[test]
fn the_ledger_fails_where_the_store_is_denied() {
    let mut store = Store::new();
    append(&mut store, entry("A", "B", 10, "hi")).unwrap();
    store.set_available(false);
    assert!(!store.is_available());
    assert_eq!(read_all(&store), Err(PaymentError::StorageUnavailable));
    assert_eq!(append(&mut store, entry("A", "C", 5, "bye")), Err(PaymentError::StorageUnavailable));
    assert_eq!(store.get(Register::TransactionHistory), Err(PaymentError::StorageUnavailable));
    assert_eq!(store.set(Register::LastMessage, vec![1]), Err(PaymentError::StorageUnavailable));
    store.set_available(true);
    assert!(store.is_available());
    assert_eq!(read_all(&store), Ok(vec![entry("A", "B", 10, "hi")]));
    assert_eq!(store.get(Register::LastMessage), Ok(None));
}

#[test]
fn a_write_is_seen_by_the_reads_that_follow() {
    let mut store = Store::new();
    assert_eq!(store.get(Register::LastMessage), Ok(None));
    assert_eq!(store.get(Register::TransactionHistory), Ok(None));
    store.set(Register::LastMessage, b"one".to_vec()).unwrap();
    assert_eq!(store.get(Register::LastMessage), Ok(Some(&b"one".to_vec())));
    assert_eq!(store.get(Register::TransactionHistory), Ok(None));
    store.set(Register::LastMessage, b"two".to_vec()).unwrap();
    store.set(Register::TransactionHistory, b"[]".to_vec()).unwrap();
    assert_eq!(store.get(Register::LastMessage), Ok(Some(&b"two".to_vec())));
    assert_eq!(store.get(Register::TransactionHistory), Ok(Some(&b"[]".to_vec())));
}

#[test]
fn the_registers_have_the_keys_of_the_host() {
    assert_eq!(Register::LastMessage.key(), "last_payment_message");
    assert_eq!(Register::TransactionHistory.key(), "transaction_history");
    assert_eq!(LAST_MESSAGE_KEY, "last_payment_message");
    assert_eq!(TRANSACTION_HISTORY_KEY, "transaction_history");
}

#[test]
fn a_memo_of_every_character_is_read_back() {
    let mut memo = String::new();
    for code in 0u32..0x250 {
        memo.push(char::from_u32(code).unwrap());
    }
    memo.push_str("\u{ffff}\u{10000}\u{10ffff}");
    let history = vec![entry("A", "B", 1, &memo), entry("C", "D", 2, &memo)];
    assert_eq!(decode_history(&encode_history(&history)), Ok(history));
}

#[test]
fn every_amount_at_the_edge_of_a_digit_is_read_back() {
    let mut amounts = vec![0i128, i128::MAX, i128::MIN, i128::MAX - 1, i128::MIN + 1];
    let mut power = 1i128;
    for _ in 0..38 {
        for amount in [power - 1, power, power + 1, -power + 1, -power, -power - 1] {
            amounts.push(amount);
        }
        power *= 10;
    }
    for amount in amounts {
        let history = vec![entry("A", "B", amount, "m")];
        assert_eq!(decode_history(&encode_history(&history)), Ok(history));
    }
}

#[test]
fn a_history_with_one_byte_changed_is_corrupt_or_another_history() {
    let history = vec![entry("A", "B", 10, "hi"), entry("A", "C", 5, "bye")];
    let text = encode_history(&history);
    for at in 0..text.len() {
        let mut changed = text.clone();
        changed[at] ^= 0x01;
        match decode_history(&changed) {
            Ok(other) => {
                assert_ne!(other, history);
                assert_eq!(encode_history(&other), changed);
            }
            Err(error) => assert_eq!(error, PaymentError::DecodeCorruption),
        }
    }
}

#[test]
fn a_history_cut_short_is_corrupt() {
    let history = vec![entry("A", "B", 10, "hi"), entry("A", "C", 5, "bye")];
    let text = encode_history(&history);
    for length in 0..text.len() {
        assert_eq!(decode_history(&text[..length]), Err(PaymentError::DecodeCorruption));
    }
}
