//! Reading the written forms back: where a token stands in a text, and the
//! scanners for quoted strings and decimal numbers, each with the proof that
//! it reads what the writer wrote.

use crate::wire::{
    decimal, digits, escape_byte, escaped, hex_digit, quoted, BACKSLASH, MAGNITUDE_LIMIT, MINUS,
    QUOTE,
};
use vstd::prelude::*;

verus! {

/// `text` holds `token` at offset `at`.
pub(crate) open spec fn has_at(text: Seq<u8>, at: int, token: Seq<u8>) -> bool {
    &&& 0 <= at
    &&& at + token.len() <= text.len()
    &&& forall|k: int| 0 <= k < token.len() ==> text[at + k] == #[trigger] token[k]
}

/// A token made of two parts is found where the first part is found with the
/// second right behind it.
pub(crate) proof fn lemma_has_at_concat(text: Seq<u8>, at: int, first: Seq<u8>, second: Seq<u8>)
    ensures
        has_at(text, at, first + second) <==> has_at(text, at, first) && has_at(
            text,
            at + first.len(),
            second,
        ),
{
    let token = first + second;
    if has_at(text, at, token) {
        assert forall|k: int| 0 <= k < first.len() implies text[at + k] == #[trigger] first[k] by {
            assert(token[k] == first[k]);
        }
        assert forall|k: int| 0 <= k < second.len() implies text[at + first.len() + k]
            == #[trigger] second[k] by {
            assert(token[first.len() + k] == second[k]);
        }
    }
    if has_at(text, at, first) && has_at(text, at + first.len(), second) {
        assert forall|k: int| 0 <= k < token.len() implies text[at + k] == #[trigger] token[k] by {
            if k < first.len() {
                assert(token[k] == first[k]);
            } else {
                assert(token[k] == second[k - first.len()]);
            }
        }
    }
}

/// A token that is found in a text is found where that text is found in a
/// longer one.
pub(crate) proof fn lemma_has_at_within(text: Seq<u8>, at: int, part: Seq<u8>, inner: int, token: Seq<u8>)
    requires
        has_at(text, at, part),
        has_at(part, inner, token),
    ensures
        has_at(text, at + inner, token),
{
    assert forall|k: int| 0 <= k < token.len() implies text[at + inner + k] == #[trigger] token[k] by {
        assert(part[inner + k] == token[k]);
        assert(text[at + (inner + k)] == part[inner + k]);
    }
}

/// Tells whether `text` holds `token` at offset `at`.
pub(crate) fn holds_at(text: &[u8], at: usize, token: &[u8]) -> (found: bool)
    ensures
        found == has_at(text@, at as int, token@),
        found ==> at + token@.len() <= usize::MAX,
{
    if at > text.len() || token.len() > text.len() - at {
        return false;
    }
    let mut k: usize = 0;
    while k < token.len()
        invariant
            k <= token.len(),
            at + token.len() <= text.len(),
            forall|j: int| 0 <= j < k ==> text@[at + j] == #[trigger] token@[j],
        decreases token.len() - k,
    {
        if text[at + k] != token[k] {
            return false;
        }
        k = k + 1;
    }
    true
}

/// Tells whether two texts are the same.
pub(crate) fn same_bytes(left: &[u8], right: &[u8]) -> (same: bool)
    ensures
        same == (left@ == right@),
{
    if left.len() != right.len() {
        return false;
    }
    let found = holds_at(left, 0, right);
    proof {
        if found {
            assert(left@ =~= right@);
        }
    }
    found
}

/// The byte that a backslash and `b` stand for, where the two are a short escape.
pub(crate) open spec fn short_escape(b: u8) -> Option<u8> {
    if b == 0x22 {
        Some(0x22u8)
    } else if b == 0x5c {
        Some(0x5cu8)
    } else if b == 0x62 {
        Some(0x08u8)
    } else if b == 0x74 {
        Some(0x09u8)
    } else if b == 0x6e {
        Some(0x0au8)
    } else if b == 0x66 {
        Some(0x0cu8)
    } else if b == 0x72 {
        Some(0x0du8)
    } else {
        None
    }
}

/// The value of the hexadecimal digit that `b` writes, if it writes one.
pub(crate) open spec fn hex_value(b: u8) -> Option<u8> {
    if 48 <= b <= 57 {
        Some((b - 48) as u8)
    } else if 97 <= b <= 102 {
        Some((b - 87) as u8)
    } else {
        None
    }
}

/// Reads the inside of a quoted string from offset `at` up to and including
/// the closing quote, after the bytes `read` have been read. Gives the whole
/// string and the offset behind the closing quote. A backslash starts a short
/// escape, or `\u00` and two hexadecimal digits for an ASCII character. The
/// result is `None` where the text ends before the quote, holds a control
/// character as it is, or holds another escape.
pub(crate) open spec fn scan_string_body(text: Seq<u8>, at: int, read: Seq<u8>) -> Option<(Seq<u8>, int)>
    decreases text.len() - at,
{
    if at < 0 || at >= text.len() {
        None
    } else if text[at] == QUOTE {
        Some((read, at + 1))
    } else if text[at] < 0x20 {
        None
    } else if text[at] != BACKSLASH {
        scan_string_body(text, at + 1, read.push(text[at]))
    } else if at + 1 >= text.len() {
        None
    } else if short_escape(text[at + 1]) is Some {
        scan_string_body(text, at + 2, read.push(short_escape(text[at + 1])->0))
    } else if at + 5 < text.len() && text[at + 1] == 0x75 && text[at + 2] == 0x30 && text[at + 3]
        == 0x30 && hex_value(text[at + 4]) is Some && hex_value(text[at + 5]) is Some && hex_value(
        text[at + 4],
    )->0 < 8 {
        scan_string_body(
            text,
            at + 6,
            read.push((hex_value(text[at + 4])->0 * 16 + hex_value(text[at + 5])->0) as u8),
        )
    } else {
        None
    }
}

/// Reads a quoted string that opens at offset `at`: gives its bytes and the
/// offset behind its closing quote.
pub(crate) open spec fn scan_quoted(text: Seq<u8>, at: int) -> Option<(Seq<u8>, int)> {
    if 0 <= at < text.len() && text[at] == QUOTE {
        scan_string_body(text, at + 1, Seq::empty())
    } else {
        None
    }
}

proof fn lemma_scan_string_body_reads_escaped(text: Seq<u8>, at: int, read: Seq<u8>, bytes: Seq<u8>)
    requires
        has_at(text, at, escaped(bytes).push(QUOTE)),
    ensures
        scan_string_body(text, at, read) == Some((read + bytes, at + escaped(bytes).len() + 1)),
    decreases bytes.len(),
{
    let token = escaped(bytes).push(QUOTE);
    if bytes.len() == 0 {
        assert(token[0] == QUOTE);
        assert(read + bytes == read);
    } else {
        let b = bytes[0];
        let rest = bytes.drop_first();
        let head = escape_byte(b);
        assert(token == head + escaped(rest).push(QUOTE));
        lemma_has_at_concat(text, at, head, escaped(rest).push(QUOTE));
        lemma_scan_string_body_reads_escaped(text, at + head.len(), read.push(b), rest);
        assert(read.push(b) + rest == read + bytes);
        assert(text[at] == head[0]);
        if head.len() >= 2 {
            assert(text[at + 1] == head[1]);
        }
        if head.len() == 6 {
            assert(text[at + 2] == head[2]);
            assert(text[at + 3] == head[3]);
            assert(text[at + 4] == head[4]);
            assert(text[at + 5] == head[5]);
            assert(hex_value(hex_digit(b / 16)) == Some((b / 16) as u8));
            assert(hex_value(hex_digit(b % 16)) == Some((b % 16) as u8));
            assert((b / 16) * 16 + b % 16 == b);
        }
    }
}

/// What was written as a quoted string is read back as the same bytes, and
/// the reading ends right behind it.
pub(crate) proof fn lemma_scan_quoted_reads_quoted(text: Seq<u8>, at: int, bytes: Seq<u8>)
    requires
        has_at(text, at, quoted(bytes)),
    ensures
        scan_quoted(text, at) == Some((bytes, at + quoted(bytes).len())),
{
    let inside = escaped(bytes).push(QUOTE);
    assert(quoted(bytes) == seq![QUOTE] + inside);
    lemma_has_at_concat(text, at, seq![QUOTE], inside);
    assert(text[at] == seq![QUOTE][0]);
    lemma_scan_string_body_reads_escaped(text, at + 1, Seq::empty(), bytes);
    assert(Seq::<u8>::empty() + bytes == bytes);
}

fn hex_value_of(b: u8) -> (v: Option<u8>)
    ensures
        v == hex_value(b),
{
    if 48 <= b && b <= 57 {
        Some(b - 48)
    } else if 97 <= b && b <= 102 {
        Some(b - 87)
    } else {
        None
    }
}

fn short_escape_of(b: u8) -> (v: Option<u8>)
    ensures
        v == short_escape(b),
{
    if b == 0x22 {
        Some(0x22)
    } else if b == 0x5c {
        Some(0x5c)
    } else if b == 0x62 {
        Some(0x08)
    } else if b == 0x74 {
        Some(0x09)
    } else if b == 0x6e {
        Some(0x0a)
    } else if b == 0x66 {
        Some(0x0c)
    } else if b == 0x72 {
        Some(0x0d)
    } else {
        None
    }
}

/// Reads a quoted string that opens at offset `at` of `text`: gives its bytes
/// and the offset behind its closing quote.
pub(crate) fn read_quoted(text: &[u8], at: usize) -> (r: Option<(Vec<u8>, usize)>)
    ensures
        match r {
            Some((bytes, end)) => scan_quoted(text@, at as int) == Some((bytes@, end as int)),
            None => scan_quoted(text@, at as int) is None,
        },
        r matches Some((_, end)) ==> at < end <= text.len(),
{
    if at >= text.len() || text[at] != QUOTE {
        return None;
    }
    let mut read: Vec<u8> = Vec::new();
    let mut i: usize = at + 1;
    loop
        invariant
            at < i <= text.len(),
            scan_quoted(text@, at as int) == scan_string_body(text@, i as int, read@),
        decreases text.len() - i,
    {
        if i >= text.len() {
            return None;
        }
        let b = text[i];
        if b == QUOTE {
            return Some((read, i + 1));
        } else if b < 0x20 {
            return None;
        } else if b != BACKSLASH {
            read.push(b);
            i = i + 1;
        } else if i + 1 >= text.len() {
            return None;
        } else {
            match short_escape_of(text[i + 1]) {
                Some(plain) => {
                    read.push(plain);
                    i = i + 2;
                },
                None => {
                    if text.len() - i <= 5 || text[i + 1] != 0x75 || text[i + 2] != 0x30 || text[i
                        + 3] != 0x30 {
                        return None;
                    }
                    match (hex_value_of(text[i + 4]), hex_value_of(text[i + 5])) {
                        (Some(high), Some(low)) => {
                            if high >= 8 {
                                return None;
                            }
                            read.push(high * 16 + low);
                            i = i + 6;
                        },
                        _ => {
                            return None;
                        },
                    }
                },
            }
        }
    }
}

/// `b` writes a decimal digit.
pub(crate) open spec fn is_digit(b: u8) -> bool {
    48 <= b <= 57
}

/// A number is written with at least one byte, and all of them are digits.
pub(crate) proof fn lemma_digits_are_digits(n: nat)
    ensures
        digits(n).len() >= 1,
        forall|k: int| 0 <= k < digits(n).len() ==> is_digit(#[trigger] digits(n)[k]),
    decreases n,
{
    if n >= 10 {
        lemma_digits_are_digits(n / 10);
    }
}

/// Reads decimal digits from offset `at` for as long as there are any, after
/// digits of value `value` have been read. Gives the value of all of them and
/// the offset behind the last, or `None` where the value passes the limit.
pub(crate) open spec fn scan_digits(text: Seq<u8>, at: int, value: nat) -> Option<(nat, int)>
    decreases text.len() - at,
{
    if 0 <= at < text.len() && is_digit(text[at]) {
        let next = value * 10 + (text[at] - 48);
        if next > MAGNITUDE_LIMIT {
            None
        } else {
            scan_digits(text, at + 1, next as nat)
        }
    } else {
        Some((value, at))
    }
}

/// Reads a number that starts at offset `at`: an optional minus sign and at
/// least one digit. Gives its value, which fits in 128 bits with a sign, and
/// the offset behind its last digit.
pub(crate) open spec fn scan_number(text: Seq<u8>, at: int) -> Option<(int, int)> {
    if 0 <= at < text.len() && text[at] == MINUS {
        match scan_digits(text, at + 1, 0) {
            Some((magnitude, end)) => if end > at + 1 {
                Some((-(magnitude as int), end))
            } else {
                None
            },
            None => None,
        }
    } else {
        match scan_digits(text, at, 0) {
            Some((magnitude, end)) => if end > at && magnitude < MAGNITUDE_LIMIT {
                Some((magnitude as int, end))
            } else {
                None
            },
            None => None,
        }
    }
}

proof fn lemma_scan_digits_reads_digits(text: Seq<u8>, at: int, n: nat)
    requires
        has_at(text, at, digits(n)),
        n <= MAGNITUDE_LIMIT,
    ensures
        scan_digits(text, at, 0) == scan_digits(text, at + digits(n).len(), n),
    decreases n,
{
    if n < 10 {
        assert(text[at] == digits(n)[0]);
    } else {
        let front = digits(n / 10);
        let last = (48 + n % 10) as u8;
        assert(digits(n) == front + seq![last]);
        lemma_has_at_concat(text, at, front, seq![last]);
        lemma_scan_digits_reads_digits(text, at, n / 10);
        assert(text[at + front.len()] == seq![last][0]);
        assert((n / 10) * 10 + n % 10 == n);
    }
}

/// What was written as a number is read back as the same number, and the
/// reading ends right behind it, where no further digit follows.
pub(crate) proof fn lemma_scan_number_reads_decimal(text: Seq<u8>, at: int, n: int)
    requires
        has_at(text, at, decimal(n)),
        i128::MIN <= n <= i128::MAX,
        at + decimal(n).len() == text.len() || !is_digit(text[at + decimal(n).len()]),
    ensures
        scan_number(text, at) == Some((n, at + decimal(n).len())),
{
    if n < 0 {
        let magnitude = (-n) as nat;
        lemma_digits_are_digits(magnitude);
        lemma_has_at_concat(text, at, seq![MINUS], digits(magnitude));
        assert(text[at] == seq![MINUS][0]);
        lemma_scan_digits_reads_digits(text, at + 1, magnitude);
    } else {
        let magnitude = n as nat;
        lemma_digits_are_digits(magnitude);
        assert(text[at] == digits(magnitude)[0]);
        assert(is_digit(digits(magnitude)[0]));
        lemma_scan_digits_reads_digits(text, at, magnitude);
    }
}

/// Reads a number that starts at offset `at` of `text`: gives its value and
/// the offset behind its last digit.
pub(crate) fn read_number(text: &[u8], at: usize) -> (r: Option<(i128, usize)>)
    ensures
        match r {
            Some((n, end)) => scan_number(text@, at as int) == Some((n as int, end as int)),
            None => scan_number(text@, at as int) is None,
        },
        r matches Some((_, end)) ==> at < end <= text.len(),
{
    if at >= text.len() {
        return None;
    }
    let negative = text[at] == MINUS;
    let start: usize = if negative {
        at + 1
    } else {
        at
    };
    let mut i: usize = start;
    let mut value: u128 = 0;
    loop
        invariant
            at < text.len(),
            negative == (text@[at as int] == MINUS),
            start == if negative {
                at + 1
            } else {
                at as int
            },
            start <= i <= text.len(),
            value <= MAGNITUDE_LIMIT,
            scan_digits(text@, start as int, 0) == scan_digits(text@, i as int, value as nat),
        ensures
            start <= i <= text.len(),
            value <= MAGNITUDE_LIMIT,
            scan_digits(text@, start as int, 0) == Some((value as nat, i as int)),
        decreases text.len() - i,
    {
        if i >= text.len() {
            break ;
        }
        let b = text[i];
        if b < 48 || b > 57 {
            break ;
        }
        let digit: u128 = (b - 48) as u128;
        if value > (MAGNITUDE_LIMIT - digit) / 10 {
            assert(value * 10 + digit > MAGNITUDE_LIMIT);
            assert(scan_digits(text@, i as int, value as nat) is None);
            return None;
        }
        value = value * 10 + digit;
        i = i + 1;
    }
    if i == start {
        None
    } else if negative {
        if value == MAGNITUDE_LIMIT {
            Some((i128::MIN, i))
        } else {
            Some((-(value as i128), i))
        }
    } else if value >= MAGNITUDE_LIMIT {
        None
    } else {
        Some((value as i128, i))
    }
}

} // verus!
