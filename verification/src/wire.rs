//! The written forms from which the stored text is built: literal tokens,
//! quoted strings and decimal numbers.

use vstd::prelude::*;

verus! {

/// `"`, which opens and closes a quoted string.
pub const QUOTE: u8 = 0x22;

/// `\`, which starts an escape inside a quoted string.
pub const BACKSLASH: u8 = 0x5c;

/// `-`, the sign of a negative number.
pub const MINUS: u8 = 0x2d;

/// Appends `bytes` to `out`.
pub(crate) fn push_all(out: &mut Vec<u8>, bytes: &[u8])
    ensures
        final(out)@ == old(out)@ + bytes@,
{
    let mut i: usize = 0;
    while i < bytes.len()
        invariant
            i <= bytes.len(),
            out@ == old(out)@ + bytes@.take(i as int),
        decreases bytes.len() - i,
    {
        out.push(bytes[i]);
        i = i + 1;
    }
    assert(bytes@.take(bytes.len() as int) == bytes@);
}

/// The character that writes the hexadecimal digit of value `n`, for `n` below 16.
pub open spec fn hex_digit(n: u8) -> u8 {
    if n < 10 {
        (48 + n) as u8
    } else {
        (87 + n) as u8
    }
}

/// How one byte of a string stands between the quotes: `"` and `\` behind a
/// backslash, the control characters as `\b`, `\t`, `\n`, `\f`, `\r` or as
/// `\u00` and two hexadecimal digits, every other byte as itself.
pub open spec fn escape_byte(b: u8) -> Seq<u8> {
    if b == 0x22 {
        seq![0x5cu8, 0x22u8]
    } else if b == 0x5c {
        seq![0x5cu8, 0x5cu8]
    } else if b == 0x08 {
        seq![0x5cu8, 0x62u8]
    } else if b == 0x09 {
        seq![0x5cu8, 0x74u8]
    } else if b == 0x0a {
        seq![0x5cu8, 0x6eu8]
    } else if b == 0x0c {
        seq![0x5cu8, 0x66u8]
    } else if b == 0x0d {
        seq![0x5cu8, 0x72u8]
    } else if b < 0x20 {
        seq![0x5cu8, 0x75u8, 0x30u8, 0x30u8, hex_digit(b / 16), hex_digit(b % 16)]
    } else {
        seq![b]
    }
}

/// The bytes of a string as they stand between the quotes.
pub open spec fn escaped(bytes: Seq<u8>) -> Seq<u8>
    decreases bytes.len(),
{
    if bytes.len() == 0 {
        Seq::empty()
    } else {
        escape_byte(bytes[0]) + escaped(bytes.drop_first())
    }
}

/// A string as it is written: its escaped bytes between two quotes.
pub open spec fn quoted(bytes: Seq<u8>) -> Seq<u8> {
    seq![QUOTE] + escaped(bytes) + seq![QUOTE]
}

/// Escaping goes byte by byte: a string with one more byte at its end is
/// written as the string followed by that byte's escape.
proof fn lemma_escaped_push(bytes: Seq<u8>, b: u8)
    ensures
        escaped(bytes.push(b)) == escaped(bytes) + escape_byte(b),
    decreases bytes.len(),
{
    if bytes.len() == 0 {
        assert(bytes.push(b).drop_first() == Seq::<u8>::empty());
        assert(escaped(bytes.push(b)) == escape_byte(b) + escaped(Seq::<u8>::empty()));
    } else {
        assert(bytes.push(b).drop_first() == bytes.drop_first().push(b));
        lemma_escaped_push(bytes.drop_first(), b);
    }
}

fn hex_digit_of(n: u8) -> (d: u8)
    requires
        n < 16,
    ensures
        d == hex_digit(n),
{
    if n < 10 {
        48 + n
    } else {
        87 + n
    }
}

/// Appends to `out` the bytes of a string as they stand between the quotes.
fn push_escaped(out: &mut Vec<u8>, bytes: &[u8])
    ensures
        final(out)@ == old(out)@ + escaped(bytes@),
{
    let mut i: usize = 0;
    assert(bytes@.take(0) == Seq::<u8>::empty());
    while i < bytes.len()
        invariant
            i <= bytes.len(),
            out@ == old(out)@ + escaped(bytes@.take(i as int)),
        decreases bytes.len() - i,
    {
        let b = bytes[i];
        let ghost before = out@;
        if b == 0x22 {
            out.push(0x5c);
            out.push(0x22);
        } else if b == 0x5c {
            out.push(0x5c);
            out.push(0x5c);
        } else if b == 0x08 {
            out.push(0x5c);
            out.push(0x62);
        } else if b == 0x09 {
            out.push(0x5c);
            out.push(0x74);
        } else if b == 0x0a {
            out.push(0x5c);
            out.push(0x6e);
        } else if b == 0x0c {
            out.push(0x5c);
            out.push(0x66);
        } else if b == 0x0d {
            out.push(0x5c);
            out.push(0x72);
        } else if b < 0x20 {
            out.push(0x5c);
            out.push(0x75);
            out.push(0x30);
            out.push(0x30);
            out.push(hex_digit_of(b / 16));
            out.push(hex_digit_of(b % 16));
        } else {
            out.push(b);
        }
        proof {
            assert(out@ == before + escape_byte(b));
            assert(bytes@.take(i + 1) == bytes@.take(i as int).push(b));
            lemma_escaped_push(bytes@.take(i as int), b);
        }
        i = i + 1;
    }
    assert(bytes@.take(bytes.len() as int) == bytes@);
}

/// Appends a string to `out` as it is written.
pub fn push_quoted(out: &mut Vec<u8>, bytes: &[u8])
    ensures
        final(out)@ == old(out)@ + quoted(bytes@),
{
    out.push(QUOTE);
    push_escaped(out, bytes);
    out.push(QUOTE);
}

/// The largest magnitude of an amount: 2 to the power 127, that of the least
/// amount.
pub const MAGNITUDE_LIMIT: u128 = 0x8000_0000_0000_0000_0000_0000_0000_0000;

/// A natural number in decimal digits, without leading zeros.
pub open spec fn digits(n: nat) -> Seq<u8>
    decreases n,
{
    if n < 10 {
        seq![(48 + n) as u8]
    } else {
        digits(n / 10).push((48 + n % 10) as u8)
    }
}

/// An integer as it is written: a minus sign where it is negative, then the
/// decimal digits of its magnitude.
pub open spec fn decimal(n: int) -> Seq<u8> {
    if n < 0 {
        seq![MINUS] + digits((-n) as nat)
    } else {
        digits(n as nat)
    }
}

fn push_digits(out: &mut Vec<u8>, n: u128)
    ensures
        final(out)@ == old(out)@ + digits(n as nat),
    decreases n,
{
    if n >= 10 {
        push_digits(out, n / 10);
    }
    let last: u8 = (n % 10) as u8;
    out.push(48 + last);
}

/// Appends an integer to `out` as it is written.
pub fn push_decimal(out: &mut Vec<u8>, n: i128)
    ensures
        final(out)@ == old(out)@ + decimal(n as int),
{
    if n < 0 {
        out.push(MINUS);
        let magnitude: u128 = if n == i128::MIN {
            MAGNITUDE_LIMIT
        } else {
            (-n) as u128
        };
        push_digits(out, magnitude);
    } else {
        push_digits(out, n as u128);
    }
}

} // verus!
