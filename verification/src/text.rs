//! Byte- and character-level encodings: decimal numbers, hexadecimal, JSON
//! strings and the textual forms of coin amounts.

use vstd::prelude::*;

verus! {

/// The ASCII byte of a decimal digit.
pub open spec fn digit_byte(d: nat) -> u8 {
    (48 + d) as u8
}

/// The ASCII decimal digits of a natural number, most significant first.
pub open spec fn decimal(n: nat) -> Seq<u8>
    decreases n,
{
    if n < 10 {
        seq![digit_byte(n)]
    } else {
        decimal(n / 10).push(digit_byte(n % 10))
    }
}

/// The lowercase hexadecimal digit for a value below 16.
pub open spec fn hex_char(v: int) -> char {
    seq!['0', '1', '2', '3', '4', '5', '6', '7', '8', '9', 'a', 'b', 'c', 'd', 'e', 'f'][v]
}

/// Lowercase hexadecimal text of a byte string: two digits per byte.
pub open spec fn hex_lower(b: Seq<u8>) -> Seq<char>
    decreases b.len(),
{
    if b.len() == 0 {
        seq![]
    } else {
        hex_lower(b.drop_last()) + seq![hex_char(b.last() as int / 16), hex_char(b.last() as int % 16)]
    }
}

/// The value of a hex digit byte of either case.
pub open spec fn hex_value(c: u8) -> Option<int> {
    if 48 <= c <= 57 {
        Some(c - 48)
    } else if 97 <= c <= 102 {
        Some(c - 87)
    } else if 65 <= c <= 70 {
        Some(c - 55)
    } else {
        None
    }
}

/// Decoding of hexadecimal text given as bytes: defined exactly when the
/// length is even and every byte is a hex digit.
pub open spec fn hex_decoded(s: Seq<u8>) -> Option<Seq<u8>>
    decreases s.len(),
{
    if s.len() % 2 != 0 {
        None
    } else if s.len() == 0 {
        Some(seq![])
    } else {
        match (hex_decoded(s.subrange(0, s.len() - 2)), hex_value(s[s.len() - 2]), hex_value(s[s.len() - 1])) {
            (Some(p), Some(h), Some(l)) => Some(p.push((h * 16 + l) as u8)),
            _ => None,
        }
    }
}

/// The characters of an ASCII byte string.
pub open spec fn ascii_chars(b: Seq<u8>) -> Seq<char> {
    Seq::new(b.len(), |i: int| b[i] as char)
}

/// How `serde_json` writes one byte of a string's UTF-8 encoding.
pub open spec fn json_escape_byte(b: u8) -> Seq<u8> {
    if b == 0x22 {
        seq![0x5cu8, 0x22u8]
    } else if b == 0x5c {
        seq![0x5cu8, 0x5cu8]
    } else if b == 0x08 {
        seq![0x5cu8, 0x62u8]
    } else if b == 0x0c {
        seq![0x5cu8, 0x66u8]
    } else if b == 0x0a {
        seq![0x5cu8, 0x6eu8]
    } else if b == 0x0d {
        seq![0x5cu8, 0x72u8]
    } else if b == 0x09 {
        seq![0x5cu8, 0x74u8]
    } else if b < 0x20 {
        seq![0x5cu8, 0x75u8, 0x30u8, 0x30u8, hex_char(b as int / 16) as u8, hex_char(b as int % 16) as u8]
    } else {
        seq![b]
    }
}

/// The escaped contents of a JSON string.
pub open spec fn json_escape(s: Seq<u8>) -> Seq<u8>
    decreases s.len(),
{
    if s.len() == 0 {
        seq![]
    } else {
        json_escape(s.drop_last()) + json_escape_byte(s.last())
    }
}

/// A JSON string literal holding the given UTF-8 bytes.
pub open spec fn json_string(s: Seq<u8>) -> Seq<u8> {
    seq![0x22u8] + json_escape(s) + seq![0x22u8]
}

/// The size of an amount, in hundredths.
pub open spec fn magnitude(c: int) -> nat {
    if c < 0 {
        (-c) as nat
    } else {
        c as nat
    }
}

/// A leading minus sign for negative amounts.
pub open spec fn sign_text(c: int) -> Seq<u8> {
    if c < 0 {
        seq![0x2du8]
    } else {
        seq![]
    }
}

/// The fractional part of an amount written with as few digits as needed
/// (none at all for whole coins).
pub open spec fn short_fraction(m: nat) -> Seq<u8> {
    let f = m % 100;
    if f == 0 {
        seq![]
    } else if f % 10 == 0 {
        seq![0x2eu8, digit_byte(f / 10)]
    } else {
        seq![0x2eu8, digit_byte(f / 10), digit_byte(f % 10)]
    }
}

/// An amount of `c` hundredths written the way Rust's `{}` writes the
/// coin value: `100`, `0.5`, `-12.25`.
pub open spec fn amount_text(c: int) -> Seq<u8> {
    sign_text(c) + decimal(magnitude(c) / 100) + short_fraction(magnitude(c))
}

/// An amount written as a JSON number the way `serde_json` writes the coin
/// value: whole amounts get a trailing `.0`.
pub open spec fn amount_json(c: int) -> Seq<u8> {
    if magnitude(c) % 100 == 0 {
        amount_text(c) + seq![0x2eu8, 0x30u8]
    } else {
        amount_text(c)
    }
}

/// An amount with exactly two decimals, as `{:.2}` writes the coin value.
pub open spec fn amount_fixed2(c: int) -> Seq<u8> {
    let m = magnitude(c);
    sign_text(c) + decimal(m / 100) + seq![0x2eu8, digit_byte((m % 100) / 10), digit_byte(m % 10)]
}

/// Appends the decimal digits of `n`.
pub fn push_decimal(out: &mut Vec<u8>, n: u64)
    ensures
        final(out)@ == old(out)@ + decimal(n as nat),
    decreases n,
{
    if n >= 10 {
        push_decimal(out, n / 10);
    }
    let d: u8 = (n % 10) as u8;
    out.push(48u8 + d);
}

/// Appends a byte string.
pub fn push_bytes(out: &mut Vec<u8>, data: &[u8])
    ensures
        final(out)@ == old(out)@ + data@,
{
    let ghost start = out@;
    let n: usize = data.len();
    let mut i: usize = 0;
    while i < n
        invariant
            n == data@.len(),
            i <= n,
            out@ == start + data@.subrange(0, i as int),
        decreases n - i,
    {
        out.push(data[i]);
        i = i + 1;
        assert(data@.subrange(0, i as int) == data@.subrange(0, i - 1).push(data@[i - 1]));
    }
    assert(data@.subrange(0, n as int) == data@);
}

/// Appends the JSON string literal for `s`.
pub fn push_json_string(out: &mut Vec<u8>, s: &str)
    ensures
        final(out)@ == old(out)@ + json_string(vstd::utf8::encode_utf8(s@)),
{
    let bytes = s.as_bytes();
    let ghost start = out@;
    let n: usize = bytes.len();
    out.push(0x22u8);
    let mut i: usize = 0;
    while i < n
        invariant
            n == bytes@.len(),
            bytes@ == vstd::utf8::encode_utf8(s@),
            i <= n,
            out@ == start + seq![0x22u8] + json_escape(bytes@.subrange(0, i as int)),
        decreases n - i,
    {
        let b = bytes[i];
        let ghost before = out@;
        if b == 0x22 {
            out.push(0x5c);
            out.push(0x22);
        } else if b == 0x5c {
            out.push(0x5c);
            out.push(0x5c);
        } else if b == 0x08 {
            out.push(0x5c);
            out.push(0x62);
        } else if b == 0x0c {
            out.push(0x5c);
            out.push(0x66);
        } else if b == 0x0a {
            out.push(0x5c);
            out.push(0x6e);
        } else if b == 0x0d {
            out.push(0x5c);
            out.push(0x72);
        } else if b == 0x09 {
            out.push(0x5c);
            out.push(0x74);
        } else if b < 0x20 {
            out.push(0x5c);
            out.push(0x75);
            out.push(0x30);
            out.push(0x30);
            out.push(hex_digit_byte(b / 16));
            out.push(hex_digit_byte(b % 16));
        } else {
            out.push(b);
        }
        assert(out@ == before + json_escape_byte(b));
        i = i + 1;
        assert(bytes@.subrange(0, i as int).drop_last() == bytes@.subrange(0, i - 1));
    }
    assert(bytes@.subrange(0, n as int) == bytes@);
    out.push(0x22u8);
}

/// The byte of a lowercase hex digit.
fn hex_digit_byte(v: u8) -> (b: u8)
    requires
        v < 16,
    ensures
        b == hex_char(v as int) as u8,
{
    if v < 10 {
        48 + v
    } else {
        87 + v
    }
}

/// The size of an amount in hundredths.
fn amount_magnitude(c: i64) -> (m: u64)
    ensures
        m == magnitude(c as int),
{
    if c < 0 {
        (0i128 - c as i128) as u64
    } else {
        c as u64
    }
}

/// Appends `amount_text(c)`.
pub fn push_amount_text(out: &mut Vec<u8>, c: i64)
    ensures
        final(out)@ == old(out)@ + amount_text(c as int),
{
    let ghost start = out@;
    if c < 0 {
        out.push(0x2d);
    }
    let m = amount_magnitude(c);
    push_decimal(out, m / 100);
    let f = m % 100;
    if f != 0 {
        out.push(0x2e);
        out.push(48u8 + (f / 10) as u8);
        if f % 10 != 0 {
            out.push(48u8 + (f % 10) as u8);
        }
    }
    assert(out@ == start + amount_text(c as int));
}

/// Appends `amount_json(c)`.
pub fn push_amount_json(out: &mut Vec<u8>, c: i64)
    ensures
        final(out)@ == old(out)@ + amount_json(c as int),
{
    push_amount_text(out, c);
    if amount_magnitude(c) % 100 == 0 {
        out.push(0x2e);
        out.push(0x30);
    }
}

/// Appends `amount_fixed2(c)`.
pub fn push_amount_fixed2(out: &mut Vec<u8>, c: i64)
    ensures
        final(out)@ == old(out)@ + amount_fixed2(c as int),
{
    let ghost start = out@;
    if c < 0 {
        out.push(0x2d);
    }
    let m = amount_magnitude(c);
    push_decimal(out, m / 100);
    out.push(0x2e);
    out.push(48u8 + ((m % 100) / 10) as u8);
    out.push(48u8 + (m % 10) as u8);
    assert(out@ == start + amount_fixed2(c as int));
}

/// Appends the characters of an ASCII byte string to a `String`.
pub fn push_ascii(s: &mut String, bytes: &[u8])
    ensures
        final(s)@ == old(s)@ + ascii_chars(bytes@),
{
    let ghost start = s@;
    let n: usize = bytes.len();
    let mut i: usize = 0;
    while i < n
        invariant
            n == bytes@.len(),
            i <= n,
            s@ == start + ascii_chars(bytes@.subrange(0, i as int)),
        decreases n - i,
    {
        crate::primitives::push_char(s, bytes[i] as char);
        i = i + 1;
        assert(ascii_chars(bytes@.subrange(0, i as int)) == ascii_chars(bytes@.subrange(0, i - 1)).push(bytes@[i - 1] as char));
    }
    assert(bytes@.subrange(0, n as int) == bytes@);
}

} // verus!

verus! {

/// The UTF-8 bytes of a character sequence.
pub open spec fn utf8(s: Seq<char>) -> Seq<u8> {
    vstd::utf8::encode_utf8(s)
}

} // verus!

verus! {

/// Each hex digit is an ASCII character whose value reads back.
pub proof fn lemma_hex_char(v: int)
    requires
        0 <= v < 16,
    ensures
        (hex_char(v) as u32) < 128,
        hex_value(hex_char(v) as u8) == Some(v),
{
    let d = seq!['0', '1', '2', '3', '4', '5', '6', '7', '8', '9', 'a', 'b', 'c', 'd', 'e', 'f'];
    assert(hex_char(v) == d[v]);
    if v < 10 {
        assert(d[v] as u32 == 48 + v) by {
            if v == 0 {} else if v == 1 {} else if v == 2 {} else if v == 3 {} else if v == 4 {}
            else if v == 5 {} else if v == 6 {} else if v == 7 {} else if v == 8 {} else {}
        }
    } else {
        assert(d[v] as u32 == 87 + v) by {
            if v == 10 {} else if v == 11 {} else if v == 12 {} else if v == 13 {} else if v == 14 {}
            else {}
        }
    }
}

/// Hexadecimal text is ASCII, two characters per byte.
pub proof fn lemma_hex_lower_ascii(b: Seq<u8>)
    ensures
        hex_lower(b).len() == 2 * b.len(),
        vstd::utf8::is_ascii_chars(hex_lower(b)),
    decreases b.len(),
{
    if b.len() > 0 {
        lemma_hex_lower_ascii(b.drop_last());
        lemma_hex_char(b.last() as int / 16);
        lemma_hex_char(b.last() as int % 16);
    }
}

/// Decoding the UTF-8 bytes of `hex::encode`'s output gives back the input.
pub proof fn lemma_hex_roundtrip(b: Seq<u8>)
    ensures
        hex_decoded(utf8(hex_lower(b))) == Some(b),
    decreases b.len(),
{
    lemma_hex_lower_ascii(b);
    let c = hex_lower(b);
    vstd::utf8::is_ascii_chars_encode_utf8(c);
    let u = utf8(c);
    if b.len() == 0 {
        assert(u.len() == 0);
    } else {
        let p = b.drop_last();
        lemma_hex_roundtrip(p);
        lemma_hex_lower_ascii(p);
        vstd::utf8::is_ascii_chars_encode_utf8(hex_lower(p));
        let n = u.len();
        assert(u.subrange(0, n - 2) =~= utf8(hex_lower(p)));
        let hi = b.last() as int / 16;
        let lo = b.last() as int % 16;
        lemma_hex_char(hi);
        lemma_hex_char(lo);
        assert(u[n - 2] == hex_char(hi) as u8);
        assert(u[n - 1] == hex_char(lo) as u8);
        assert(p.push((hi * 16 + lo) as u8) =~= b);
    }
}

} // verus!

verus! {

/// The UTF-8 form of hexadecimal text has one byte per character.
pub proof fn lemma_hex_utf8_len(b: Seq<u8>)
    ensures
        utf8(hex_lower(b)).len() == 2 * b.len(),
{
    lemma_hex_lower_ascii(b);
    vstd::utf8::is_ascii_chars_encode_utf8(hex_lower(b));
}

} // verus!
