//! Lower-case hexadecimal text of byte strings, and its inverse.
use vstd::prelude::*;
use crate::text::push_char;

verus! {

/// The lower-case hex digit for a value below sixteen.
pub open spec fn hex_digit(d: int) -> char {
    if d == 0 { '0' } else if d == 1 { '1' } else if d == 2 { '2' } else if d == 3 { '3' }
    else if d == 4 { '4' } else if d == 5 { '5' } else if d == 6 { '6' } else if d == 7 { '7' }
    else if d == 8 { '8' } else if d == 9 { '9' } else if d == 10 { 'a' } else if d == 11 { 'b' }
    else if d == 12 { 'c' } else if d == 13 { 'd' } else if d == 14 { 'e' } else { 'f' }
}

/// Two lower-case hex digits per byte, high nibble first.
pub open spec fn hex_encode(b: Seq<u8>) -> Seq<char> {
    Seq::new(
        2 * b.len(),
        |k: int| if k % 2 == 0 { hex_digit((b[k / 2] / 16) as int) } else { hex_digit((b[k / 2] % 16) as int) },
    )
}

/// The value of an ASCII hex digit byte (either case).
pub open spec fn nibble(c: u8) -> Option<int> {
    if 0x30 <= c && c <= 0x39 {
        Some(c - 0x30)
    } else if 0x41 <= c && c <= 0x46 {
        Some(c - 0x41 + 10)
    } else if 0x61 <= c && c <= 0x66 {
        Some(c - 0x61 + 10)
    } else {
        None
    }
}

/// Bytes written as hex digit pairs: `None` on an odd length or a byte that
/// is no hex digit.
pub open spec fn hex_decode(t: Seq<u8>) -> Option<Seq<u8>> {
    if t.len() % 2 == 0 && forall|i: int| 0 <= i < t.len() ==> (#[trigger] nibble(t[i])) is Some {
        Some(
            Seq::new(
                t.len() / 2,
                |i: int| (nibble(t[2 * i])->Some_0 * 16 + nibble(t[2 * i + 1])->Some_0) as u8,
            ),
        )
    } else {
        None
    }
}

fn hex_digit_exec(d: u8) -> (c: char)
    requires
        d < 16,
    ensures
        c == hex_digit(d as int),
{
    if d == 0 { '0' } else if d == 1 { '1' } else if d == 2 { '2' } else if d == 3 { '3' }
    else if d == 4 { '4' } else if d == 5 { '5' } else if d == 6 { '6' } else if d == 7 { '7' }
    else if d == 8 { '8' } else if d == 9 { '9' } else if d == 10 { 'a' } else if d == 11 { 'b' }
    else if d == 12 { 'c' } else if d == 13 { 'd' } else if d == 14 { 'e' } else { 'f' }
}

/// Lower-case hex text of `bytes`.
pub fn hex_encode_exec(bytes: &[u8]) -> (s: String)
    ensures
        s@ == hex_encode(bytes@),
{
    let mut s = String::new();
    let mut i: usize = 0;
    while i < bytes.len()
        invariant
            i <= bytes.len(),
            s@ == hex_encode(bytes@.subrange(0, i as int)),
        decreases bytes.len() - i,
    {
        let b = bytes[i];
        push_char(&mut s, hex_digit_exec(b / 16));
        push_char(&mut s, hex_digit_exec(b % 16));
        i = i + 1;
        assert(s@ =~= hex_encode(bytes@.subrange(0, i as int)));
    }
    assert(bytes@.subrange(0, bytes.len() as int) =~= bytes@);
    s
}

fn nibble_exec(c: u8) -> (r: Option<u8>)
    ensures
        match r {
            Some(v) => nibble(c) == Some(v as int) && v < 16,
            None => nibble(c) is None,
        },
{
    if 0x30 <= c && c <= 0x39 {
        Some(c - 0x30)
    } else if 0x41 <= c && c <= 0x46 {
        Some(c - 0x41 + 10)
    } else if 0x61 <= c && c <= 0x66 {
        Some(c - 0x61 + 10)
    } else {
        None
    }
}

/// Decodes hex text (either case); `None` on odd length or a non-hex byte.
pub fn hex_decode_exec(text: &str) -> (r: Option<Vec<u8>>)
    ensures
        match r {
            Some(v) => hex_decode(vstd::utf8::encode_utf8(text@)) == Some(v@),
            None => hex_decode(vstd::utf8::encode_utf8(text@)) is None,
        },
{
    let t = text.as_bytes();
    let ghost tb = vstd::utf8::encode_utf8(text@);
    if t.len() % 2 != 0 {
        return None;
    }
    let mut out: Vec<u8> = Vec::new();
    let mut i: usize = 0;
    while i < t.len() / 2
        invariant
            t@ == tb,
            tb == vstd::utf8::encode_utf8(text@),
            t.len() % 2 == 0,
            i <= t.len() / 2,
            forall|k: int| 0 <= k < 2 * i ==> (#[trigger] nibble(tb[k])) is Some,
            out@.len() == i,
            forall|k: int|
                0 <= k < i ==> #[trigger] out@[k] == (nibble(tb[2 * k])->Some_0 * 16 + nibble(
                    tb[2 * k + 1],
                )->Some_0) as u8,
        decreases t.len() / 2 - i,
    {
        let hi = nibble_exec(t[2 * i]);
        let lo = nibble_exec(t[2 * i + 1]);
        match (hi, lo) {
            (Some(h), Some(l)) => {
                out.push(h * 16 + l);
                proof {
                    assert forall|k: int| 0 <= k < 2 * (i + 1) implies (#[trigger] nibble(
                        tb[k],
                    )) is Some by {
                        if k >= 2 * i {
                            assert(k == 2 * i || k == 2 * i + 1);
                        }
                    }
                }
                i = i + 1;
            },
            _ => {
                proof {
                    if hi is None {
                        assert(nibble(tb[2 * i as int]) is None);
                    } else {
                        assert(nibble(tb[2 * i + 1]) is None);
                    }
                }
                return None;
            },
        }
    }
    assert(out@ =~= hex_decode(tb)->Some_0);
    Some(out)
}

/// Law: decoding the hex text of a byte string gives the byte string back.
pub proof fn lemma_hex_roundtrip(b: Seq<u8>)
    ensures
        hex_decode(vstd::utf8::encode_utf8(hex_encode(b))) == Some(b),
{
    let h = hex_encode(b);
    assert forall|k: int| 0 <= k < h.len() implies '\0' <= #[trigger] h[k] <= '\u{7f}' by {}
    assert(vstd::utf8::is_ascii_chars(h));
    vstd::utf8::is_ascii_chars_encode_utf8(h);
    let t = vstd::utf8::encode_utf8(h);
    assert forall|k: int| 0 <= k < t.len() implies nibble(#[trigger] t[k]) == Some(
        (if k % 2 == 0 { b[k / 2] / 16 } else { b[k / 2] % 16 }) as int,
    ) by {
        assert(h[k] as u8 == t[k]);
    }
    assert(t.len() % 2 == 0);
    assert forall|i: int| 0 <= i < t.len() implies (#[trigger] nibble(t[i])) is Some by {}
    let d = hex_decode(t)->Some_0;
    assert forall|i: int| 0 <= i < b.len() implies d[i] == b[i] by {
        assert(nibble(t[2 * i]) == Some((b[i] / 16) as int));
        assert(nibble(t[2 * i + 1]) == Some((b[i] % 16) as int));
    }
    assert(d =~= b);
}

} // verus!
