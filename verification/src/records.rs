//! Encoding shared records without putting paths or names into shell syntax:
//! a value travels as the lowercase hex of its UTF-8 bytes, and the empty
//! value as `-`.

use vstd::prelude::*;
use vstd::utf8::*;
use crate::strings::{chars_of, push_char};

verus! {

broadcast use vstd::string::group_string_axioms;

/// The lowercase hex digit for `d < 16`.
pub open spec fn hex_char(d: nat) -> char {
    if d < 10 {
        ((d + ('0' as u32)) as u32) as char
    } else {
        ((d - 10 + ('a' as u32)) as u32) as char
    }
}

/// The two hex digits of one byte.
pub open spec fn hex_pair(b: u8) -> Seq<char> {
    seq![hex_char((b / 16) as nat), hex_char((b % 16) as nat)]
}

/// The hex digits of a byte sequence, two per byte.
pub open spec fn hex_encode(bytes: Seq<u8>) -> Seq<char>
    decreases bytes.len(),
{
    if bytes.len() == 0 {
        Seq::empty()
    } else {
        hex_encode(bytes.drop_last()) + hex_pair(bytes.last())
    }
}

/// The record form of `value`: `-` when empty, otherwise the hex of its
/// UTF-8 encoding.
pub open spec fn encoded(value: Seq<char>) -> Seq<char> {
    if value.len() == 0 {
        seq!['-']
    } else {
        hex_encode(encode_utf8(value))
    }
}

/// The value of a hex digit in either case.
pub open spec fn hex_digit_value(c: char) -> Option<nat> {
    if '0' <= c <= '9' {
        Some(((c as u32) - ('0' as u32)) as nat)
    } else if 'a' <= c <= 'f' {
        Some(((c as u32) - ('a' as u32) + 10) as nat)
    } else if 'A' <= c <= 'F' {
        Some(((c as u32) - ('A' as u32) + 10) as nat)
    } else {
        None
    }
}

/// What `u8::from_str_radix` makes of a two-character text in base 16: a
/// leading `+` is a sign, so `+f` reads as 15.
pub open spec fn pair_byte(a: char, b: char) -> Option<u8> {
    if a == '+' {
        match hex_digit_value(b) {
            Some(v) => Some(v as u8),
            None => None,
        }
    } else {
        match (hex_digit_value(a), hex_digit_value(b)) {
            (Some(x), Some(y)) => Some((x * 16 + y) as u8),
            _ => None,
        }
    }
}

/// The bytes that consecutive pairs of `e` stand for, if every pair reads.
pub open spec fn hex_bytes(e: Seq<char>) -> Option<Seq<u8>>
    decreases e.len(),
{
    if e.len() < 2 {
        if e.len() == 0 {
            Some(Seq::empty())
        } else {
            None
        }
    } else {
        match (
            hex_bytes(e.drop_last().drop_last()),
            pair_byte(e[e.len() - 2], e[e.len() - 1]),
        ) {
            (Some(b), Some(x)) => Some(b.push(x)),
            _ => None,
        }
    }
}

/// What a record field decodes to: `-` is the empty value; otherwise an
/// even number of ASCII characters that read as hex pairs forming valid UTF-8.
pub open spec fn decoded(e: Seq<char>) -> Option<Seq<char>> {
    if e == seq!['-'] {
        Some(Seq::empty())
    } else if e.len() == 0 || !is_ascii_chars(e) || e.len() % 2 != 0 {
        None
    } else {
        match hex_bytes(e) {
            Some(b) => if valid_utf8(b) {
                Some(decode_utf8(b))
            } else {
                None
            },
            None => None,
        }
    }
}

/// `String::from_utf8`, keeping only the success case.
#[verifier::external_body]
fn string_from_utf8(bytes: Vec<u8>) -> (r: Option<String>)
    ensures
        r is Some <==> valid_utf8(bytes@),
        r matches Some(s) ==> encode_utf8(s@) == bytes@,
{
    String::from_utf8(bytes).ok()
}

fn hex_digit(d: u8) -> (c: char)
    requires
        d < 16,
    ensures
        c == hex_char(d as nat),
{
    if d < 10 {
        let v: u32 = (d as u32) + ('0' as u32);
        proof {
            assert(v <= 0x7F);
        }
        char_from_ascii(v)
    } else {
        let v: u32 = (d as u32) - 10 + ('a' as u32);
        proof {
            assert(v <= 0x7F);
        }
        char_from_ascii(v)
    }
}

fn char_from_ascii(v: u32) -> (c: char)
    requires
        v <= 0x7F,
    ensures
        c == v as char,
{
    (v as u8) as char
}

/// Encode a value for a record field.
pub fn encode(value: &str) -> (r: String)
    ensures
        r@ == encoded(value@),
{
    if value.is_empty() {
        let mut r = String::new();
        push_char(&mut r, '-');
        return r;
    }
    let bytes = value.as_bytes();
    let mut r = String::new();
    let mut i: usize = 0;
    while i < bytes.len()
        invariant
            i <= bytes.len(),
            bytes@ == encode_utf8(value@),
            r@ == hex_encode(bytes@.take(i as int)),
        decreases bytes.len() - i,
    {
        let b = bytes[i];
        push_char(&mut r, hex_digit(b / 16));
        push_char(&mut r, hex_digit(b % 16));
        assert(bytes@.take(i + 1).drop_last() == bytes@.take(i as int));
        assert(r@ == hex_encode(bytes@.take(i as int)) + hex_pair(b));
        i = i + 1;
    }
    assert(bytes@.take(bytes.len() as int) == bytes@);
    r
}

fn hex_value(c: char) -> (r: Option<u8>)
    ensures
        match hex_digit_value(c) {
            Some(v) => r == Some(v as u8) && v < 16,
            None => r is None,
        },
{
    if '0' <= c && c <= '9' {
        Some(((c as u32) - ('0' as u32)) as u8)
    } else if 'a' <= c && c <= 'f' {
        Some(((c as u32) - ('a' as u32) + 10) as u8)
    } else if 'A' <= c && c <= 'F' {
        Some(((c as u32) - ('A' as u32) + 10) as u8)
    } else {
        None
    }
}

/// `u8::from_str_radix` on a two-character text, base 16.
fn parse_pair(a: char, b: char) -> (r: Option<u8>)
    ensures
        r == pair_byte(a, b),
{
    if a == '+' {
        return hex_value(b);
    }
    match (hex_value(a), hex_value(b)) {
        (Some(x), Some(y)) => Some(x * 16 + y),
        _ => None,
    }
}

/// A prefix of an even length reads whenever the whole text does.
proof fn lemma_hex_bytes_prefix(e: Seq<char>, k: nat)
    requires
        k <= e.len(),
        k % 2 == 0,
        e.len() % 2 == 0,
        hex_bytes(e) is Some,
    ensures
        hex_bytes(e.take(k as int)) is Some,
    decreases e.len(),
{
    if k < e.len() {
        let shorter = e.drop_last().drop_last();
        lemma_hex_bytes_prefix(shorter, k);
        assert(shorter.take(k as int) == e.take(k as int));
    } else {
        assert(e.take(k as int) == e);
    }
}

fn is_ascii_slice(cs: &[char]) -> (r: bool)
    ensures
        r == is_ascii_chars(cs@),
{
    let mut i: usize = 0;
    while i < cs.len()
        invariant
            i <= cs.len(),
            forall|j: int| 0 <= j < i ==> '\0' <= #[trigger] cs@[j] <= '\u{7f}',
        decreases cs.len() - i,
    {
        let c = cs[i];
        if (c as u32) > 0x7f {
            return false;
        }
        assert(c == cs@[i as int]);
        proof {
            crate::strings::lemma_char_range(c);
        }
        i = i + 1;
    }
    true
}

/// Decode a record field; `None` when it is not the encoding of any value.
pub fn decode(encoded_value: &str) -> (r: Option<String>)
    ensures
        match decoded(encoded_value@) {
            Some(v) => r matches Some(s) && s@ == v,
            None => r is None,
        },
{
    let e = chars_of(encoded_value);
    if e.len() == 1 && e[0] == '-' {
        assert(e@ == seq!['-']);
        return Some(String::new());
    }
    assert(e@ != seq!['-']);
    if e.len() == 0 || !is_ascii_slice(&e) || e.len() % 2 != 0 {
        return None;
    }
    let mut bytes: Vec<u8> = Vec::new();
    let mut i: usize = 0;
    while i < e.len()
        invariant
            i <= e.len(),
            i % 2 == 0,
            e.len() % 2 == 0,
            e.len() > 0,
            e@ == encoded_value@,
            e@ != seq!['-'],
            is_ascii_chars(e@),
            hex_bytes(e@.take(i as int)) == Some(bytes@),
        decreases e.len() - i,
    {
        let ghost prefix = e@.take(i + 2);
        assert(prefix.drop_last().drop_last() == e@.take(i as int));
        match parse_pair(e[i], e[i + 1]) {
            Some(x) => {
                bytes.push(x);
            },
            None => {
                proof {
                    assert(hex_bytes(prefix) is None);
                    if hex_bytes(e@) is Some {
                        lemma_hex_bytes_prefix(e@, (i + 2) as nat);
                    }
                }
                return None;
            },
        }
        i = i + 2;
    }
    assert(e@.take(e.len() as int) == e@);
    let s = string_from_utf8(bytes);
    match s {
        Some(s) => {
            proof {
                encode_utf8_decode_utf8(s@);
            }
            Some(s)
        },
        None => None,
    }
}

/// Two hex digits read back as the byte they were written for.
proof fn lemma_pair_roundtrip(b: u8)
    ensures
        pair_byte(hex_pair(b)[0], hex_pair(b)[1]) == Some(b),
        hex_pair(b)[0] <= '\u{7f}',
        hex_pair(b)[1] <= '\u{7f}',
        hex_pair(b)[0] != '+',
        hex_pair(b)[0] != '-',
{
    let hi = (b / 16) as nat;
    let lo = (b % 16) as nat;
    assert(hi < 16 && lo < 16);
    assert(hi * 16 + lo == b) by (nonlinear_arith)
        requires
            hi == (b / 16) as nat,
            lo == (b % 16) as nat,
    ;
}

/// Facts about the hex text of a byte sequence.
proof fn lemma_hex_encode_reads(bytes: Seq<u8>)
    ensures
        hex_encode(bytes).len() == 2 * bytes.len(),
        hex_bytes(hex_encode(bytes)) == Some(bytes),
        is_ascii_chars(hex_encode(bytes)),
        bytes.len() > 0 ==> hex_encode(bytes)[0] != '-',
    decreases bytes.len(),
{
    if bytes.len() > 0 {
        let rest = bytes.drop_last();
        lemma_hex_encode_reads(rest);
        lemma_pair_roundtrip(bytes.last());
        let e = hex_encode(bytes);
        assert(e == hex_encode(rest) + hex_pair(bytes.last()));
        assert(e.drop_last().drop_last() == hex_encode(rest));
        assert(e[e.len() - 2] == hex_pair(bytes.last())[0]);
        assert(e[e.len() - 1] == hex_pair(bytes.last())[1]);
        assert(rest.push(bytes.last()) == bytes);
        assert forall|i: int| 0 <= i < e.len() implies '\0' <= #[trigger] e[i] <= '\u{7f}' by {
            if i < e.len() - 2 {
                assert(e[i] == hex_encode(rest)[i]);
            }
        }
        if rest.len() > 0 {
            assert(e[0] == hex_encode(rest)[0]);
        }
    }
}

/// Decoding gives back exactly what was encoded, for every value.
pub proof fn lemma_decode_encode_roundtrip(value: Seq<char>)
    ensures
        decoded(encoded(value)) == Some(value),
{
    if value.len() > 0 {
        let bytes = encode_utf8(value);
        encode_utf8_valid_utf8(value);
        encode_utf8_decode_utf8(value);
        encode_utf8_first_scalar(value);
        lemma_hex_encode_reads(bytes);
        assert(encoded(value) != seq!['-']);
    }
}

/// A character that can occur in an encoded field: `-` or a lowercase hex
/// digit.
pub open spec fn is_field_char(c: char) -> bool {
    c == '-' || ('0' <= c <= '9') || ('a' <= c <= 'f')
}

/// The hex text of a byte sequence holds only lowercase hex digits.
proof fn lemma_hex_encode_chars(bytes: Seq<u8>)
    ensures
        forall|i: int| 0 <= i < hex_encode(bytes).len() ==> is_field_char(#[trigger] hex_encode(bytes)[i]),
    decreases bytes.len(),
{
    if bytes.len() > 0 {
        let rest = bytes.drop_last();
        lemma_hex_encode_chars(rest);
        lemma_hex_encode_reads(rest);
        let e = hex_encode(bytes);
        let b = bytes.last();
        assert(e == hex_encode(rest) + hex_pair(b));
        assert forall|i: int| 0 <= i < e.len() implies is_field_char(#[trigger] e[i]) by {
            if i < hex_encode(rest).len() {
                assert(e[i] == hex_encode(rest)[i]);
            } else {
                let d = if i == hex_encode(rest).len() {
                    (b / 16) as nat
                } else {
                    (b % 16) as nat
                };
                assert(e[i] == hex_char(d));
            }
        }
    }
}

/// An encoded field holds only `-` and lowercase hex digits, so never a
/// space or a line break.
pub proof fn lemma_encoded_chars(value: Seq<char>)
    ensures
        forall|i: int| 0 <= i < encoded(value).len() ==> is_field_char(#[trigger] encoded(value)[i]),
        encoded(value).len() > 0,
        value.len() > 0 ==> encoded(value)[0] != '-',
{
    if value.len() > 0 {
        lemma_hex_encode_chars(encode_utf8(value));
        lemma_hex_encode_reads(encode_utf8(value));
        encode_utf8_first_scalar(value);
    }
}

} // verus!
