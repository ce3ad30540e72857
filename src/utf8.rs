//! Decoding of UTF-8, one character at a time, with the reason of each failure.

use vstd::prelude::*;

verus! {

/// Why a byte sequence is not valid UTF-8.
#[derive(Debug, Clone, Copy, PartialEq, Eq, Structural)]
pub enum Utf8Error {
    /// The first byte cannot start a sequence.
    InvalidLeading,
    /// The input ended inside a sequence.
    ExpectedMore,
    /// The sequence encodes its value with more bytes than needed.
    Overlong,
    /// A byte after the first one is not a continuation byte.
    InvalidTrailing,
    /// The decoded value is not a unicode scalar value.
    InvalidCode,
}

/// Outcome of decoding one character from the front of a byte sequence.
#[derive(Debug, Clone, Copy, PartialEq, Eq, Structural)]
pub enum Utf8Step {
    /// There are no bytes left.
    End,
    /// A character, and how many bytes it took.
    Char(char, usize),
    /// An error, and how many bytes were consumed while finding it.
    Error(Utf8Error, usize),
}

/// Length of the sequence announced by a leading byte, 0 if it announces none.
pub open spec fn lead_len(b: u8) -> nat {
    if b < 0x80 {
        1
    } else if b < 0xC0 {
        0
    } else if b < 0xE0 {
        2
    } else if b < 0xF0 {
        3
    } else if b < 0xF8 {
        4
    } else {
        0
    }
}

/// The value bits carried by a leading byte of a sequence of `len` bytes.
pub open spec fn lead_bits(b: u8, len: nat) -> int {
    if len == 1 {
        b as int
    } else if len == 2 {
        b as int % 32
    } else if len == 3 {
        b as int % 16
    } else {
        b as int % 8
    }
}

pub open spec fn is_continuation(b: u8) -> bool {
    0x80 <= b < 0xC0
}

/// Whether `v` is a unicode scalar value.
pub open spec fn is_scalar(v: int) -> bool {
    (0 <= v < 0xD800) || (0xE000 <= v <= 0x10FFFF)
}

/// A sequence whose second byte is below the least one allowed after its lead.
pub open spec fn is_overlong(b0: u8, b1: u8) -> bool {
    b0 == 0xC0 || b0 == 0xC1 || (b0 == 0xE0 && b1 < 0xA0) || (b0 == 0xF0 && b1 < 0x90)
}

/// The value assembled from the first `n` bytes of a sequence of `len` bytes.
pub open spec fn assemble(bs: Seq<u8>, len: nat, n: nat) -> int
    decreases n,
{
    if n <= 1 {
        lead_bits(bs[0], len)
    } else {
        assemble(bs, len, (n - 1) as nat) * 64 + bs[n - 1] as int % 64
    }
}

/// Decoding of the first character of `bs`.
pub open spec fn decode_step(bs: Seq<u8>) -> Utf8Step {
    if bs.len() == 0 {
        Utf8Step::End
    } else {
        let len = lead_len(bs[0]);
        if len == 0 {
            Utf8Step::Error(Utf8Error::InvalidLeading, 1)
        } else if len == 1 {
            Utf8Step::Char(bs[0] as char, 1)
        } else if bs.len() < len {
            Utf8Step::Error(Utf8Error::ExpectedMore, bs.len() as usize)
        } else if is_overlong(bs[0], bs[1]) {
            Utf8Step::Error(Utf8Error::Overlong, len as usize)
        } else if exists|i: int| 1 <= i < len && !is_continuation(#[trigger] bs[i]) {
            Utf8Step::Error(Utf8Error::InvalidTrailing, len as usize)
        } else if !is_scalar(assemble(bs, len, len)) {
            Utf8Step::Error(Utf8Error::InvalidCode, len as usize)
        } else {
            Utf8Step::Char(char_of(assemble(bs, len, len)), len as usize)
        }
    }
}

/// The character with the given scalar value.
pub open spec fn char_of(v: int) -> char {
    choose|c: char| #[trigger] scalar_of(c) == v
}

/// The scalar value of `c`.
pub open spec fn scalar_of(c: char) -> int {
    c as int
}

/// Number of bytes that UTF-8 uses for `c`.
pub open spec fn utf8_width(c: char) -> nat {
    if (c as u32) < 0x80 {
        1
    } else if (c as u32) < 0x800 {
        2
    } else if (c as u32) < 0x10000 {
        3
    } else {
        4
    }
}

/// Number of bytes that UTF-8 uses for `c`.
pub fn char_width(c: char) -> (r: usize)
    ensures
        r == utf8_width(c),
        1 <= r <= 4,
{
    let v = c as u32;
    if v < 0x80 {
        1
    } else if v < 0x800 {
        2
    } else if v < 0x10000 {
        3
    } else {
        4
    }
}

/// Decoding the UTF-8 encoding of a character, whatever bytes follow it,
/// gives back that character and the length of its encoding.
pub proof fn lemma_decode_encoded(c: char, rest: Seq<u8>)
    ensures
        decode_step(vstd::utf8::encode_scalar(c as u32) + rest) == Utf8Step::Char(c, utf8_width(c) as usize),
{
    let v = c as u32;
    vstd::utf8::char_is_scalar(c);
    let e = vstd::utf8::encode_scalar(v);
    let bs = e + rest;
    reveal_with_fuel(assemble, 5);
    if v <= 0x7F {
        let b0 = vstd::utf8::leading_byte_width_1(v);
        assert(b0 == v as u8 && (b0 as u32) == v) by (bit_vector)
            requires
                b0 == (v & 0x7F) as u8,
                v <= 0x7F,
        ;
        assert(bs[0] == b0);
        assert(b0 as char == c);
    } else if v <= 0x7FF {
        let b0 = vstd::utf8::leading_byte_width_2(v);
        let b1 = vstd::utf8::last_continuation_byte(v);
        assert(0xC2 <= b0 < 0xE0 && 0x80 <= b1 < 0xC0 && ((b0 as u32) % 32) * 64 + (b1 as u32) % 64 == v)
            by (bit_vector)
            requires
                b0 == 0xC0 | ((v >> 6) & 0x1F) as u8,
                b1 == 0x80 | (v & 0x3F) as u8,
                0x80 <= v <= 0x7FF,
        ;
        assert(bs[0] == b0 && bs[1] == b1);
        assert(!exists|i: int| 1 <= i < 2 && !is_continuation(#[trigger] bs[i]));
        assert(assemble(bs, 2, 2) == v as int);
        assert(scalar_of(c) == v as int);
    } else if v <= 0xFFFF {
        let b0 = vstd::utf8::leading_byte_width_3(v);
        let b1 = vstd::utf8::second_last_continuation_byte(v);
        let b2 = vstd::utf8::last_continuation_byte(v);
        assert(0xE0 <= b0 < 0xF0 && 0x80 <= b1 < 0xC0 && 0x80 <= b2 < 0xC0 && (b0 == 0xE0 ==> b1 >= 0xA0) && ((
        (b0 as u32) % 16) * 64 + (b1 as u32) % 64) * 64 + (b2 as u32) % 64 == v) by (bit_vector)
            requires
                b0 == 0xE0 | ((v >> 12) & 0x0F) as u8,
                b1 == 0x80 | ((v >> 6) & 0x3F) as u8,
                b2 == 0x80 | (v & 0x3F) as u8,
                0x800 <= v <= 0xFFFF,
        ;
        assert(bs[0] == b0 && bs[1] == b1 && bs[2] == b2);
        assert(!exists|i: int| 1 <= i < 3 && !is_continuation(#[trigger] bs[i]));
        assert(assemble(bs, 3, 3) == v as int);
        assert(scalar_of(c) == v as int);
    } else {
        let b0 = vstd::utf8::leading_byte_width_4(v);
        let b1 = vstd::utf8::third_last_continuation_byte(v);
        let b2 = vstd::utf8::second_last_continuation_byte(v);
        let b3 = vstd::utf8::last_continuation_byte(v);
        assert(0xF0 <= b0 < 0xF8 && 0x80 <= b1 < 0xC0 && 0x80 <= b2 < 0xC0 && 0x80 <= b3 < 0xC0 && (b0 == 0xF0
            ==> b1 >= 0x90) && ((((b0 as u32) % 8) * 64 + (b1 as u32) % 64) * 64 + (b2 as u32) % 64) * 64 + (
        b3 as u32) % 64 == v) by (bit_vector)
            requires
                b0 == 0xF0 | ((v >> 18) & 0x07) as u8,
                b1 == 0x80 | ((v >> 12) & 0x3F) as u8,
                b2 == 0x80 | ((v >> 6) & 0x3F) as u8,
                b3 == 0x80 | (v & 0x3F) as u8,
                0x10000 <= v <= 0x10FFFF,
        ;
        assert(bs[0] == b0 && bs[1] == b1 && bs[2] == b2 && bs[3] == b3);
        assert(!exists|i: int| 1 <= i < 4 && !is_continuation(#[trigger] bs[i]));
        assert(assemble(bs, 4, 4) == v as int);
        assert(scalar_of(c) == v as int);
    }
}

/// Each kind of malformed sequence gives its own error: a continuation byte
/// in the lead, a sequence cut short, an overlong form, and a byte that does
/// not continue the sequence.
pub proof fn lemma_decode_malformed(bs: Seq<u8>)
    requires
        bs.len() > 0,
    ensures
        is_continuation(bs[0]) ==> decode_step(bs) == Utf8Step::Error(Utf8Error::InvalidLeading, 1),
        lead_len(bs[0]) >= 2 && bs.len() < lead_len(bs[0]) ==> decode_step(bs) == Utf8Step::Error(
            Utf8Error::ExpectedMore,
            bs.len() as usize,
        ),
        lead_len(bs[0]) >= 2 && bs.len() >= lead_len(bs[0]) && is_overlong(bs[0], bs[1]) ==> decode_step(bs)
            == Utf8Step::Error(Utf8Error::Overlong, lead_len(bs[0]) as usize),
        lead_len(bs[0]) >= 2 && bs.len() >= lead_len(bs[0]) && !is_overlong(bs[0], bs[1]) && (exists|i: int|
            1 <= i < lead_len(bs[0]) && !is_continuation(#[trigger] bs[i])) ==> decode_step(bs) == Utf8Step::Error(
            Utf8Error::InvalidTrailing,
            lead_len(bs[0]) as usize,
        ),
{
}

/// Relies on `char::from_u32`: `Some` exactly for a unicode scalar value, the
/// character with that value.
#[verifier::external_body]
fn char_from_u32(v: u32) -> (r: Option<char>)
    ensures
        r is Some <==> is_scalar(v as int),
        r matches Some(c) ==> c as int == v as int,
{
    char::from_u32(v)
}

/// Decodes the character at the front of `bytes[start..]`.
pub fn decode_utf8(bytes: &[u8], start: usize) -> (r: Utf8Step)
    requires
        start <= bytes@.len(),
    ensures
        r == decode_step(bytes@.subrange(start as int, bytes@.len() as int)),
        r matches Utf8Step::Char(_, n) ==> 1 <= n && start + n <= bytes@.len(),
        r matches Utf8Step::Error(_, n) ==> 1 <= n && start + n <= bytes@.len(),
{
    let ghost bs = bytes@.subrange(start as int, bytes@.len() as int);
    if start == bytes.len() {
        return Utf8Step::End;
    }
    let b0 = bytes[start];
    let len: usize = if b0 < 0x80 {
        1
    } else if b0 < 0xC0 {
        0
    } else if b0 < 0xE0 {
        2
    } else if b0 < 0xF0 {
        3
    } else if b0 < 0xF8 {
        4
    } else {
        0
    };
    assert(bs[0] == b0);
    if len == 0 {
        return Utf8Step::Error(Utf8Error::InvalidLeading, 1);
    }
    if len == 1 {
        return Utf8Step::Char(b0 as char, 1);
    }
    let avail = bytes.len() - start;
    if avail < len {
        return Utf8Step::Error(Utf8Error::ExpectedMore, avail);
    }
    let b1 = bytes[start + 1];
    assert(bs[1] == b1);
    if b0 == 0xC0 || b0 == 0xC1 || (b0 == 0xE0 && b1 < 0xA0) || (b0 == 0xF0 && b1 < 0x90) {
        return Utf8Step::Error(Utf8Error::Overlong, len);
    }
    let mut res: u32 = if len == 2 {
        (b0 % 32) as u32
    } else if len == 3 {
        (b0 % 16) as u32
    } else {
        (b0 % 8) as u32
    };
    let mut i: usize = 1;
    proof {
        reveal_with_fuel(pow64, 2);
        assert(bs.len() >= len);
        assert(!is_overlong(bs[0], bs[1]));
    }
    while i < len
        invariant
            2 <= len <= 4,
            len == lead_len(b0),
            1 <= i <= len,
            start + len <= bytes.len(),
            bs.len() >= len,
            !is_overlong(bs[0], bs[1]),
            bs == bytes@.subrange(start as int, bytes@.len() as int),
            bs[0] == b0,
            forall|j: int| 1 <= j < i ==> is_continuation(#[trigger] bs[j]),
            res as int == assemble(bs, len as nat, i as nat),
            res < pow64(i as nat) * 32,
        decreases len - i,
    {
        let b = bytes[start + i];
        assert(bs[i as int] == b);
        if b < 0x80 || b >= 0xC0 {
            assert(!is_continuation(bs[i as int]));
            assert(exists|j: int| 1 <= j < len && !is_continuation(#[trigger] bs[j]));
            return Utf8Step::Error(Utf8Error::InvalidTrailing, len);
        }
        proof {
            lemma_pow64_step(i as nat);
        }
        assert(res * 64 + ((b % 64) as u32) < pow64((i + 1) as nat) * 32) by (nonlinear_arith)
            requires
                res < pow64(i as nat) * 32,
                pow64((i + 1) as nat) == pow64(i as nat) * 64,
                b % 64 < 64,
        ;
        res = res * 64 + (b % 64) as u32;
        i = i + 1;
    }
    assert(!exists|j: int| 1 <= j < len && !is_continuation(#[trigger] bs[j]));
    match char_from_u32(res) {
        Some(c) => {
            proof {
                assert(scalar_of(c) == assemble(bs, len as nat, len as nat));
            }
            Utf8Step::Char(c, len)
        },
        None => Utf8Step::Error(Utf8Error::InvalidCode, len),
    }
}

pub open spec fn pow64(n: nat) -> int
    decreases n,
{
    if n == 0 {
        1
    } else {
        64 * pow64((n - 1) as nat)
    }
}

proof fn lemma_pow64_step(n: nat)
    requires
        n <= 3,
    ensures
        pow64(n + 1) == pow64(n) * 64,
        pow64(n + 1) * 32 <= 0x20000000,
{
    reveal_with_fuel(pow64, 5);
}

} // verus!
