//! Decoding single values from a reader: integers, booleans, characters, strings, numbers.

use vstd::prelude::*;

use crate::err::ArgError;
use crate::fmt::{ReadFmt, TrimSide};
use crate::integer::{int_error, number_prefix, read_integer};
use crate::reader::{trim_run, Reader};
use crate::text::{decimal, owned, push_char, push_decimal, push_str};

verus! {

/// An IPv4 address, by its four octets.
#[derive(Debug, Clone, Copy, PartialEq, Eq, Structural)]
pub struct Ipv4 {
    pub a: u8,
    pub b: u8,
    pub c: u8,
    pub d: u8,
}

/// An IPv4 socket address: an address and a port.
#[derive(Debug, Clone, Copy, PartialEq, Eq, Structural)]
pub struct SocketV4 {
    pub ip: Ipv4,
    pub port: u16,
}

/// A decimal floating point number as it was written: its sign, the digits
/// before and after the dot (without redundant leading zeros of the integer
/// part), and the exponent.
#[derive(Debug, Clone)]
pub struct FloatText {
    pub negative: bool,
    pub int_digits: String,
    pub frac_digits: String,
    pub exp: i32,
}

/// Whether the format has no trimming and no length bounds.
pub open spec fn is_plain(fmt: &ReadFmt) -> bool {
    fmt.parsed().trim_side is None && fmt.parsed().length_range is None
}

/// The radix a format asks for.
pub open spec fn radix_of(fmt: &ReadFmt) -> u32 {
    match fmt.parsed().base {
        Some(b) => b,
        None => 10,
    }
}

/// The outcome of decoding an integer in `min..=max` from the text `s` with a
/// plain format in base `radix`: the value, and the characters it takes.
pub open spec fn int_outcome(s: Seq<char>, radix: u32, min: int, max: int) -> Option<(int, nat)> {
    match number_prefix(s, radix, min < 0) {
        Some((v, n)) => if min <= v <= max {
            Some((v, n))
        } else {
            None
        },
        None => None,
    }
}

/// A decimal number within the range decodes to exactly its value and
/// takes all its digits; one outside the range, as one past the greatest
/// or one before the least value, is rejected. A `-` before the digits
/// negates the value when the range has negative values.
pub proof fn lemma_decimal_exact(digits: Seq<char>, min: int, max: int)
    requires
        digits.len() > 0,
        forall|i: int| 0 <= i < digits.len() ==> '0' <= #[trigger] digits[i] <= '9',
        min <= 0 <= max,
    ensures
        ({
            let v = crate::integer::digits_value(digits, 10);
            &&& v <= max ==> int_outcome(digits, 10, min, max) == Some((v, digits.len()))
            &&& v > max ==> int_outcome(digits, 10, min, max) is None
            &&& min < 0 && -v >= min ==> int_outcome(seq!['-'] + digits, 10, min, max) == Some((-v, digits.len() + 1))
            &&& min < 0 && -v < min ==> int_outcome(seq!['-'] + digits, 10, min, max) is None
        }),
{
    assert(crate::integer::all_digits(digits.take(digits.len() as int), 10)) by {
        assert forall|i: int| 0 <= i < digits.len() implies (#[trigger] crate::integer::digit_of(
            digits.take(digits.len() as int)[i],
            10,
        )) is Some by {
            assert(digits.take(digits.len() as int)[i] == digits[i]);
        }
    }
    crate::integer::lemma_leading_digits_at(digits, 10, digits.len());
    assert(digits.take(digits.len() as int) =~= digits);
    if digits[0] == '-' {
        assert(false);
    }
    let neg = seq!['-'] + digits;
    assert(neg.drop_first() =~= digits);
    let k = crate::integer::leading_digits(digits, 10);
    crate::integer::lemma_digits_monotonic(digits, 10, 0);
}

/// Reads an integer in `min..=max` from `r` as `fmt` says: trimming, at most
/// as many characters as the length range allows, and the base.
pub fn read_int_fmt(r: &mut Reader, fmt: &ReadFmt, min: i128, max: i128) -> (res: Result<(i128, Option<ArgError>), ArgError>)
    requires
        old(r).well_formed(),
        -(u64::MAX as int) <= min <= 0 < max <= u64::MAX,
        fmt.parsed().base matches Some(b) ==> 2 <= b <= 36,
    ensures
        final(r).well_formed(),
        old(r).keeps_source(final(r)),
        res matches Ok((v, _)) ==> min <= v <= max,
        old(r).is_text() && is_plain(fmt) ==> match int_outcome(old(r).rest(), radix_of(fmt), min as int, max as int) {
            None => (res matches Err(e) && int_error(e, old(r).rest(), radix_of(fmt), min as int, max as int)),
            Some((v, n)) => {
                &&& res matches Ok((x, t)) && x == v && (t is None <==> n == old(r).rest().len())
                &&& old(r).advanced_text(final(r), n)
            },
        },
{
    let radix = match fmt.base() {
        Some(b) => b,
        None => 10,
    };
    match fmt.length_range() {
        None => {
            if let Err(e) = r.trim_left(fmt) {
                return Err(e);
            }
            proof {
                if old(r).is_text() && is_plain(fmt) {
                    assert(old(r).rest().skip(0) =~= old(r).rest());
                }
            }
            let res = read_integer(r, radix, min, max);
            match res {
                Ok((v, t)) => {
                    if t.is_none() {
                        if let Err(e) = r.trim_right(fmt) {
                            return Err(e);
                        }
                    }
                    proof {
                        if old(r).is_text() && is_plain(fmt) {
                            assert(r.rest() =~= old(r).rest().skip((number_prefix(old(r).rest(), radix, min < 0)->0).1 as int));
                        }
                    }
                    Ok((v, t))
                },
                Err(e) => Err(e),
            }
        },
        Some((lo, hi)) => {
            if let Err(e) = r.trim_left(fmt) {
                return Err(e);
            }
            let mut buf = String::new();
            if let Err(e) = r.read_to(&mut buf, hi) {
                return Err(e);
            }
            let chars = crate::reader::chars_of(buf.as_str());
            let taken = chars.len();
            let mut sub = Reader::from_chars(chars);
            let res = read_integer(&mut sub, radix, min, max);
            let mut left = String::new();
            if let Err(e) = sub.read_all(&mut left) {
                return Err(e);
            }
            let left_chars = crate::reader::chars_of(left.as_str());
            let used = taken.saturating_sub(left_chars.len());
            r.prepend(left_chars.as_slice());
            match res {
                Ok((v, t)) => {
                    if used < lo {
                        let mut msg = owned("Expected at least `");
                        push_decimal(&mut msg, lo as u128);
                        push_str(&mut msg, "` digits.");
                        return Err(r.err_parse(msg));
                    }
                    if let Err(e) = r.trim_right(fmt) {
                        return Err(e);
                    }
                    Ok((v, t))
                },
                Err(e) => Err(r.map_err(e)),
            }
        },
    }
}

/// Reads a `u8` as `fmt` says; see [`read_int_fmt`].
pub fn read_u8(r: &mut Reader, fmt: &ReadFmt) -> (res: Result<(u8, Option<ArgError>), ArgError>)
    requires
        old(r).well_formed(),
        fmt.well_formed(),
    ensures
        final(r).well_formed(),
        old(r).keeps_source(final(r)),
        old(r).is_text() && is_plain(fmt) ==> match int_outcome(old(r).rest(), radix_of(fmt), u8::MIN as int, u8::MAX as int) {
            None => (res matches Err(e) && int_error(e, old(r).rest(), radix_of(fmt), u8::MIN as int, u8::MAX as int)),
            Some((v, n)) => {
                &&& res matches Ok((x, t)) && x as int == v && (t is None <==> n == old(r).rest().len())
                &&& old(r).advanced_text(final(r), n)
            },
        },
{
    match read_int_fmt(r, fmt, u8::MIN as i128, u8::MAX as i128) {
        Ok((v, t)) => Ok((v as u8, t)),
        Err(e) => Err(e),
    }
}

/// Reads a `u16` as `fmt` says; see [`read_int_fmt`].
pub fn read_u16(r: &mut Reader, fmt: &ReadFmt) -> (res: Result<(u16, Option<ArgError>), ArgError>)
    requires
        old(r).well_formed(),
        fmt.well_formed(),
    ensures
        final(r).well_formed(),
        old(r).keeps_source(final(r)),
        old(r).is_text() && is_plain(fmt) ==> match int_outcome(old(r).rest(), radix_of(fmt), u16::MIN as int, u16::MAX as int) {
            None => (res matches Err(e) && int_error(e, old(r).rest(), radix_of(fmt), u16::MIN as int, u16::MAX as int)),
            Some((v, n)) => {
                &&& res matches Ok((x, t)) && x as int == v && (t is None <==> n == old(r).rest().len())
                &&& old(r).advanced_text(final(r), n)
            },
        },
{
    match read_int_fmt(r, fmt, u16::MIN as i128, u16::MAX as i128) {
        Ok((v, t)) => Ok((v as u16, t)),
        Err(e) => Err(e),
    }
}

/// Reads a `u32` as `fmt` says; see [`read_int_fmt`].
pub fn read_u32(r: &mut Reader, fmt: &ReadFmt) -> (res: Result<(u32, Option<ArgError>), ArgError>)
    requires
        old(r).well_formed(),
        fmt.well_formed(),
    ensures
        final(r).well_formed(),
        old(r).keeps_source(final(r)),
        old(r).is_text() && is_plain(fmt) ==> match int_outcome(old(r).rest(), radix_of(fmt), u32::MIN as int, u32::MAX as int) {
            None => (res matches Err(e) && int_error(e, old(r).rest(), radix_of(fmt), u32::MIN as int, u32::MAX as int)),
            Some((v, n)) => {
                &&& res matches Ok((x, t)) && x as int == v && (t is None <==> n == old(r).rest().len())
                &&& old(r).advanced_text(final(r), n)
            },
        },
{
    match read_int_fmt(r, fmt, u32::MIN as i128, u32::MAX as i128) {
        Ok((v, t)) => Ok((v as u32, t)),
        Err(e) => Err(e),
    }
}

/// Reads a `u64` as `fmt` says; see [`read_int_fmt`].
pub fn read_u64(r: &mut Reader, fmt: &ReadFmt) -> (res: Result<(u64, Option<ArgError>), ArgError>)
    requires
        old(r).well_formed(),
        fmt.well_formed(),
    ensures
        final(r).well_formed(),
        old(r).keeps_source(final(r)),
        old(r).is_text() && is_plain(fmt) ==> match int_outcome(old(r).rest(), radix_of(fmt), u64::MIN as int, u64::MAX as int) {
            None => (res matches Err(e) && int_error(e, old(r).rest(), radix_of(fmt), u64::MIN as int, u64::MAX as int)),
            Some((v, n)) => {
                &&& res matches Ok((x, t)) && x as int == v && (t is None <==> n == old(r).rest().len())
                &&& old(r).advanced_text(final(r), n)
            },
        },
{
    match read_int_fmt(r, fmt, u64::MIN as i128, u64::MAX as i128) {
        Ok((v, t)) => Ok((v as u64, t)),
        Err(e) => Err(e),
    }
}

/// Reads a `usize` as `fmt` says; see [`read_int_fmt`].
pub fn read_usize(r: &mut Reader, fmt: &ReadFmt) -> (res: Result<(usize, Option<ArgError>), ArgError>)
    requires
        old(r).well_formed(),
        fmt.well_formed(),
    ensures
        final(r).well_formed(),
        old(r).keeps_source(final(r)),
        old(r).is_text() && is_plain(fmt) ==> match int_outcome(old(r).rest(), radix_of(fmt), usize::MIN as int, usize::MAX as int) {
            None => (res matches Err(e) && int_error(e, old(r).rest(), radix_of(fmt), usize::MIN as int, usize::MAX as int)),
            Some((v, n)) => {
                &&& res matches Ok((x, t)) && x as int == v && (t is None <==> n == old(r).rest().len())
                &&& old(r).advanced_text(final(r), n)
            },
        },
{
    match read_int_fmt(r, fmt, usize::MIN as i128, usize::MAX as i128) {
        Ok((v, t)) => Ok((v as usize, t)),
        Err(e) => Err(e),
    }
}

/// Reads a `i8` as `fmt` says; see [`read_int_fmt`].
pub fn read_i8(r: &mut Reader, fmt: &ReadFmt) -> (res: Result<(i8, Option<ArgError>), ArgError>)
    requires
        old(r).well_formed(),
        fmt.well_formed(),
    ensures
        final(r).well_formed(),
        old(r).keeps_source(final(r)),
        old(r).is_text() && is_plain(fmt) ==> match int_outcome(old(r).rest(), radix_of(fmt), i8::MIN as int, i8::MAX as int) {
            None => (res matches Err(e) && int_error(e, old(r).rest(), radix_of(fmt), i8::MIN as int, i8::MAX as int)),
            Some((v, n)) => {
                &&& res matches Ok((x, t)) && x as int == v && (t is None <==> n == old(r).rest().len())
                &&& old(r).advanced_text(final(r), n)
            },
        },
{
    match read_int_fmt(r, fmt, i8::MIN as i128, i8::MAX as i128) {
        Ok((v, t)) => Ok((v as i8, t)),
        Err(e) => Err(e),
    }
}

/// Reads a `i16` as `fmt` says; see [`read_int_fmt`].
pub fn read_i16(r: &mut Reader, fmt: &ReadFmt) -> (res: Result<(i16, Option<ArgError>), ArgError>)
    requires
        old(r).well_formed(),
        fmt.well_formed(),
    ensures
        final(r).well_formed(),
        old(r).keeps_source(final(r)),
        old(r).is_text() && is_plain(fmt) ==> match int_outcome(old(r).rest(), radix_of(fmt), i16::MIN as int, i16::MAX as int) {
            None => (res matches Err(e) && int_error(e, old(r).rest(), radix_of(fmt), i16::MIN as int, i16::MAX as int)),
            Some((v, n)) => {
                &&& res matches Ok((x, t)) && x as int == v && (t is None <==> n == old(r).rest().len())
                &&& old(r).advanced_text(final(r), n)
            },
        },
{
    match read_int_fmt(r, fmt, i16::MIN as i128, i16::MAX as i128) {
        Ok((v, t)) => Ok((v as i16, t)),
        Err(e) => Err(e),
    }
}

/// Reads a `i32` as `fmt` says; see [`read_int_fmt`].
pub fn read_i32(r: &mut Reader, fmt: &ReadFmt) -> (res: Result<(i32, Option<ArgError>), ArgError>)
    requires
        old(r).well_formed(),
        fmt.well_formed(),
    ensures
        final(r).well_formed(),
        old(r).keeps_source(final(r)),
        old(r).is_text() && is_plain(fmt) ==> match int_outcome(old(r).rest(), radix_of(fmt), i32::MIN as int, i32::MAX as int) {
            None => (res matches Err(e) && int_error(e, old(r).rest(), radix_of(fmt), i32::MIN as int, i32::MAX as int)),
            Some((v, n)) => {
                &&& res matches Ok((x, t)) && x as int == v && (t is None <==> n == old(r).rest().len())
                &&& old(r).advanced_text(final(r), n)
            },
        },
{
    match read_int_fmt(r, fmt, i32::MIN as i128, i32::MAX as i128) {
        Ok((v, t)) => Ok((v as i32, t)),
        Err(e) => Err(e),
    }
}

/// Reads a `i64` as `fmt` says; see [`read_int_fmt`].
pub fn read_i64(r: &mut Reader, fmt: &ReadFmt) -> (res: Result<(i64, Option<ArgError>), ArgError>)
    requires
        old(r).well_formed(),
        fmt.well_formed(),
    ensures
        final(r).well_formed(),
        old(r).keeps_source(final(r)),
        old(r).is_text() && is_plain(fmt) ==> match int_outcome(old(r).rest(), radix_of(fmt), i64::MIN as int, i64::MAX as int) {
            None => (res matches Err(e) && int_error(e, old(r).rest(), radix_of(fmt), i64::MIN as int, i64::MAX as int)),
            Some((v, n)) => {
                &&& res matches Ok((x, t)) && x as int == v && (t is None <==> n == old(r).rest().len())
                &&& old(r).advanced_text(final(r), n)
            },
        },
{
    match read_int_fmt(r, fmt, i64::MIN as i128, i64::MAX as i128) {
        Ok((v, t)) => Ok((v as i64, t)),
        Err(e) => Err(e),
    }
}

/// Reads a `isize` as `fmt` says; see [`read_int_fmt`].
pub fn read_isize(r: &mut Reader, fmt: &ReadFmt) -> (res: Result<(isize, Option<ArgError>), ArgError>)
    requires
        old(r).well_formed(),
        fmt.well_formed(),
    ensures
        final(r).well_formed(),
        old(r).keeps_source(final(r)),
        old(r).is_text() && is_plain(fmt) ==> match int_outcome(old(r).rest(), radix_of(fmt), isize::MIN as int, isize::MAX as int) {
            None => (res matches Err(e) && int_error(e, old(r).rest(), radix_of(fmt), isize::MIN as int, isize::MAX as int)),
            Some((v, n)) => {
                &&& res matches Ok((x, t)) && x as int == v && (t is None <==> n == old(r).rest().len())
                &&& old(r).advanced_text(final(r), n)
            },
        },
{
    match read_int_fmt(r, fmt, isize::MIN as i128, isize::MAX as i128) {
        Ok((v, t)) => Ok((v as isize, t)),
        Err(e) => Err(e),
    }
}

/// `true` or `false` at the start of `s`, and how many characters it takes.
pub open spec fn bool_outcome(s: Seq<char>) -> Option<(bool, nat)> {
    if s.len() >= 4 && s.take(4) == "true"@ {
        Some((true, 4))
    } else if s.len() >= 5 && s.take(5) == "false"@ {
        Some((false, 5))
    } else {
        None
    }
}

/// Reads `true` or `false`.
pub fn read_bool(r: &mut Reader) -> (res: Result<(bool, Option<ArgError>), ArgError>)
    requires
        old(r).well_formed(),
    ensures
        final(r).well_formed(),
        old(r).keeps_source(final(r)),
        old(r).is_text() ==> match bool_outcome(old(r).rest()) {
            None => res is Err,
            Some((b, n)) => (res matches Ok((x, None)) && x == b && old(r).advanced_text(final(r), n)),
        },
{
    proof {
        reveal_strlit("true");
        reveal_strlit("false");
        reveal_strlit("rue");
        reveal_strlit("alse");
    }
    let ghost s = old(r).rest();
    let c = match r.next() {
        Ok(Some(c)) => c,
        Ok(None) => return Err(r.err_parse(owned("Expected character."))),
        Err(e) => return Err(e),
    };
    let ghost mid = *r;
    if c == 't' {
        let e = r.expect("rue");
        proof {
            if old(r).is_text() {
                assert(mid.rest() =~= s.skip(1));
                if s.len() >= 5 && s.take(5) == "false"@ {
                    assert(s.take(5)[0] == 'f');
                }
                if s.len() >= 4 && s.take(4) == "true"@ {
                    assert(s[1] == s.take(4)[1] && s[2] == s.take(4)[2] && s[3] == s.take(4)[3]);
                    assert(mid.rest().take(3) =~= "rue"@);
                }
                if e is Ok {
                    assert(mid.rest().take(3) == "rue"@);
                    assert(mid.rest()[0] == 'r' && mid.rest()[1] == 'u' && mid.rest()[2] == 'e') by {
                        assert(mid.rest().take(3)[0] == mid.rest()[0]);
                        assert(mid.rest().take(3)[1] == mid.rest()[1]);
                        assert(mid.rest().take(3)[2] == mid.rest()[2]);
                    }
                    assert(s.take(4) =~= "true"@);
                    assert(r.rest() =~= s.skip(4));
                }
            }
        }
        match e {
            Ok(()) => Ok((true, None)),
            Err(e) => Err(e),
        }
    } else if c == 'f' {
        let e = r.expect("alse");
        proof {
            if old(r).is_text() {
                assert(mid.rest() =~= s.skip(1));
                if s.len() >= 5 && s.take(5) == "false"@ {
                    assert(s[1] == s.take(5)[1] && s[2] == s.take(5)[2] && s[3] == s.take(5)[3] && s[4] == s.take(5)[4]);
                    assert(mid.rest().take(4) =~= "alse"@);
                }
                if e is Ok {
                    assert(mid.rest().take(4) == "alse"@);
                    assert(mid.rest()[0] == 'a' && mid.rest()[1] == 'l' && mid.rest()[2] == 's' && mid.rest()[3] == 'e') by {
                        assert(mid.rest().take(4)[0] == mid.rest()[0]);
                        assert(mid.rest().take(4)[1] == mid.rest()[1]);
                        assert(mid.rest().take(4)[2] == mid.rest()[2]);
                        assert(mid.rest().take(4)[3] == mid.rest()[3]);
                    }
                    assert(s.take(5) =~= "false"@);
                    assert(r.rest() =~= s.skip(5));
                }
                if s.len() >= 4 && s.take(4) == "true"@ {
                    assert(s.take(4)[0] == 't');
                }
            }
        }
        match e {
            Ok(()) => Ok((false, None)),
            Err(e) => Err(e),
        }
    } else {
        proof {
            if old(r).is_text() {
                if s.len() >= 4 && s.take(4) == "true"@ {
                    assert(s.take(4)[0] == 't');
                }
                if s.len() >= 5 && s.take(5) == "false"@ {
                    assert(s.take(5)[0] == 'f');
                }
            }
        }
        let mut msg = owned("Expected `true` or `false`, but there is `");
        push_char(&mut msg, c);
        push_str(&mut msg, "`");
        Err(r.err_parse(msg))
    }
}

/// Reads one character.
pub fn read_char(r: &mut Reader) -> (res: Result<(char, Option<ArgError>), ArgError>)
    requires
        old(r).well_formed(),
    ensures
        final(r).well_formed(),
        old(r).keeps_source(final(r)),
        old(r).is_text() ==> if old(r).rest().len() > 0 {
            (res matches Ok((c, None)) && c == old(r).rest()[0] && old(r).advanced_text(final(r), 1))
        } else {
            res is Err
        },
{
    match r.next() {
        Ok(Some(c)) => Ok((c, None)),
        Ok(None) => Err(r.err_parse(owned("Expected character."))),
        Err(e) => Err(e),
    }
}

/// Reads all the remaining characters.
pub fn read_string(r: &mut Reader) -> (res: Result<(String, Option<ArgError>), ArgError>)
    requires
        old(r).well_formed(),
    ensures
        final(r).well_formed(),
        old(r).keeps_source(final(r)),
        old(r).is_text() ==> (res matches Ok((s, None)) && s@ == old(r).rest() && old(r).advanced_text(
            final(r),
            old(r).rest().len(),
        )),
{
    let mut s = String::new();
    match r.read_all(&mut s) {
        Ok(()) => {
            proof {
                if old(r).is_text() {
                    assert(s@ =~= Seq::<char>::empty() + old(r).rest());
                }
            }
            Ok((s, None))
        },
        Err(e) => Err(e),
    }
}

/// `s` without the characters that trimming with `tc` removes from its end.
pub open spec fn rtrim(s: Seq<char>, tc: Option<char>) -> Seq<char>
    decreases s.len(),
{
    if s.len() > 0 && crate::reader::is_trimmed(s.last(), tc) {
        rtrim(s.drop_last(), tc)
    } else {
        s
    }
}

/// The length bounds a format gives a string.
pub open spec fn string_bounds(fmt: &ReadFmt) -> (usize, usize) {
    match fmt.parsed().length_range {
        Some(b) => b,
        None => (0, usize::MAX),
    }
}

/// Whether the format trims on the right.
pub open spec fn trims_right(fmt: &ReadFmt) -> bool {
    match fmt.parsed().trim_side {
        Some(t) => t.spec_right(),
        None => false,
    }
}

/// The string that a bounded string slot reads from `s`: after the left trim,
/// at least `min` and at most `max` characters, of which those after the
/// first `min` lose their right trim.
pub open spec fn bounded_string(s: Seq<char>, fmt: &ReadFmt) -> Option<Seq<char>> {
    let lo = string_bounds(fmt).0;
    match bounded_take(s, fmt) {
        None => None,
        Some((v, _)) => Some(v.take(lo as int) + if trims_right(fmt) {
            rtrim(v.skip(lo as int), fmt.parsed().trim_char)
        } else {
            v.skip(lo as int)
        }),
    }
}

/// The characters of `all`, of which those after the first `lo` lose their
/// right trim when `right`.
fn trim_tail(all: &Vec<char>, lo: usize, right: bool, tc: Option<char>) -> (out: String)
    requires
        lo <= all@.len(),
    ensures
        out@ == all@.take(lo as int) + if right { rtrim(all@.skip(lo as int), tc) } else { all@.skip(lo as int) },
{
    let mut end = all.len();
    if right {
        proof {
            assert(all@.skip(lo as int) =~= all@.subrange(lo as int, end as int));
        }
        while end > lo && crate::reader::is_trim_char(all[end - 1], tc)
            invariant
                lo <= end <= all@.len(),
                rtrim(all@.skip(lo as int), tc) == rtrim(all@.subrange(lo as int, end as int), tc),
            decreases end,
        {
            proof {
                assert(all@.subrange(lo as int, end as int).drop_last() =~= all@.subrange(lo as int, end - 1));
            }
            end = end - 1;
        }
        proof {
            let t = all@.subrange(lo as int, end as int);
            if t.len() > 0 {
                assert(t.last() == all@[end - 1]);
            }
        }
    }
    let mut out = String::new();
    let mut i: usize = 0;
    while i < end
        invariant
            i <= end <= all@.len(),
            out@ == all@.subrange(0, i as int),
        decreases end - i,
    {
        push_char(&mut out, all[i]);
        i = i + 1;
    }
    proof {
        if right {
            assert(out@ =~= all@.take(lo as int) + all@.subrange(lo as int, end as int));
        } else {
            assert(out@ =~= all@.take(lo as int) + all@.skip(lo as int));
        }
    }
    out
}

/// How many characters a bounded string slot takes from `s` when it succeeds:
/// the left trim, the characters read, and the right trim after them.
pub open spec fn bounded_string_len(s: Seq<char>, fmt: &ReadFmt) -> nat {
    match bounded_take(s, fmt) {
        None => 0,
        Some((_, n)) => n + if trims_right(fmt) { trim_run(s.skip(n as int), fmt.parsed().trim_char) } else { 0 },
    }
}

/// The characters a bounded string slot reads from `s` after its left trim,
/// and how many characters the left trim and they take.
pub open spec fn bounded_take(s: Seq<char>, fmt: &ReadFmt) -> Option<(Seq<char>, nat)> {
    let side = fmt.parsed().trim_side;
    let tc = fmt.parsed().trim_char;
    let left = match side {
        Some(t) => t.spec_left(),
        None => false,
    };
    let (lo, hi) = string_bounds(fmt);
    let t0 = if left { trim_run(s, tc) } else { 0 };
    let s1 = s.skip(t0 as int);
    if s1.len() < lo {
        None
    } else {
        let k = if hi < s1.len() { hi as nat } else { s1.len() };
        Some((s1.take(k as int), t0 + k))
    }
}

/// `e` says that `s`, after its left trim, is shorter than the least length.
pub open spec fn too_short_error(e: ArgError, s: Seq<char>, fmt: &ReadFmt) -> bool {
    let left = match fmt.parsed().trim_side {
        Some(t) => t.spec_left(),
        None => false,
    };
    let t0 = if left { trim_run(s, fmt.parsed().trim_char) } else { 0 };
    let avail = s.len() - t0;
    let lo = string_bounds(fmt).0;
    &&& e.ctx().kind == crate::err::ArgErrKind::FailedToParse
    &&& e.ctx().inline_msg matches Some(m) && m@ == "Expected at least `"@ + decimal(lo as nat)
        + "` characters but there were only `"@ + decimal(avail as nat) + "` characters."@
}

/// Trims the left side and reads between the least and the greatest length.
fn read_bounded_chars(r: &mut Reader, fmt: &ReadFmt) -> (res: Result<Vec<char>, ArgError>)
    requires
        old(r).well_formed(),
        fmt.parsed().length_range matches Some((lo, hi)) ==> lo <= hi,
    ensures
        final(r).well_formed(),
        old(r).keeps_source(final(r)),
        res matches Ok(v) ==> v@.len() >= string_bounds(fmt).0,
        old(r).is_text() ==> match bounded_take(old(r).rest(), fmt) {
            None => (res matches Err(e) && too_short_error(e, old(r).rest(), fmt)),
            Some((v, n)) => (res matches Ok(x) && x@ == v) && old(r).advanced_text(final(r), n),
        },
{
    let ghost s0 = old(r).rest();
    if let Err(e) = r.trim_left(fmt) {
        return Err(e);
    }
    let ghost s1 = r.rest();
    let (lo, hi) = match fmt.length_range() {
        Some(b) => b,
        None => (0, usize::MAX),
    };
    let mut buf = String::new();
    if let Err(e) = r.read_to(&mut buf, lo) {
        return Err(e);
    }
    let head = crate::reader::chars_of(buf.as_str());
    if head.len() < lo {
        let mut msg = owned("Expected at least `");
        push_decimal(&mut msg, lo as u128);
        push_str(&mut msg, "` characters but there were only `");
        push_decimal(&mut msg, head.len() as u128);
        push_str(&mut msg, "` characters.");
        let e = r.err_parse(msg);
        proof {
            if old(r).is_text() {
                assert(head@.len() == s1.len());
                assert(s1 =~= s0.skip(s0.len() - s1.len()));
            }
        }
        return Err(e);
    }
    let ghost s2 = r.rest();
    if let Err(e) = r.read_to(&mut buf, hi - lo) {
        return Err(e);
    }
    let all = crate::reader::chars_of(buf.as_str());
    if all.len() < lo {
        return Err(r.err_parse(owned("Expected more characters.")));
    }
    proof {
        if old(r).is_text() {
            assert(head@ == s1.take(lo as int));
            assert(s2 == s1.skip(lo as int));
            let k = if hi < s1.len() { hi as int } else { s1.len() as int };
            let m = if ((hi - lo) as int) < s2.len() { (hi - lo) as int } else { s2.len() as int };
            assert(all@ =~= s1.take(k)) by {
                assert(s1.take(lo as int) + s2.take(m) =~= s1.take(k));
            }
            assert(r.rest() =~= s0.skip(s0.len() - s1.len() + k));
        }
    }
    Ok(all)
}

/// Reads a string bounded by the format: trims the left side, reads at least
/// the least and at most the greatest length, trims the right side of what
/// is beyond the least length, and skips what the right trim would remove
/// after it. Characters left after that give a trailing error.
pub fn read_bounded_string(r: &mut Reader, fmt: &ReadFmt) -> (res: Result<(String, Option<ArgError>), ArgError>)
    requires
        old(r).well_formed(),
        fmt.parsed().length_range matches Some((lo, hi)) ==> lo <= hi,
    ensures
        final(r).well_formed(),
        old(r).keeps_source(final(r)),
        old(r).is_text() ==> match bounded_string(old(r).rest(), fmt) {
            None => (res matches Err(e) && too_short_error(e, old(r).rest(), fmt)),
            Some(v) => (res matches Ok((x, t)) && x@ == v && (t is Some <==> bounded_string_len(old(r).rest(), fmt)
                != old(r).rest().len())) && old(r).advanced_text(final(r), bounded_string_len(old(r).rest(), fmt)),
        },
{
    let ghost s0 = old(r).rest();
    let all = match read_bounded_chars(r, fmt) {
        Ok(all) => all,
        Err(e) => return Err(e),
    };
    let (lo, hi) = match fmt.length_range() {
        Some(b) => b,
        None => (0, usize::MAX),
    };
    let (right, tc) = match fmt.trim() {
        Some((side, tc)) => (side.right(), tc),
        None => (false, None),
    };
    let out = trim_tail(&all, lo, right, tc);
    let ghost s3 = r.rest();
    if let Err(e) = r.trim_right(fmt) {
        return Err(e);
    }
    let ghost before = *r;
    let p = r.peek();
    proof {
        if old(r).is_text() {
            assert(before.rest().skip(0) =~= before.rest());
            let n0 = (bounded_take(s0, fmt)->0).1;
            let t1 = if trims_right(fmt) { trim_run(s3, tc) } else { 0 };
            assert(s3 == s0.skip(n0 as int));
            assert(r.rest() =~= s0.skip((n0 + t1) as int));
        }
    }
    match p {
        Ok(Some(_)) => {
            let mut msg = owned("String is too long. Expected at most `");
            push_decimal(&mut msg, hi as u128);
            push_str(&mut msg, "` characters.");
            Ok((out, Some(r.err_parse_peek(msg))))
        },
        Ok(None) => Ok((out, None)),
        Err(e) => Ok((out, Some(e))),
    }
}

/// Whether `q` holds a dot.
pub open spec fn has_dot(q: Seq<char>) -> bool
    decreases q.len(),
{
    q.len() > 0 && (q.last() == '.' || has_dot(q.drop_last()))
}

/// Digits with at most one dot among them.
pub open spec fn is_mantissa(q: Seq<char>) -> bool
    decreases q.len(),
{
    q.len() == 0 || (is_mantissa(q.drop_last()) && (('0' <= q.last() <= '9') || (q.last() == '.' && !has_dot(
        q.drop_last(),
    ))))
}

/// The digits of a mantissa before its dot, without leading zeros.
pub open spec fn int_part(q: Seq<char>) -> Seq<char>
    decreases q.len(),
{
    if q.len() == 0 {
        Seq::empty()
    } else {
        let p = int_part(q.drop_last());
        if has_dot(q) || (p.len() == 0 && q.last() == '0') {
            p
        } else {
            p.push(q.last())
        }
    }
}

/// The digits of a mantissa after its dot.
pub open spec fn frac_part(q: Seq<char>) -> Seq<char>
    decreases q.len(),
{
    if q.len() == 0 {
        Seq::empty()
    } else {
        let p = frac_part(q.drop_last());
        if has_dot(q.drop_last()) {
            p.push(q.last())
        } else {
            p
        }
    }
}

/// How many characters a leading sign takes.
pub open spec fn sign_len(s: Seq<char>) -> nat {
    if s.len() > 0 && (s[0] == '-' || s[0] == '+') {
        1
    } else {
        0
    }
}

/// `k` is the length of the longest mantissa at the start of `s`.
pub open spec fn mantissa_end(s: Seq<char>, k: int) -> bool {
    0 <= k <= s.len() && is_mantissa(s.take(k)) && (k == s.len() || !is_mantissa(s.take(k + 1)))
}

/// What reading a number from `s` gives, once the mantissa is known to end at `k`
/// of the text `s1` after the sign.
pub open spec fn float_result(
    s: Seq<char>,
    s1: Seq<char>,
    k: int,
    res: Result<(FloatText, Option<ArgError>), ArgError>,
) -> bool {
    let q = s1.take(k);
    let s2 = s1.skip(k);
    let neg = s.len() > 0 && s[0] == '-';
    if s2.len() > 0 && (s2[0] == 'e' || s2[0] == 'E') {
        match int_outcome(s2.skip(1), 10, i32::MIN as int, i32::MAX as int) {
            None => (res matches Err(e) && int_error(e, s2.skip(1), 10, i32::MIN as int, i32::MAX as int)),
            Some((x, m)) => res matches Ok((f, t)) && f.negative == neg && f.int_digits@ == int_part(q)
                && f.frac_digits@ == frac_part(q) && f.exp == x && (t is Some <==> m != s2.len() - 1),
        }
    } else {
        res matches Ok((f, t)) && f.negative == neg && f.int_digits@ == int_part(q) && f.frac_digits@ == frac_part(
            q,
        ) && f.exp == 0 && (t is Some <==> s2.len() > 0)
    }
}

/// Reads a decimal floating point number: an optional sign, the longest run
/// of digits with at most one dot, and an exponent after `e` or `E`. What
/// follows a number without exponent is a trailing error.
pub fn read_float(r: &mut Reader) -> (res: Result<(FloatText, Option<ArgError>), ArgError>)
    requires
        old(r).well_formed(),
    ensures
        final(r).well_formed(),
        old(r).keeps_source(final(r)),
        res matches Ok((f, _)) ==> all_ascii_digits(f.int_digits@) && all_ascii_digits(f.frac_digits@),
        old(r).is_text() ==> exists|k: int|
            mantissa_end(old(r).rest().skip(sign_len(old(r).rest()) as int), k) && float_result(
                old(r).rest(),
                old(r).rest().skip(sign_len(old(r).rest()) as int),
                k,
                res,
            ),
{
    let ghost s = old(r).rest();
    let neg = match r.is_next_some('-') {
        Ok(b) => b,
        Err(e) => return Err(e),
    };
    if !neg {
        if let Err(e) = r.is_next_some('+') {
            return Err(e);
        }
    }
    let ghost s1 = s.skip(sign_len(s) as int);
    proof {
        if old(r).is_text() {
            assert(r.rest() =~= s1);
            assert(s1.skip(0) =~= s1);
            assert(s1.take(0) =~= Seq::<char>::empty());
        }
    }
    let mut int_digits = String::new();
    let mut frac_digits = String::new();
    let mut dot = false;
    let mut int_empty = true;
    let ghost mut k: int = 0;
    loop
        invariant
            r.well_formed(),
            old(r).keeps_source(r),
            all_ascii_digits(int_digits@),
            all_ascii_digits(frac_digits@),
            int_empty == (int_digits@.len() == 0),
            old(r).is_text() ==> {
                &&& 0 <= k <= s1.len()
                &&& r.rest() == s1.skip(k)
                &&& is_mantissa(s1.take(k))
                &&& dot == has_dot(s1.take(k))
                &&& int_digits@ == int_part(s1.take(k))
                &&& frac_digits@ == frac_part(s1.take(k))
                &&& neg == (s.len() > 0 && s[0] == '-')
            },
        ensures
            old(r).is_text() ==> mantissa_end(s1, k),
        decreases r.measure(),
    {
        let ghost before = *r;
        let p = r.peek();
        proof {
            if old(r).is_text() {
                assert(before.rest().skip(0) =~= before.rest());
                if k < s1.len() {
                    assert(s1.take(k + 1).drop_last() =~= s1.take(k));
                    assert(s1.take(k + 1).last() == s1[k]);
                    assert(r.rest()[0] == s1[k]);
                }
            }
        }
        let c = match p {
            Ok(Some(c)) => c,
            Ok(None) => break,
            Err(e) => return Err(e),
        };
        if !dot && c == '.' {
            dot = true;
        } else if '0' <= c && c <= '9' {
            if dot {
                push_char(&mut frac_digits, c);
            } else if !int_empty || c != '0' {
                push_char(&mut int_digits, c);
                int_empty = false;
            }
        } else {
            break;
        }
        let _ = r.next();
        proof {
            if old(r).is_text() {
                let q = s1.take(k);
                let q1 = s1.take(k + 1);
                assert(q1.drop_last() =~= q);
                assert(q1.last() == c);
                assert(has_dot(q1) == (c == '.' || has_dot(q)));
                assert(is_mantissa(q1));
                assert(int_digits@ == int_part(q1));
                assert(frac_digits@ == frac_part(q1));
                assert(r.rest() =~= s1.skip(k + 1));
                k = k + 1;
            }
        }
    }
    let ghost s2 = s1.skip(k);
    let ghost before = *r;
    let p = r.peek();
    proof {
        if old(r).is_text() {
            assert(before.rest().skip(0) =~= before.rest());
        }
    }
    let is_exp = match p {
        Ok(Some(c)) => c == 'e' || c == 'E',
        Ok(None) => false,
        Err(e) => return Err(e),
    };
    if !is_exp {
        let t = match p {
            Ok(Some(c)) => {
                let mut msg = owned("Invalid char `");
                push_char(&mut msg, c);
                push_str(&mut msg, "`. Expected digit, `e` or `E`");
                Some(r.err_parse_peek(msg))
            },
            _ => None,
        };
        let res = Ok((FloatText { negative: neg, int_digits, frac_digits, exp: 0 }, t));
        proof {
            if old(r).is_text() {
                assert(float_result(s, s1, k, res));
            }
        }
        return res;
    }
    let _ = r.next();
    proof {
        if old(r).is_text() {
            assert(r.rest() =~= s2.skip(1));
        }
    }
    let res = match read_i32(r, &ReadFmt::empty()) {
        Ok((exp, t)) => Ok((FloatText { negative: neg, int_digits, frac_digits, exp }, t)),
        Err(e) => Err(e),
    };
    proof {
        if old(r).is_text() {
            assert(float_result(s, s1, k, res));
        }
    }
    res
}

/// All of `s` are ASCII digits.
pub open spec fn all_ascii_digits(s: Seq<char>) -> bool {
    forall|i: int| 0 <= i < s.len() ==> '0' <= #[trigger] s[i] <= '9'
}

} // verus!
