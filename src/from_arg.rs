//! Types that can be made from a whole argument or read from a reader.

use vstd::prelude::*;

use crate::decode::{
    bool_outcome, bounded_string, bounded_string_len, float_result, int_outcome, is_plain, mantissa_end, radix_of,
    sign_len, read_bool, read_bounded_string, read_char, read_float, read_i16, read_i32, read_i64, read_i8, read_isize,
    read_u16, read_u32, read_u64, read_u8, read_usize, FloatText, Ipv4, SocketV4,
};
use crate::err::ArgError;
use crate::fmt::ReadFmt;
use crate::integer::int_error;
use crate::parsef::{ipv4_text, read_ipv4, read_socket_v4, socket_text};
use crate::reader::Reader;
use crate::text::owned;

verus! {

/// A type that can be made from a whole argument.
pub trait FromArg: Sized {
    fn from_arg(arg: &str) -> Result<Self, ArgError>;
}

/// A type that can be read from the start of a [`Reader`]. On success it
/// returns the value, and the error that reading more of the input would
/// give, if any.
pub trait FromRead: Sized {
    /// Reading from the text `s` with `fmt` may give `res` and leave `rest`.
    spec fn decoded(
        s: Seq<char>,
        fmt: ReadFmt,
        res: Result<(Self, Option<ArgError>), ArgError>,
        rest: Seq<char>,
    ) -> bool;

    fn from_read(r: &mut Reader, fmt: &ReadFmt) -> (res: Result<(Self, Option<ArgError>), ArgError>)
        requires
            old(r).well_formed(),
            fmt.well_formed(),
            fmt.parsed().length_range matches Some((lo, hi)) ==> lo <= hi,
        ensures
            final(r).well_formed(),
            old(r).keeps_source(final(r)),
            old(r).is_text() ==> Self::decoded(old(r).rest(), *fmt, res, final(r).rest()),
    ;
}

/// The value of a read that must take the whole input: its trailing error,
/// if there is one, is the error.
pub fn whole<T>(res: Result<(T, Option<ArgError>), ArgError>) -> (r: Result<T, ArgError>)
    ensures
        match res {
            Ok((v, None)) => r == Ok::<T, ArgError>(v),
            Ok((_, Some(e))) => r == Err::<T, ArgError>(e),
            Err(e) => r == Err::<T, ArgError>(e),
        },
{
    match res {
        Ok((v, None)) => Ok(v),
        Ok((_, Some(e))) => Err(e),
        Err(e) => Err(e),
    }
}

impl FromRead for u8 {
    open spec fn decoded(
        s: Seq<char>,
        fmt: ReadFmt,
        res: Result<(Self, Option<ArgError>), ArgError>,
        rest: Seq<char>,
    ) -> bool {
        is_plain(&fmt) ==> match int_outcome(s, radix_of(&fmt), u8::MIN as int, u8::MAX as int) {
            None => (res matches Err(e) && int_error(e, s, radix_of(&fmt), u8::MIN as int, u8::MAX as int)),
            Some((v, n)) => (res matches Ok((x, t)) && x as int == v && (t is None <==> n == s.len())) && rest
                == s.skip(n as int),
        }
    }

    fn from_read(r: &mut Reader, fmt: &ReadFmt) -> (res: Result<(Self, Option<ArgError>), ArgError>) {
        read_u8(r, fmt)
    }
}

impl FromRead for u16 {
    open spec fn decoded(
        s: Seq<char>,
        fmt: ReadFmt,
        res: Result<(Self, Option<ArgError>), ArgError>,
        rest: Seq<char>,
    ) -> bool {
        is_plain(&fmt) ==> match int_outcome(s, radix_of(&fmt), u16::MIN as int, u16::MAX as int) {
            None => (res matches Err(e) && int_error(e, s, radix_of(&fmt), u16::MIN as int, u16::MAX as int)),
            Some((v, n)) => (res matches Ok((x, t)) && x as int == v && (t is None <==> n == s.len())) && rest
                == s.skip(n as int),
        }
    }

    fn from_read(r: &mut Reader, fmt: &ReadFmt) -> (res: Result<(Self, Option<ArgError>), ArgError>) {
        read_u16(r, fmt)
    }
}

impl FromRead for u32 {
    open spec fn decoded(
        s: Seq<char>,
        fmt: ReadFmt,
        res: Result<(Self, Option<ArgError>), ArgError>,
        rest: Seq<char>,
    ) -> bool {
        is_plain(&fmt) ==> match int_outcome(s, radix_of(&fmt), u32::MIN as int, u32::MAX as int) {
            None => (res matches Err(e) && int_error(e, s, radix_of(&fmt), u32::MIN as int, u32::MAX as int)),
            Some((v, n)) => (res matches Ok((x, t)) && x as int == v && (t is None <==> n == s.len())) && rest
                == s.skip(n as int),
        }
    }

    fn from_read(r: &mut Reader, fmt: &ReadFmt) -> (res: Result<(Self, Option<ArgError>), ArgError>) {
        read_u32(r, fmt)
    }
}

impl FromRead for u64 {
    open spec fn decoded(
        s: Seq<char>,
        fmt: ReadFmt,
        res: Result<(Self, Option<ArgError>), ArgError>,
        rest: Seq<char>,
    ) -> bool {
        is_plain(&fmt) ==> match int_outcome(s, radix_of(&fmt), u64::MIN as int, u64::MAX as int) {
            None => (res matches Err(e) && int_error(e, s, radix_of(&fmt), u64::MIN as int, u64::MAX as int)),
            Some((v, n)) => (res matches Ok((x, t)) && x as int == v && (t is None <==> n == s.len())) && rest
                == s.skip(n as int),
        }
    }

    fn from_read(r: &mut Reader, fmt: &ReadFmt) -> (res: Result<(Self, Option<ArgError>), ArgError>) {
        read_u64(r, fmt)
    }
}

impl FromRead for usize {
    open spec fn decoded(
        s: Seq<char>,
        fmt: ReadFmt,
        res: Result<(Self, Option<ArgError>), ArgError>,
        rest: Seq<char>,
    ) -> bool {
        is_plain(&fmt) ==> match int_outcome(s, radix_of(&fmt), usize::MIN as int, usize::MAX as int) {
            None => (res matches Err(e) && int_error(e, s, radix_of(&fmt), usize::MIN as int, usize::MAX as int)),
            Some((v, n)) => (res matches Ok((x, t)) && x as int == v && (t is None <==> n == s.len())) && rest
                == s.skip(n as int),
        }
    }

    fn from_read(r: &mut Reader, fmt: &ReadFmt) -> (res: Result<(Self, Option<ArgError>), ArgError>) {
        read_usize(r, fmt)
    }
}

impl FromRead for i8 {
    open spec fn decoded(
        s: Seq<char>,
        fmt: ReadFmt,
        res: Result<(Self, Option<ArgError>), ArgError>,
        rest: Seq<char>,
    ) -> bool {
        is_plain(&fmt) ==> match int_outcome(s, radix_of(&fmt), i8::MIN as int, i8::MAX as int) {
            None => (res matches Err(e) && int_error(e, s, radix_of(&fmt), i8::MIN as int, i8::MAX as int)),
            Some((v, n)) => (res matches Ok((x, t)) && x as int == v && (t is None <==> n == s.len())) && rest
                == s.skip(n as int),
        }
    }

    fn from_read(r: &mut Reader, fmt: &ReadFmt) -> (res: Result<(Self, Option<ArgError>), ArgError>) {
        read_i8(r, fmt)
    }
}

impl FromRead for i16 {
    open spec fn decoded(
        s: Seq<char>,
        fmt: ReadFmt,
        res: Result<(Self, Option<ArgError>), ArgError>,
        rest: Seq<char>,
    ) -> bool {
        is_plain(&fmt) ==> match int_outcome(s, radix_of(&fmt), i16::MIN as int, i16::MAX as int) {
            None => (res matches Err(e) && int_error(e, s, radix_of(&fmt), i16::MIN as int, i16::MAX as int)),
            Some((v, n)) => (res matches Ok((x, t)) && x as int == v && (t is None <==> n == s.len())) && rest
                == s.skip(n as int),
        }
    }

    fn from_read(r: &mut Reader, fmt: &ReadFmt) -> (res: Result<(Self, Option<ArgError>), ArgError>) {
        read_i16(r, fmt)
    }
}

impl FromRead for i32 {
    open spec fn decoded(
        s: Seq<char>,
        fmt: ReadFmt,
        res: Result<(Self, Option<ArgError>), ArgError>,
        rest: Seq<char>,
    ) -> bool {
        is_plain(&fmt) ==> match int_outcome(s, radix_of(&fmt), i32::MIN as int, i32::MAX as int) {
            None => (res matches Err(e) && int_error(e, s, radix_of(&fmt), i32::MIN as int, i32::MAX as int)),
            Some((v, n)) => (res matches Ok((x, t)) && x as int == v && (t is None <==> n == s.len())) && rest
                == s.skip(n as int),
        }
    }

    fn from_read(r: &mut Reader, fmt: &ReadFmt) -> (res: Result<(Self, Option<ArgError>), ArgError>) {
        read_i32(r, fmt)
    }
}

impl FromRead for i64 {
    open spec fn decoded(
        s: Seq<char>,
        fmt: ReadFmt,
        res: Result<(Self, Option<ArgError>), ArgError>,
        rest: Seq<char>,
    ) -> bool {
        is_plain(&fmt) ==> match int_outcome(s, radix_of(&fmt), i64::MIN as int, i64::MAX as int) {
            None => (res matches Err(e) && int_error(e, s, radix_of(&fmt), i64::MIN as int, i64::MAX as int)),
            Some((v, n)) => (res matches Ok((x, t)) && x as int == v && (t is None <==> n == s.len())) && rest
                == s.skip(n as int),
        }
    }

    fn from_read(r: &mut Reader, fmt: &ReadFmt) -> (res: Result<(Self, Option<ArgError>), ArgError>) {
        read_i64(r, fmt)
    }
}

impl FromRead for isize {
    open spec fn decoded(
        s: Seq<char>,
        fmt: ReadFmt,
        res: Result<(Self, Option<ArgError>), ArgError>,
        rest: Seq<char>,
    ) -> bool {
        is_plain(&fmt) ==> match int_outcome(s, radix_of(&fmt), isize::MIN as int, isize::MAX as int) {
            None => (res matches Err(e) && int_error(e, s, radix_of(&fmt), isize::MIN as int, isize::MAX as int)),
            Some((v, n)) => (res matches Ok((x, t)) && x as int == v && (t is None <==> n == s.len())) && rest
                == s.skip(n as int),
        }
    }

    fn from_read(r: &mut Reader, fmt: &ReadFmt) -> (res: Result<(Self, Option<ArgError>), ArgError>) {
        read_isize(r, fmt)
    }
}

impl FromRead for bool {
    open spec fn decoded(
        s: Seq<char>,
        fmt: ReadFmt,
        res: Result<(Self, Option<ArgError>), ArgError>,
        rest: Seq<char>,
    ) -> bool {
        match bool_outcome(s) {
            None => res is Err,
            Some((b, n)) => (res matches Ok((x, None)) && x == b) && rest == s.skip(n as int),
        }
    }

    fn from_read(r: &mut Reader, fmt: &ReadFmt) -> (res: Result<(Self, Option<ArgError>), ArgError>) {
        read_bool(r)
    }
}

impl FromRead for char {
    open spec fn decoded(
        s: Seq<char>,
        fmt: ReadFmt,
        res: Result<(Self, Option<ArgError>), ArgError>,
        rest: Seq<char>,
    ) -> bool {
        if s.len() > 0 {
            (res matches Ok((c, None)) && c == s[0]) && rest == s.skip(1)
        } else {
            res is Err
        }
    }

    fn from_read(r: &mut Reader, fmt: &ReadFmt) -> (res: Result<(Self, Option<ArgError>), ArgError>) {
        read_char(r)
    }
}

impl FromRead for String {
    open spec fn decoded(
        s: Seq<char>,
        fmt: ReadFmt,
        res: Result<(Self, Option<ArgError>), ArgError>,
        rest: Seq<char>,
    ) -> bool {
        match bounded_string(s, &fmt) {
            None => res is Err,
            Some(v) => (res matches Ok((x, t)) && x@ == v && (t is Some <==> bounded_string_len(s, &fmt) != s.len()))
                && rest == s.skip(bounded_string_len(s, &fmt) as int),
        }
    }

    fn from_read(r: &mut Reader, fmt: &ReadFmt) -> (res: Result<(Self, Option<ArgError>), ArgError>) {
        read_bounded_string(r, fmt)
    }
}

impl FromRead for Ipv4 {
    open spec fn decoded(
        s: Seq<char>,
        fmt: ReadFmt,
        res: Result<(Self, Option<ArgError>), ArgError>,
        rest: Seq<char>,
    ) -> bool {
        match ipv4_text(s) {
            None => res is Err,
            Some((ip, n)) => (res matches Ok((x, t)) && x == ip && (t is Some <==> n != s.len())) && rest == s.skip(
                n as int,
            ),
        }
    }

    fn from_read(r: &mut Reader, fmt: &ReadFmt) -> (res: Result<(Self, Option<ArgError>), ArgError>) {
        read_ipv4(r)
    }
}

impl FromRead for SocketV4 {
    open spec fn decoded(
        s: Seq<char>,
        fmt: ReadFmt,
        res: Result<(Self, Option<ArgError>), ArgError>,
        rest: Seq<char>,
    ) -> bool {
        match socket_text(s) {
            None => res is Err,
            Some((sa, n)) => (res matches Ok((x, t)) && x == sa && (t is Some <==> n != s.len())) && rest == s.skip(
                n as int,
            ),
        }
    }

    fn from_read(r: &mut Reader, fmt: &ReadFmt) -> (res: Result<(Self, Option<ArgError>), ArgError>) {
        read_socket_v4(r)
    }
}

impl FromRead for FloatText {
    open spec fn decoded(
        s: Seq<char>,
        fmt: ReadFmt,
        res: Result<(Self, Option<ArgError>), ArgError>,
        rest: Seq<char>,
    ) -> bool {
        exists|k: int|
            mantissa_end(s.skip(sign_len(s) as int), k) && float_result(s, s.skip(sign_len(s) as int), k, res)
    }

    fn from_read(r: &mut Reader, fmt: &ReadFmt) -> (res: Result<(Self, Option<ArgError>), ArgError>) {
        read_float(r)
    }
}

/// Reads a whole argument as a `T`, with an empty format.
pub fn read_whole<T: FromRead>(arg: &str) -> (r: Result<T, ArgError>) {
    let mut rd = Reader::from_str(arg);
    whole(T::from_read(&mut rd, &ReadFmt::empty()))
}

impl FromArg for String {
    fn from_arg(arg: &str) -> Result<Self, ArgError> {
        Ok(owned(arg))
    }
}

impl FromArg for u8 {
    fn from_arg(arg: &str) -> Result<Self, ArgError> {
        read_whole(arg)
    }
}

impl FromArg for u16 {
    fn from_arg(arg: &str) -> Result<Self, ArgError> {
        read_whole(arg)
    }
}

impl FromArg for u32 {
    fn from_arg(arg: &str) -> Result<Self, ArgError> {
        read_whole(arg)
    }
}

impl FromArg for u64 {
    fn from_arg(arg: &str) -> Result<Self, ArgError> {
        read_whole(arg)
    }
}

impl FromArg for usize {
    fn from_arg(arg: &str) -> Result<Self, ArgError> {
        read_whole(arg)
    }
}

impl FromArg for i8 {
    fn from_arg(arg: &str) -> Result<Self, ArgError> {
        read_whole(arg)
    }
}

impl FromArg for i16 {
    fn from_arg(arg: &str) -> Result<Self, ArgError> {
        read_whole(arg)
    }
}

impl FromArg for i32 {
    fn from_arg(arg: &str) -> Result<Self, ArgError> {
        read_whole(arg)
    }
}

impl FromArg for i64 {
    fn from_arg(arg: &str) -> Result<Self, ArgError> {
        read_whole(arg)
    }
}

impl FromArg for isize {
    fn from_arg(arg: &str) -> Result<Self, ArgError> {
        read_whole(arg)
    }
}

impl FromArg for bool {
    fn from_arg(arg: &str) -> Result<Self, ArgError> {
        read_whole(arg)
    }
}

impl FromArg for char {
    fn from_arg(arg: &str) -> Result<Self, ArgError> {
        read_whole(arg)
    }
}

impl FromArg for Ipv4 {
    fn from_arg(arg: &str) -> Result<Self, ArgError> {
        read_whole(arg)
    }
}

impl FromArg for SocketV4 {
    fn from_arg(arg: &str) -> Result<Self, ArgError> {
        read_whole(arg)
    }
}

impl FromArg for FloatText {
    fn from_arg(arg: &str) -> Result<Self, ArgError> {
        read_whole(arg)
    }
}

impl<T: FromArg> FromArg for Option<T> {
    fn from_arg(arg: &str) -> Result<Self, ArgError> {
        if arg.is_empty() {
            Ok(None)
        } else {
            match T::from_arg(arg) {
                Ok(v) => Ok(Some(v)),
                Err(e) => Err(e),
            }
        }
    }
}

} // verus!
