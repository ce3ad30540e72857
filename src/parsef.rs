//! Running patterns of literals and slots against a reader.

use vstd::prelude::*;

use crate::decode::{
    bool_outcome, bounded_string, bounded_string_len, float_result, int_outcome, is_plain, mantissa_end, radix_of,
    sign_len,
    read_bool, read_bounded_string, read_char, read_float, read_i16, read_i32, read_i64, read_i8, read_isize,
    read_u16, read_u32, read_u64, read_u8, read_usize, FloatText, Ipv4, SocketV4,
};
use crate::err::ArgError;
use crate::fmt::ReadFmt;
use crate::integer::int_error;
use crate::reader::Reader;
use crate::check::{in_range, int_of, int_value, print_range_bounds, InRange};
use crate::text::{owned, push_signed, push_str};

verus! {

/// A slot's target: the type to decode, holding the last value decoded.
#[derive(Debug, Clone)]
pub enum Value {
    U8(u8),
    U16(u16),
    U32(u32),
    U64(u64),
    Usize(usize),
    I8(i8),
    I16(i16),
    I32(i32),
    I64(i64),
    Isize(isize),
    Bool(bool),
    Char(char),
    Str(String),
    Ipv4(Ipv4),
    SocketV4(SocketV4),
    Float(FloatText),
}

/// How deeply decoding a value nests patterns.
pub open spec fn depth(v: Value) -> nat {
    match v {
        Value::Ipv4(_) => 1,
        Value::SocketV4(_) => 2,
        _ => 0,
    }
}

/// Whether two values are of the same type.
pub open spec fn same_kind(a: Value, b: Value) -> bool {
    match (a, b) {
        (Value::U8(_), Value::U8(_)) => true,
        (Value::U16(_), Value::U16(_)) => true,
        (Value::U32(_), Value::U32(_)) => true,
        (Value::U64(_), Value::U64(_)) => true,
        (Value::Usize(_), Value::Usize(_)) => true,
        (Value::I8(_), Value::I8(_)) => true,
        (Value::I16(_), Value::I16(_)) => true,
        (Value::I32(_), Value::I32(_)) => true,
        (Value::I64(_), Value::I64(_)) => true,
        (Value::Isize(_), Value::Isize(_)) => true,
        (Value::Bool(_), Value::Bool(_)) => true,
        (Value::Char(_), Value::Char(_)) => true,
        (Value::Str(_), Value::Str(_)) => true,
        (Value::Ipv4(_), Value::Ipv4(_)) => true,
        (Value::SocketV4(_), Value::SocketV4(_)) => true,
        (Value::Float(_), Value::Float(_)) => true,
        _ => false,
    }
}

/// One instruction of a pattern.
#[derive(Debug, Clone)]
pub enum ParseFArg {
    /// Expect this text.
    Str(String),
    /// Decode a value of the slot's type with the given format.
    Arg(Value, ReadFmt),
    /// Decode as `Arg` does, and require an integer value to lie in the range.
    Ranged(Value, ReadFmt, InRange),
}

pub open spec fn arg_depth(a: ParseFArg) -> nat {
    match a {
        ParseFArg::Str(_) => 0,
        ParseFArg::Arg(v, _) => depth(v),
        ParseFArg::Ranged(v, _, _) => depth(v),
    }
}

/// The deepest nesting among the instructions.
pub open spec fn max_depth(args: Seq<ParseFArg>) -> nat
    decreases args.len(),
{
    if args.len() == 0 {
        0
    } else {
        let d = arg_depth(args.last());
        let m = max_depth(args.drop_last());
        if d > m { d } else { m }
    }
}

proof fn lemma_max_depth(args: Seq<ParseFArg>, i: int)
    requires
        0 <= i < args.len(),
    ensures
        arg_depth(args[i]) <= max_depth(args),
    decreases args.len(),
{
    if i < args.len() - 1 {
        lemma_max_depth(args.drop_last(), i);
    }
}

/// The instructions are well formed: their formats are.
pub open spec fn args_well_formed(args: Seq<ParseFArg>) -> bool {
    forall|i: int| 0 <= i < args.len() ==> match #[trigger] args[i] {
        ParseFArg::Arg(_, f) => f.well_formed() && (f.parsed().length_range matches Some((lo, hi)) ==> lo <= hi),
        ParseFArg::Ranged(_, f, _) => f.well_formed() && (f.parsed().length_range matches Some((lo, hi)) ==> lo
            <= hi),
        ParseFArg::Str(_) => true,
    }
}

/// `new` holds the same instructions as `old`, with new values of the same types.
pub open spec fn same_shape(old: Seq<ParseFArg>, new: Seq<ParseFArg>) -> bool {
    &&& new.len() == old.len()
    &&& forall|i: int| 0 <= i < old.len() ==> match (#[trigger] old[i], new[i]) {
        (ParseFArg::Str(a), ParseFArg::Str(b)) => a == b,
        (ParseFArg::Arg(a, f), ParseFArg::Arg(b, g)) => same_kind(a, b) && f == g,
        (ParseFArg::Ranged(a, f, x), ParseFArg::Ranged(b, g, y)) => same_kind(a, b) && f == g && x == y,
        _ => false,
    }
}

impl Value {
    /// Decodes a value of this one's type from `r` with `fmt` and stores it
    /// here; returns the trailing error.
    pub fn set_from_read(&mut self, r: &mut Reader, fmt: &ReadFmt) -> (res: Result<Option<ArgError>, ArgError>)
        requires
            old(r).well_formed(),
            fmt.well_formed(),
            fmt.parsed().length_range matches Some((lo, hi)) ==> lo <= hi,
        ensures
            final(r).well_formed(),
            old(r).keeps_source(final(r)),
            same_kind(*old(self), *final(self)),
            res is Err ==> *final(self) == *old(self),
            old(r).is_text() ==> match *old(self) {
            Value::U8(_) => is_plain(fmt) ==> match int_outcome(old(r).rest(), radix_of(fmt), u8::MIN as int, u8::MAX as int) {
                None => (res matches Err(e) && int_error(e, old(r).rest(), radix_of(fmt), u8::MIN as int, u8::MAX as int)),
                Some((v, n)) => res is Ok && *final(self) == Value::U8(v as u8) && old(r).advanced_text(final(r), n)
                    && (res->Ok_0 is None <==> n == old(r).rest().len()),
            },
            Value::U16(_) => is_plain(fmt) ==> match int_outcome(old(r).rest(), radix_of(fmt), u16::MIN as int, u16::MAX as int) {
                None => (res matches Err(e) && int_error(e, old(r).rest(), radix_of(fmt), u16::MIN as int, u16::MAX as int)),
                Some((v, n)) => res is Ok && *final(self) == Value::U16(v as u16) && old(r).advanced_text(final(r), n)
                    && (res->Ok_0 is None <==> n == old(r).rest().len()),
            },
            Value::U32(_) => is_plain(fmt) ==> match int_outcome(old(r).rest(), radix_of(fmt), u32::MIN as int, u32::MAX as int) {
                None => (res matches Err(e) && int_error(e, old(r).rest(), radix_of(fmt), u32::MIN as int, u32::MAX as int)),
                Some((v, n)) => res is Ok && *final(self) == Value::U32(v as u32) && old(r).advanced_text(final(r), n)
                    && (res->Ok_0 is None <==> n == old(r).rest().len()),
            },
            Value::U64(_) => is_plain(fmt) ==> match int_outcome(old(r).rest(), radix_of(fmt), u64::MIN as int, u64::MAX as int) {
                None => (res matches Err(e) && int_error(e, old(r).rest(), radix_of(fmt), u64::MIN as int, u64::MAX as int)),
                Some((v, n)) => res is Ok && *final(self) == Value::U64(v as u64) && old(r).advanced_text(final(r), n)
                    && (res->Ok_0 is None <==> n == old(r).rest().len()),
            },
            Value::Usize(_) => is_plain(fmt) ==> match int_outcome(old(r).rest(), radix_of(fmt), usize::MIN as int, usize::MAX as int) {
                None => (res matches Err(e) && int_error(e, old(r).rest(), radix_of(fmt), usize::MIN as int, usize::MAX as int)),
                Some((v, n)) => res is Ok && *final(self) == Value::Usize(v as usize) && old(r).advanced_text(final(r), n)
                    && (res->Ok_0 is None <==> n == old(r).rest().len()),
            },
            Value::I8(_) => is_plain(fmt) ==> match int_outcome(old(r).rest(), radix_of(fmt), i8::MIN as int, i8::MAX as int) {
                None => (res matches Err(e) && int_error(e, old(r).rest(), radix_of(fmt), i8::MIN as int, i8::MAX as int)),
                Some((v, n)) => res is Ok && *final(self) == Value::I8(v as i8) && old(r).advanced_text(final(r), n)
                    && (res->Ok_0 is None <==> n == old(r).rest().len()),
            },
            Value::I16(_) => is_plain(fmt) ==> match int_outcome(old(r).rest(), radix_of(fmt), i16::MIN as int, i16::MAX as int) {
                None => (res matches Err(e) && int_error(e, old(r).rest(), radix_of(fmt), i16::MIN as int, i16::MAX as int)),
                Some((v, n)) => res is Ok && *final(self) == Value::I16(v as i16) && old(r).advanced_text(final(r), n)
                    && (res->Ok_0 is None <==> n == old(r).rest().len()),
            },
            Value::I32(_) => is_plain(fmt) ==> match int_outcome(old(r).rest(), radix_of(fmt), i32::MIN as int, i32::MAX as int) {
                None => (res matches Err(e) && int_error(e, old(r).rest(), radix_of(fmt), i32::MIN as int, i32::MAX as int)),
                Some((v, n)) => res is Ok && *final(self) == Value::I32(v as i32) && old(r).advanced_text(final(r), n)
                    && (res->Ok_0 is None <==> n == old(r).rest().len()),
            },
            Value::I64(_) => is_plain(fmt) ==> match int_outcome(old(r).rest(), radix_of(fmt), i64::MIN as int, i64::MAX as int) {
                None => (res matches Err(e) && int_error(e, old(r).rest(), radix_of(fmt), i64::MIN as int, i64::MAX as int)),
                Some((v, n)) => res is Ok && *final(self) == Value::I64(v as i64) && old(r).advanced_text(final(r), n)
                    && (res->Ok_0 is None <==> n == old(r).rest().len()),
            },
            Value::Isize(_) => is_plain(fmt) ==> match int_outcome(old(r).rest(), radix_of(fmt), isize::MIN as int, isize::MAX as int) {
                None => (res matches Err(e) && int_error(e, old(r).rest(), radix_of(fmt), isize::MIN as int, isize::MAX as int)),
                Some((v, n)) => res is Ok && *final(self) == Value::Isize(v as isize) && old(r).advanced_text(final(r), n)
                    && (res->Ok_0 is None <==> n == old(r).rest().len()),
            },
            Value::Bool(_) => match bool_outcome(old(r).rest()) {
                None => res is Err,
                Some((b, n)) => res is Ok && *final(self) == Value::Bool(b) && old(r).advanced_text(final(r), n)
                    && res->Ok_0 is None,
            },
            Value::Char(_) => if old(r).rest().len() > 0 {
                res is Ok && *final(self) == Value::Char(old(r).rest()[0]) && old(r).advanced_text(final(r), 1)
                    && res->Ok_0 is None
            } else {
                res is Err
            },
            Value::Ipv4(_) => match ipv4_text(old(r).rest()) {
                None => res is Err,
                Some((ip, n)) => res is Ok && *final(self) == Value::Ipv4(ip) && old(r).advanced_text(final(r), n)
                    && (res->Ok_0 is Some <==> n != old(r).rest().len()),
            },
            Value::Str(_) => match bounded_string(old(r).rest(), fmt) {
                None => res is Err,
                Some(v) => res is Ok && (*final(self) matches Value::Str(x) && x@ == v) && old(r).advanced_text(
                    final(r),
                    bounded_string_len(old(r).rest(), fmt),
                ) && (res->Ok_0 is Some <==> bounded_string_len(old(r).rest(), fmt) != old(r).rest().len()),
            },
            Value::SocketV4(_) => match socket_text(old(r).rest()) {
                None => res is Err,
                Some((sa, n)) => res is Ok && *final(self) == Value::SocketV4(sa) && old(r).advanced_text(
                    final(r),
                    n,
                ) && (res->Ok_0 is Some <==> n != old(r).rest().len()),
            },
            Value::Float(_) => exists|k: int|
                mantissa_end(old(r).rest().skip(sign_len(old(r).rest()) as int), k) && float_result(
                    old(r).rest(),
                    old(r).rest().skip(sign_len(old(r).rest()) as int),
                    k,
                    match res {
                        Ok(t) => Ok((final(self)->Float_0, t)),
                        Err(e) => Err(e),
                    },
                ),
            },
        decreases depth(*old(self)), 1nat,
    {
        match self {
            Value::U8(x) => match read_u8(r, fmt) {
                Ok((v, t)) => {
                    *x = v;
                    Ok(t)
                },
                Err(e) => Err(e),
            },
            Value::U16(x) => match read_u16(r, fmt) {
                Ok((v, t)) => {
                    *x = v;
                    Ok(t)
                },
                Err(e) => Err(e),
            },
            Value::U32(x) => match read_u32(r, fmt) {
                Ok((v, t)) => {
                    *x = v;
                    Ok(t)
                },
                Err(e) => Err(e),
            },
            Value::U64(x) => match read_u64(r, fmt) {
                Ok((v, t)) => {
                    *x = v;
                    Ok(t)
                },
                Err(e) => Err(e),
            },
            Value::Usize(x) => match read_usize(r, fmt) {
                Ok((v, t)) => {
                    *x = v;
                    Ok(t)
                },
                Err(e) => Err(e),
            },
            Value::I8(x) => match read_i8(r, fmt) {
                Ok((v, t)) => {
                    *x = v;
                    Ok(t)
                },
                Err(e) => Err(e),
            },
            Value::I16(x) => match read_i16(r, fmt) {
                Ok((v, t)) => {
                    *x = v;
                    Ok(t)
                },
                Err(e) => Err(e),
            },
            Value::I32(x) => match read_i32(r, fmt) {
                Ok((v, t)) => {
                    *x = v;
                    Ok(t)
                },
                Err(e) => Err(e),
            },
            Value::I64(x) => match read_i64(r, fmt) {
                Ok((v, t)) => {
                    *x = v;
                    Ok(t)
                },
                Err(e) => Err(e),
            },
            Value::Isize(x) => match read_isize(r, fmt) {
                Ok((v, t)) => {
                    *x = v;
                    Ok(t)
                },
                Err(e) => Err(e),
            },
            Value::Bool(x) => match read_bool(r) {
                Ok((v, t)) => {
                    *x = v;
                    Ok(t)
                },
                Err(e) => Err(e),
            },
            Value::Char(x) => match read_char(r) {
                Ok((v, t)) => {
                    *x = v;
                    Ok(t)
                },
                Err(e) => Err(e),
            },
            Value::Str(x) => match read_bounded_string(r, fmt) {
                Ok((v, t)) => {
                    *x = v;
                    Ok(t)
                },
                Err(e) => Err(e),
            },
            Value::Ipv4(x) => match read_ipv4(r) {
                Ok((v, t)) => {
                    *x = v;
                    Ok(t)
                },
                Err(e) => Err(e),
            },
            Value::SocketV4(x) => match read_socket_v4(r) {
                Ok((v, t)) => {
                    *x = v;
                    Ok(t)
                },
                Err(e) => Err(e),
            },
            Value::Float(x) => match read_float(r) {
                Ok((v, t)) => {
                    *x = v;
                    Ok(t)
                },
                Err(e) => Err(e),
            },
        }
    }
}

/// What one instruction does to the text `s`, where that is stated: `None`
/// where it is not, `Some(None)` where it fails, and else the instruction
/// with its new value, the characters it takes, and whether a trailing
/// error comes with it.
#[verifier::opaque]
pub open spec fn slot_step(a: ParseFArg, s: Seq<char>) -> Option<Option<(ParseFArg, nat, bool)>> {
    match a {
        ParseFArg::Str(lit) => if lit@.len() <= s.len() && s.take(lit@.len() as int) == lit@ {
            Some(Some((ParseFArg::Str(lit), lit@.len(), false)))
        } else {
            Some(None)
        },
        ParseFArg::Arg(v, f) => match v {
            Value::U8(_) => if is_plain(&f) {
                match int_outcome(s, radix_of(&f), u8::MIN as int, u8::MAX as int) {
                    None => Some(None),
                    Some((x, n)) => Some(Some((ParseFArg::Arg(Value::U8(x as u8), f), n, n != s.len()))),
                }
            } else {
                None
            },
            Value::U16(_) => if is_plain(&f) {
                match int_outcome(s, radix_of(&f), u16::MIN as int, u16::MAX as int) {
                    None => Some(None),
                    Some((x, n)) => Some(Some((ParseFArg::Arg(Value::U16(x as u16), f), n, n != s.len()))),
                }
            } else {
                None
            },
            Value::U32(_) => if is_plain(&f) {
                match int_outcome(s, radix_of(&f), u32::MIN as int, u32::MAX as int) {
                    None => Some(None),
                    Some((x, n)) => Some(Some((ParseFArg::Arg(Value::U32(x as u32), f), n, n != s.len()))),
                }
            } else {
                None
            },
            Value::U64(_) => if is_plain(&f) {
                match int_outcome(s, radix_of(&f), u64::MIN as int, u64::MAX as int) {
                    None => Some(None),
                    Some((x, n)) => Some(Some((ParseFArg::Arg(Value::U64(x as u64), f), n, n != s.len()))),
                }
            } else {
                None
            },
            Value::Usize(_) => if is_plain(&f) {
                match int_outcome(s, radix_of(&f), usize::MIN as int, usize::MAX as int) {
                    None => Some(None),
                    Some((x, n)) => Some(Some((ParseFArg::Arg(Value::Usize(x as usize), f), n, n != s.len()))),
                }
            } else {
                None
            },
            Value::I8(_) => if is_plain(&f) {
                match int_outcome(s, radix_of(&f), i8::MIN as int, i8::MAX as int) {
                    None => Some(None),
                    Some((x, n)) => Some(Some((ParseFArg::Arg(Value::I8(x as i8), f), n, n != s.len()))),
                }
            } else {
                None
            },
            Value::I16(_) => if is_plain(&f) {
                match int_outcome(s, radix_of(&f), i16::MIN as int, i16::MAX as int) {
                    None => Some(None),
                    Some((x, n)) => Some(Some((ParseFArg::Arg(Value::I16(x as i16), f), n, n != s.len()))),
                }
            } else {
                None
            },
            Value::I32(_) => if is_plain(&f) {
                match int_outcome(s, radix_of(&f), i32::MIN as int, i32::MAX as int) {
                    None => Some(None),
                    Some((x, n)) => Some(Some((ParseFArg::Arg(Value::I32(x as i32), f), n, n != s.len()))),
                }
            } else {
                None
            },
            Value::I64(_) => if is_plain(&f) {
                match int_outcome(s, radix_of(&f), i64::MIN as int, i64::MAX as int) {
                    None => Some(None),
                    Some((x, n)) => Some(Some((ParseFArg::Arg(Value::I64(x as i64), f), n, n != s.len()))),
                }
            } else {
                None
            },
            Value::Isize(_) => if is_plain(&f) {
                match int_outcome(s, radix_of(&f), isize::MIN as int, isize::MAX as int) {
                    None => Some(None),
                    Some((x, n)) => Some(Some((ParseFArg::Arg(Value::Isize(x as isize), f), n, n != s.len()))),
                }
            } else {
                None
            },
            Value::Bool(_) => match bool_outcome(s) {
                None => Some(None),
                Some((b, n)) => Some(Some((ParseFArg::Arg(Value::Bool(b), f), n, false))),
            },
            Value::Char(_) => if s.len() > 0 {
                Some(Some((ParseFArg::Arg(Value::Char(s[0]), f), 1, false)))
            } else {
                Some(None)
            },
            Value::Ipv4(_) => match ipv4_text(s) {
                None => Some(None),
                Some((ip, n)) => Some(Some((ParseFArg::Arg(Value::Ipv4(ip), f), n, n != s.len()))),
            },
            Value::SocketV4(_) => match socket_text(s) {
                None => Some(None),
                Some((sa, n)) => Some(Some((ParseFArg::Arg(Value::SocketV4(sa), f), n, n != s.len()))),
            },
            _ => None,
        },
        ParseFArg::Ranged(..) => None,
    }
}

/// What running instructions on a text gives.
pub enum Outcome {
    /// The pattern fails.
    Fails,
    /// An instruction whose effect is not stated was reached.
    Unknown,
    /// The pattern succeeds with these instructions and values, taking this
    /// many characters, with a trailing error or not.
    Done(Seq<ParseFArg>, nat, bool),
}

/// What running `args` on the text `s` gives.
pub open spec fn engine(args: Seq<ParseFArg>, s: Seq<char>) -> Outcome
    decreases args.len(),
{
    if args.len() == 0 {
        Outcome::Done(Seq::empty(), 0, false)
    } else {
        match engine(args.drop_last(), s) {
            Outcome::Done(vals, n, t) => if n <= s.len() {
                match slot_step(args.last(), s.skip(n as int)) {
                    None => Outcome::Unknown,
                    Some(None) => Outcome::Fails,
                    Some(Some((a, m, t2))) => Outcome::Done(vals.push(a), n + m, t2),
                }
            } else {
                Outcome::Unknown
            },
            other => other,
        }
    }
}

/// Decodes into `target` and, when it holds an integer, requires it to lie
/// in `range`; a value outside it is an error that marks it.
pub fn set_in_range(range: &InRange, target: &mut Value, r: &mut Reader, fmt: &ReadFmt) -> (res: Result<
    Option<ArgError>,
    ArgError,
>)
    requires
        old(r).well_formed(),
        fmt.well_formed(),
        fmt.parsed().length_range matches Some((lo, hi)) ==> lo <= hi,
    ensures
        final(r).well_formed(),
        old(r).keeps_source(final(r)),
        same_kind(*old(target), *final(target)),
        res is Ok ==> match int_of(*final(target)) {
            Some(x) => in_range(range.start, range.end, x),
            None => true,
        },
    decreases depth(*old(target)), 2nat,
{
    let start_pos = r.pos();
    let t = match target.set_from_read(r, fmt) {
        Ok(t) => t,
        Err(e) => return Err(e),
    };
    match int_value(target) {
        Some(v) => {
            if range.contains(v) {
                Ok(t)
            } else {
                let text = print_range_bounds(range.start, range.end);
                let mut msg = owned("Value must be ");
                push_str(&mut msg, text.as_str());
                push_str(&mut msg, ".");
                let mut long = owned("Invalid value `");
                push_signed(&mut long, v);
                push_str(&mut long, "`. Value must be ");
                push_str(&mut long, text.as_str());
                push_str(&mut long, ".");
                Err(r.err_value(msg).span_start(start_pos).long_msg(long))
            }
        },
        None => Ok(t),
    }
}

/// The same instruction, with a value of the same type.
pub open spec fn same_instruction(a: ParseFArg, b: ParseFArg) -> bool {
    match (a, b) {
        (ParseFArg::Str(x), ParseFArg::Str(y)) => x == y,
        (ParseFArg::Arg(x, f), ParseFArg::Arg(y, g)) => same_kind(x, y) && f == g,
        (ParseFArg::Ranged(x, f, p), ParseFArg::Ranged(y, g, q)) => same_kind(x, y) && f == g && p == q,
        _ => false,
    }
}

/// Runs one instruction; returns it with its new value, and its outcome.
#[verifier::rlimit(40)]
fn run_step(a: ParseFArg, r: &mut Reader) -> (ret: (ParseFArg, Result<Option<ArgError>, ArgError>))
    requires
        old(r).well_formed(),
        args_well_formed(seq![a]),
    ensures
        final(r).well_formed(),
        old(r).keeps_source(final(r)),
        same_instruction(a, ret.0),
        old(r).is_text() ==> match slot_step(a, old(r).rest()) {
            None => true,
            Some(None) => ret.1 is Err,
            Some(Some((a2, k, t2))) => ret.1 is Ok && ret.0 == a2 && old(r).advanced_text(final(r), k) && (
            ret.1->Ok_0 is Some <==> t2),
        },
    decreases arg_depth(a), 3nat,
{
    reveal(slot_step);
    assert(seq![a][0] == a);
    match a {
        ParseFArg::Arg(v, fmt) => {
            let mut v = v;
            let res = v.set_from_read(r, &fmt);
            (ParseFArg::Arg(v, fmt), res)
        },
        ParseFArg::Ranged(v, fmt, range) => {
            let mut v = v;
            let res = set_in_range(&range, &mut v, r, &fmt);
            (ParseFArg::Ranged(v, fmt, range), res)
        },
        ParseFArg::Str(s) => {
            let res = match r.expect(s.as_str()) {
                Ok(()) => Ok(None),
                Err(e) => Err(e),
            };
            (ParseFArg::Str(s), res)
        },
    }
}

/// Moves the items of `v` into a vector in reverse order.
fn reversed(v: &mut Vec<ParseFArg>) -> (r: Vec<ParseFArg>)
    ensures
        final(v)@.len() == 0,
        r@ == old(v)@.reverse(),
{
    let mut r: Vec<ParseFArg> = Vec::new();
    while v.len() > 0
        invariant
            old(v)@ == v@ + r@.reverse(),
        decreases v@.len(),
    {
        let ghost before = v@;
        let x = v.pop().unwrap();
        r.push(x);
        proof {
            assert(r@.reverse() =~= seq![x] + r@.drop_last().reverse());
            assert(before =~= v@ + seq![x]);
            assert(old(v)@ =~= v@ + r@.reverse());
        }
    }
    proof {
        assert(r@.reverse() =~= old(v)@);
        assert(r@ =~= old(v)@.reverse());
    }
    r
}

/// Runs the instructions against `r`: literals must match, slots are decoded
/// into their values. Stops at the first error. Returns the trailing error of
/// the last slot, if the last instruction was a slot.
pub fn parsef_part(r: &mut Reader, args: &mut Vec<ParseFArg>) -> (res: Result<Option<ArgError>, ArgError>)
    requires
        old(r).well_formed(),
        args_well_formed(old(args)@),
    ensures
        final(r).well_formed(),
        old(r).keeps_source(final(r)),
        same_shape(old(args)@, final(args)@),
        old(r).is_text() ==> match engine(old(args)@, old(r).rest()) {
            Outcome::Fails => res is Err,
            Outcome::Done(vals, n, t) => res is Ok && final(args)@ == vals && old(r).advanced_text(final(r), n) && (
            res->Ok_0 is Some <==> t),
            Outcome::Unknown => true,
        },
    decreases max_depth(old(args)@), 4nat,
{
    let ghost orig = args@;
    let ghost s0 = old(r).rest();
    let ghost mut consumed: nat = 0;
    let n = args.len();
    let mut rest = reversed(args);
    let mut last_err: Option<ArgError> = None;
    let mut failure: Option<ArgError> = None;
    let mut i: usize = 0;
    proof {
        assert(args@ =~= Seq::<ParseFArg>::empty());
        if old(r).is_text() {
            assert(s0.skip(0) =~= s0);
            assert(orig.take(0) =~= Seq::<ParseFArg>::empty());
        }
    }
    while i < n
        invariant
            r.well_formed(),
            old(r).keeps_source(r),
            s0 == old(r).rest(),
            old(r).is_text() && failure is None ==> engine(orig.take(i as int), s0) is Unknown || (engine(
                orig.take(i as int),
                s0,
            ) == Outcome::Done(args@, consumed, last_err is Some) && consumed <= s0.len() && old(r).advanced_text(
                r,
                consumed,
            )),
            old(r).is_text() && failure is Some ==> engine(orig.take(i as int), s0) is Fails || engine(
                orig.take(i as int),
                s0,
            ) is Unknown,
            n == orig.len(),
            orig == old(args)@,
            i <= n,
            args@.len() == i,
            rest@.len() == n - i,
            forall|j: int| 0 <= j < n - i ==> #[trigger] rest@[j] == orig[n - 1 - j],
            same_shape(orig.take(i as int), args@),
            args_well_formed(orig),
        decreases n - i,
    {
        proof {
            lemma_max_depth(orig, i as int);
        }
        let ghost before = args@;
        let ghost r_before = *r;
        let ghost failed_before = failure is Some;
        let a0 = rest.pop().unwrap();
        proof {
            assert(a0 == orig[i as int]);
            assert(orig.take(i + 1).drop_last() =~= orig.take(i as int));
            assert(orig.take(i + 1).last() == a0);
        }
        let a = if failure.is_none() {
            proof {
                assert(arg_depth(a0) <= max_depth(old(args)@));
            }
            let (a, res) = run_step(a0, r);
            match res {
                Ok(t) => {
                    last_err = t;
                },
                Err(e) => {
                    failure = Some(e);
                },
            }
            a
        } else {
            a0
        };
        args.push(a);
        proof {
            if old(r).is_text() && !failed_before && engine(orig.take(i as int), s0) is Done {
                assert(r_before.rest() == s0.skip(consumed as int));
                match slot_step(a0, s0.skip(consumed as int)) {
                    Some(Some((a2, k, t2))) => {
                        assert(r.rest() == s0.skip(consumed as int).skip(k as int));
                        assert(s0.skip(consumed as int).skip(k as int) =~= s0.skip((consumed + k) as int));
                        assert(a == a2);
                        assert(args@ =~= before.push(a2));
                        consumed = consumed + k;
                    },
                    _ => {},
                }
            }
        }
        proof {
            assert forall|j: int| 0 <= j < i + 1 implies match (#[trigger] orig.take(i + 1)[j], args@[j]) {
                (ParseFArg::Str(a), ParseFArg::Str(b)) => a == b,
                (ParseFArg::Arg(a, f), ParseFArg::Arg(b, g)) => same_kind(a, b) && f == g,
                (ParseFArg::Ranged(a, f, x), ParseFArg::Ranged(b, g, y)) => same_kind(a, b) && f == g && x == y,
                _ => false,
            } by {
                if j < i {
                    assert(orig.take(i + 1)[j] == orig.take(i as int)[j]);
                    assert(args@[j] == before[j]);
                }
            }
        }
        i = i + 1;
    }
    proof {
        assert(orig.take(n as int) =~= orig);
    }
    match failure {
        Some(e) => Err(e),
        None => Ok(last_err),
    }
}

/// `e` reports input left over: an "Unused input" parse error about the
/// whole text read, if the source is text.
pub open spec fn unused_input_error(e: ArgError, text: Option<Seq<char>>) -> bool {
    &&& e.ctx().kind == crate::err::ArgErrKind::FailedToParse
    &&& e.ctx().inline_msg matches Some(m) && m@ == "Unused input"@
    &&& e.ctx().args@.len() == 1
    &&& text matches Some(t) ==> e.ctx().args@[0]@ == t
}

/// Runs the instructions against `r` as [`parsef_part`] does, and then
/// requires all of `r` to be read. If it is not, the trailing error of the
/// last slot is returned, or else an "Unused input" error.
pub fn parsef(r: &mut Reader, args: &mut Vec<ParseFArg>) -> (res: Result<(), ArgError>)
    requires
        old(r).well_formed(),
        args_well_formed(old(args)@),
    ensures
        final(r).well_formed(),
        old(r).keeps_source(final(r)),
        same_shape(old(args)@, final(args)@),
        old(r).is_text() && res is Ok ==> final(r).rest().len() == 0,
        old(r).is_text() ==> match engine(old(args)@, old(r).rest()) {
            Outcome::Fails => res is Err,
            Outcome::Done(vals, n, t) => final(args)@ == vals && (res is Ok <==> n == old(r).rest().len()) && (!t
                && n != old(r).rest().len() ==> unused_input_error(res->Err_0, old(r).source_text())),
            Outcome::Unknown => true,
        },
{
    let part = parsef_part(r, args);
    let trailing = match part {
        Ok(t) => t,
        Err(e) => return Err(e),
    };
    match r.peek() {
        Ok(None) => Ok(()),
        Ok(Some(_)) => match trailing {
            Some(e) => Err(e),
            None => Err(r.err_parse_peek(owned("Unused input"))),
        },
        Err(e) => Err(e),
    }
}

/// An octet in decimal at the start of `s`, and the characters it takes.
pub open spec fn octet_prefix(s: Seq<char>) -> Option<(u8, nat)> {
    match int_outcome(s, 10, 0, 255) {
        Some((v, n)) => Some((v as u8, n)),
        None => None,
    }
}

/// An octet and a `.` after it at the start of `s`, and the characters they take.
pub open spec fn octet_dot(s: Seq<char>) -> Option<(u8, nat)> {
    match octet_prefix(s) {
        Some((v, n)) => if n < s.len() && s[n as int] == '.' {
            Some((v, n + 1))
        } else {
            None
        },
        None => None,
    }
}

/// An IPv4 address `a.b.c.d` at the start of `s`, and the characters it takes.
#[verifier::opaque]
pub open spec fn ipv4_text(s: Seq<char>) -> Option<(Ipv4, nat)> {
    match octet_dot(s) {
        None => None,
        Some((a, n1)) => match octet_dot(s.skip(n1 as int)) {
            None => None,
            Some((b, n2)) => match octet_dot(s.skip((n1 + n2) as int)) {
                None => None,
                Some((c, n3)) => match octet_prefix(s.skip((n1 + n2 + n3) as int)) {
                    None => None,
                    Some((d, n4)) => Some((Ipv4 { a, b, c, d }, n1 + n2 + n3 + n4)),
                },
            },
        },
    }
}

/// A slot for an octet in decimal.
pub open spec fn is_octet_slot(a: ParseFArg) -> bool {
    a matches ParseFArg::Arg(Value::U8(_), f) && is_plain(&f) && radix_of(&f) == 10
}

/// A literal `.`.
pub open spec fn is_dot(a: ParseFArg) -> bool {
    a matches ParseFArg::Str(x) && x@ == "."@
}

pub open spec fn is_ipv4_pattern(p: Seq<ParseFArg>) -> bool {
    &&& p.len() == 7
    &&& is_octet_slot(p[0]) && is_dot(p[1]) && is_octet_slot(p[2]) && is_dot(p[3])
    &&& is_octet_slot(p[4]) && is_dot(p[5]) && is_octet_slot(p[6])
}

/// The octet a slot holds.
pub open spec fn octet_of(a: ParseFArg) -> u8 {
    match a {
        ParseFArg::Arg(Value::U8(x), _) => x,
        _ => 0,
    }
}

proof fn lemma_octet_len(s: Seq<char>)
    ensures
        octet_prefix(s) matches Some((_, n)) ==> 1 <= n <= s.len(),
{
    crate::integer::lemma_leading_digits(s, 10);
}

proof fn lemma_octet_step(a: ParseFArg, s: Seq<char>)
    requires
        is_octet_slot(a),
    ensures
        match octet_prefix(s) {
            None => slot_step(a, s) == Some(None::<(ParseFArg, nat, bool)>),
            Some((v, n)) => slot_step(a, s) matches Some(Some((a2, k, t))) && k == n && octet_of(a2) == v
                && is_octet_slot(a2) && t == (n != s.len()),
        },
{
    reveal(slot_step);
}

proof fn lemma_dot_step(a: ParseFArg, s: Seq<char>)
    requires
        is_dot(a),
    ensures
        if s.len() > 0 && s[0] == '.' {
            slot_step(a, s) matches Some(Some((a2, k, t))) && a2 == a && k == 1 && !t
        } else {
            slot_step(a, s) == Some(None::<(ParseFArg, nat, bool)>)
        },
{
    reveal(slot_step);
    reveal_strlit(".");
    if s.len() > 0 && s[0] == '.' {
        assert(s.take(1) =~= "."@);
    } else if s.len() > 0 {
        assert(s.take(1)[0] == s[0]);
    }
}

proof fn lemma_engine_step(p: Seq<ParseFArg>, s: Seq<char>, k: int)
    requires
        1 <= k <= p.len(),
    ensures
        engine(p.take(k), s) == match engine(p.take(k - 1), s) {
            Outcome::Done(vals, n, t) => if n <= s.len() {
                match slot_step(p[k - 1], s.skip(n as int)) {
                    None => Outcome::Unknown,
                    Some(None) => Outcome::Fails,
                    Some(Some((a, m, t2))) => Outcome::Done(vals.push(a), n + m, t2),
                }
            } else {
                Outcome::Unknown
            },
            other => other,
        },
{
    assert(p.take(k).drop_last() =~= p.take(k - 1));
    assert(p.take(k).last() == p[k - 1]);
}

proof fn lemma_fails_stay(p: Seq<ParseFArg>, s: Seq<char>, k: int, j: int)
    requires
        0 <= k <= j <= p.len(),
        engine(p.take(k), s) is Fails,
    ensures
        engine(p.take(j), s) is Fails,
    decreases j - k,
{
    if j > k {
        lemma_fails_stay(p, s, k, j - 1);
        lemma_engine_step(p, s, j);
    }
}

/// An octet slot and a dot after a successful prefix.
proof fn lemma_octet_dot_pair(p: Seq<ParseFArg>, s: Seq<char>, k: int)
    requires
        0 <= k,
        k + 2 <= p.len(),
        is_octet_slot(p[k]),
        is_dot(p[k + 1]),
        engine(p.take(k), s) matches Outcome::Done(_, n, _) && n <= s.len(),
    ensures
        ({
            let (vals, n) = match engine(p.take(k), s) {
                Outcome::Done(v, n, _) => (v, n),
                _ => (Seq::empty(), 0nat),
            };
            match octet_dot(s.skip(n as int)) {
                None => engine(p.take(k + 2), s) is Fails,
                Some((v, m)) => engine(p.take(k + 2), s) matches Outcome::Done(vals2, n2, t2) && vals2.len()
                    == vals.len() + 2 && vals2.take(vals.len() as int) == vals && octet_of(vals2[vals.len() as int])
                    == v && n2 == n + m && n2 <= s.len() && !t2,
            }
        }),
{
    let (vals, n) = match engine(p.take(k), s) {
        Outcome::Done(v, n, _) => (v, n),
        _ => (Seq::empty(), 0nat),
    };
    let s1 = s.skip(n as int);
    lemma_engine_step(p, s, k + 1);
    lemma_engine_step(p, s, k + 2);
    lemma_octet_step(p[k], s1);
    lemma_octet_len(s1);
    match octet_prefix(s1) {
        None => {},
        Some((v, m1)) => {
            let s2 = s.skip((n + m1) as int);
            assert(s2 =~= s1.skip(m1 as int));
            lemma_dot_step(p[k + 1], s2);
            if s2.len() > 0 {
                assert(s2[0] == s1[m1 as int]);
            }
            match engine(p.take(k + 2), s) {
                Outcome::Done(vals2, _, _) => {
                    assert(vals2.take(vals.len() as int) =~= vals);
                },
                _ => {},
            }
        },
    }
}

/// Running the IPv4 pattern on `s` gives the address at its start, if any.
#[verifier::rlimit(50)]
proof fn lemma_ipv4_engine(p: Seq<ParseFArg>, s: Seq<char>)
    requires
        is_ipv4_pattern(p),
    ensures
        match ipv4_text(s) {
            None => engine(p, s) is Fails,
            Some((ip, n)) => engine(p, s) matches Outcome::Done(vals, m, t) && m == n && t == (n != s.len())
                && vals.len() == 7 && octet_of(vals[0]) == ip.a && octet_of(vals[2]) == ip.b && octet_of(vals[4])
                == ip.c && octet_of(vals[6]) == ip.d,
        },
{
    reveal(ipv4_text);
    assert(p.take(7) =~= p);
    assert(engine(p.take(0), s) == Outcome::Done(Seq::empty(), 0, false)) by {
        assert(p.take(0).len() == 0);
    }
    assert(s.skip(0) =~= s);
    lemma_octet_dot_pair(p, s, 0);
    match octet_dot(s) {
        None => {
            lemma_fails_stay(p, s, 2, 7);
        },
        Some((a, n1)) => {
            lemma_octet_dot_pair(p, s, 2);
            match octet_dot(s.skip(n1 as int)) {
                None => {
                    lemma_fails_stay(p, s, 4, 7);
                },
                Some((b, n2)) => {
                    lemma_octet_dot_pair(p, s, 4);
                    match octet_dot(s.skip((n1 + n2) as int)) {
                        None => {
                            lemma_fails_stay(p, s, 6, 7);
                        },
                        Some((c, n3)) => {
                            let s4 = s.skip((n1 + n2 + n3) as int);
                            lemma_engine_step(p, s, 7);
                            lemma_octet_step(p[6], s4);
                            match engine(p.take(6), s) {
                                Outcome::Done(v6, _, _) => {
                                    match engine(p.take(4), s) {
                                        Outcome::Done(v4, _, _) => {
                                            match engine(p.take(2), s) {
                                                Outcome::Done(v2, _, _) => {
                                                    assert(v6[0] == v6.take(4)[0]);
                                                    assert(v6.take(4)[0] == v4[0]);
                                                    assert(v4[0] == v4.take(2)[0]);
                                                    assert(v6[2] == v6.take(4)[2]);
                                                },
                                                _ => {},
                                            }
                                        },
                                        _ => {},
                                    }
                                },
                                _ => {},
                            }
                        },
                    }
                },
            }
        },
    }
}

/// A port in decimal at the start of `s`, and the characters it takes.
pub open spec fn port_prefix(s: Seq<char>) -> Option<(u16, nat)> {
    match int_outcome(s, 10, 0, 65535) {
        Some((v, n)) => Some((v as u16, n)),
        None => None,
    }
}

/// A socket address `a.b.c.d:port` at the start of `s`, and the characters it takes.
pub open spec fn socket_text(s: Seq<char>) -> Option<(SocketV4, nat)> {
    match ipv4_text(s) {
        None => None,
        Some((ip, n1)) => if n1 < s.len() && s[n1 as int] == ':' {
            match port_prefix(s.skip((n1 + 1) as int)) {
                None => None,
                Some((port, n2)) => Some((SocketV4 { ip, port }, n1 + 1 + n2)),
            }
        } else {
            None
        },
    }
}

/// Running the socket address pattern on `s` gives the address at its start, if any.
proof fn lemma_socket_engine(p: Seq<ParseFArg>, s: Seq<char>)
    requires
        p.len() == 3,
        p[0] matches ParseFArg::Arg(Value::Ipv4(_), f) && is_plain(&f),
        p[1] matches ParseFArg::Str(x) && x@ == ":"@,
        p[2] matches ParseFArg::Arg(Value::U16(_), f) && is_plain(&f) && radix_of(&f) == 10,
    ensures
        match socket_text(s) {
            None => engine(p, s) is Fails,
            Some((sa, n)) => engine(p, s) matches Outcome::Done(vals, m, t) && m == n && t == (n != s.len())
                && vals.len() == 3 && vals[0] == ParseFArg::Arg(Value::Ipv4(sa.ip), p[0]->Arg_1) && vals[2]
                == ParseFArg::Arg(Value::U16(sa.port), p[2]->Arg_1),
        },
{
    reveal(slot_step);
    reveal_strlit(":");
    assert(p.take(3) =~= p);
    assert(engine(p.take(0), s) == Outcome::Done(Seq::empty(), 0, false)) by {
        assert(p.take(0).len() == 0);
    }
    assert(s.skip(0) =~= s);
    lemma_engine_step(p, s, 1);
    lemma_engine_step(p, s, 2);
    lemma_engine_step(p, s, 3);
    lemma_ipv4_len(s);
    match ipv4_text(s) {
        None => {},
        Some((ip, n1)) => {
            let s1 = s.skip(n1 as int);
            if s1.len() > 0 {
                assert(s1[0] == s[n1 as int]);
                assert(s1.take(1)[0] == s1[0]);
            }
            if n1 < s.len() && s[n1 as int] == ':' {
                assert(s1.take(1) =~= ":"@);
                let s2 = s.skip((n1 + 1) as int);
                assert(s2 =~= s1.skip(1));
                crate::integer::lemma_leading_digits(s2, 10);
            }
        },
    }
}

proof fn lemma_ipv4_len(s: Seq<char>)
    ensures
        ipv4_text(s) matches Some((_, n)) ==> n <= s.len(),
{
    reveal(ipv4_text);
    lemma_octet_len(s);
    match octet_dot(s) {
        None => {},
        Some((_, n1)) => {
            lemma_octet_len(s.skip(n1 as int));
            match octet_dot(s.skip(n1 as int)) {
                None => {},
                Some((_, n2)) => {
                    assert(s.skip(n1 as int).skip(n2 as int) =~= s.skip((n1 + n2) as int));
                    lemma_octet_len(s.skip((n1 + n2) as int));
                    match octet_dot(s.skip((n1 + n2) as int)) {
                        None => {},
                        Some((_, n3)) => {
                            lemma_octet_len(s.skip((n1 + n2 + n3) as int));
                        },
                    }
                },
            }
        },
    }
}

/// The pattern of an IPv4 address: four octets separated by dots.
fn ipv4_pattern() -> (r: Vec<ParseFArg>)
    ensures
        args_well_formed(r@),
        max_depth(r@) == 0,
        is_ipv4_pattern(r@),
{
    let mut v = Vec::new();
    v.push(ParseFArg::Arg(Value::U8(0), ReadFmt::empty()));
    v.push(ParseFArg::Str(owned(".")));
    v.push(ParseFArg::Arg(Value::U8(0), ReadFmt::empty()));
    v.push(ParseFArg::Str(owned(".")));
    v.push(ParseFArg::Arg(Value::U8(0), ReadFmt::empty()));
    v.push(ParseFArg::Str(owned(".")));
    v.push(ParseFArg::Arg(Value::U8(0), ReadFmt::empty()));
    proof {
        reveal_with_fuel(max_depth, 8);
        reveal_strlit(".");
    }
    v
}

fn octet(a: &ParseFArg) -> (r: u8)
    ensures
        r == octet_of(*a),
{
    match a {
        ParseFArg::Arg(Value::U8(x), _) => *x,
        _ => 0,
    }
}

/// Reads an IPv4 address, `a.b.c.d`, through the pattern engine.
pub fn read_ipv4(r: &mut Reader) -> (res: Result<(Ipv4, Option<ArgError>), ArgError>)
    requires
        old(r).well_formed(),
    ensures
        final(r).well_formed(),
        old(r).keeps_source(final(r)),
        old(r).is_text() ==> match ipv4_text(old(r).rest()) {
            None => res is Err,
            Some((ip, n)) => (res matches Ok((x, t)) && x == ip && (t is Some <==> n != old(r).rest().len()))
                && old(r).advanced_text(final(r), n),
        },
    decreases 1nat, 0nat,
{
    let mut args = ipv4_pattern();
    proof {
        lemma_ipv4_engine(args@, old(r).rest());
    }
    match parsef_part(r, &mut args) {
        Ok(t) => {
            let ip = Ipv4 { a: octet(&args[0]), b: octet(&args[2]), c: octet(&args[4]), d: octet(&args[6]) };
            Ok((ip, t))
        },
        Err(e) => Err(e),
    }
}

/// Reads an IPv4 socket address, `a.b.c.d:port`, through the pattern engine.
pub fn read_socket_v4(r: &mut Reader) -> (res: Result<(SocketV4, Option<ArgError>), ArgError>)
    requires
        old(r).well_formed(),
    ensures
        final(r).well_formed(),
        old(r).keeps_source(final(r)),
        old(r).is_text() ==> match socket_text(old(r).rest()) {
            None => res is Err,
            Some((sa, n)) => (res matches Ok((x, t)) && x == sa && (t is Some <==> n != old(r).rest().len()))
                && old(r).advanced_text(final(r), n),
        },
    decreases 2nat, 0nat,
{
    let mut args: Vec<ParseFArg> = Vec::new();
    args.push(ParseFArg::Arg(Value::Ipv4(Ipv4 { a: 0, b: 0, c: 0, d: 0 }), ReadFmt::empty()));
    args.push(ParseFArg::Str(owned(":")));
    args.push(ParseFArg::Arg(Value::U16(0), ReadFmt::empty()));
    proof {
        reveal_with_fuel(max_depth, 4);
        reveal_strlit(":");
        lemma_socket_engine(args@, old(r).rest());
    }
    match parsef_part(r, &mut args) {
        Ok(t) => {
            let ip = match &args[0] {
                ParseFArg::Arg(Value::Ipv4(ip), _) => *ip,
                _ => Ipv4 { a: 0, b: 0, c: 0, d: 0 },
            };
            let port = match &args[2] {
                ParseFArg::Arg(Value::U16(p), _) => *p,
                _ => 0,
            };
            Ok((SocketV4 { ip, port }, t))
        },
        Err(e) => Err(e),
    }
}

} // verus!
