//! Checks applied to values as they are decoded.

use vstd::prelude::*;

use crate::err::ArgError;
use crate::fmt::ReadFmt;
use crate::parsef::Value;
use crate::reader::Reader;
use crate::text::{push_signed, push_str, signed_decimal};

verus! {

/// One end of a range of integers.
#[derive(Debug, Clone, Copy, PartialEq, Eq, Structural)]
pub enum RangeBound {
    Included(i128),
    Excluded(i128),
    Unbounded,
}

/// A range of integers that a decoded value must lie in.
#[derive(Debug, Clone, Copy, PartialEq, Eq, Structural)]
pub struct InRange {
    pub start: RangeBound,
    pub end: RangeBound,
}

/// The words that describe a range.
pub open spec fn range_text(start: RangeBound, end: RangeBound) -> Seq<char> {
    match (start, end) {
        (RangeBound::Excluded(s), RangeBound::Excluded(e)) => "in exclusive range from `"@ + signed_decimal(s as int)
            + "` to `"@ + signed_decimal(e as int) + "`"@,
        (RangeBound::Excluded(s), RangeBound::Included(e)) => "in range from `"@ + signed_decimal(s as int)
            + "` (exclusive) to `"@ + signed_decimal(e as int) + "` (inclusive)"@,
        (RangeBound::Excluded(s), RangeBound::Unbounded) => "larger than `"@ + signed_decimal(s as int) + "`"@,
        (RangeBound::Included(s), RangeBound::Excluded(e)) => "in range from `"@ + signed_decimal(s as int) + "` to `"@
            + signed_decimal(e as int) + "`"@,
        (RangeBound::Included(s), RangeBound::Included(e)) => "in inclusive range from `"@ + signed_decimal(s as int)
            + "` to `"@ + signed_decimal(e as int) + "`"@,
        (RangeBound::Included(s), RangeBound::Unbounded) => "larger or equal to `"@ + signed_decimal(s as int) + "`"@,
        (RangeBound::Unbounded, RangeBound::Excluded(e)) => "smaller than `"@ + signed_decimal(e as int) + "`"@,
        (RangeBound::Unbounded, RangeBound::Included(e)) => "smaller or equal to `"@ + signed_decimal(e as int) + "`"@,
        (RangeBound::Unbounded, RangeBound::Unbounded) => "unbounded"@,
    }
}

/// Describes the range `start..end` in words.
pub fn print_range_bounds(start: RangeBound, end: RangeBound) -> (r: String)
    ensures
        r@ == range_text(start, end),
{
    let mut r = String::new();
    match (start, end) {
        (RangeBound::Excluded(s), RangeBound::Excluded(e)) => {
            push_str(&mut r, "in exclusive range from `");
            push_signed(&mut r, s);
            push_str(&mut r, "` to `");
            push_signed(&mut r, e);
            push_str(&mut r, "`");
        },
        (RangeBound::Excluded(s), RangeBound::Included(e)) => {
            push_str(&mut r, "in range from `");
            push_signed(&mut r, s);
            push_str(&mut r, "` (exclusive) to `");
            push_signed(&mut r, e);
            push_str(&mut r, "` (inclusive)");
        },
        (RangeBound::Excluded(s), RangeBound::Unbounded) => {
            push_str(&mut r, "larger than `");
            push_signed(&mut r, s);
            push_str(&mut r, "`");
        },
        (RangeBound::Included(s), RangeBound::Excluded(e)) => {
            push_str(&mut r, "in range from `");
            push_signed(&mut r, s);
            push_str(&mut r, "` to `");
            push_signed(&mut r, e);
            push_str(&mut r, "`");
        },
        (RangeBound::Included(s), RangeBound::Included(e)) => {
            push_str(&mut r, "in inclusive range from `");
            push_signed(&mut r, s);
            push_str(&mut r, "` to `");
            push_signed(&mut r, e);
            push_str(&mut r, "`");
        },
        (RangeBound::Included(s), RangeBound::Unbounded) => {
            push_str(&mut r, "larger or equal to `");
            push_signed(&mut r, s);
            push_str(&mut r, "`");
        },
        (RangeBound::Unbounded, RangeBound::Excluded(e)) => {
            push_str(&mut r, "smaller than `");
            push_signed(&mut r, e);
            push_str(&mut r, "`");
        },
        (RangeBound::Unbounded, RangeBound::Included(e)) => {
            push_str(&mut r, "smaller or equal to `");
            push_signed(&mut r, e);
            push_str(&mut r, "`");
        },
        (RangeBound::Unbounded, RangeBound::Unbounded) => {
            push_str(&mut r, "unbounded");
        },
    }
    assert(r@ =~= range_text(start, end));
    r
}

/// Whether `v` lies in the range.
pub open spec fn in_range(start: RangeBound, end: RangeBound, v: int) -> bool {
    &&& match start {
        RangeBound::Included(s) => s <= v,
        RangeBound::Excluded(s) => s < v,
        RangeBound::Unbounded => true,
    }
    &&& match end {
        RangeBound::Included(e) => v <= e,
        RangeBound::Excluded(e) => v < e,
        RangeBound::Unbounded => true,
    }
}

/// The integer a value holds, if it is an integer.
pub open spec fn int_of(v: Value) -> Option<int> {
    match v {
        Value::U8(x) => Some(x as int),
        Value::U16(x) => Some(x as int),
        Value::U32(x) => Some(x as int),
        Value::U64(x) => Some(x as int),
        Value::Usize(x) => Some(x as int),
        Value::I8(x) => Some(x as int),
        Value::I16(x) => Some(x as int),
        Value::I32(x) => Some(x as int),
        Value::I64(x) => Some(x as int),
        Value::Isize(x) => Some(x as int),
        _ => None,
    }
}

/// The integer a value holds, if it is an integer.
pub fn int_value(v: &Value) -> (r: Option<i128>)
    ensures
        match int_of(*v) {
            Some(x) => r == Some(x as i128) && x == r->0 as int,
            None => r is None,
        },
{
    match v {
        Value::U8(x) => Some(*x as i128),
        Value::U16(x) => Some(*x as i128),
        Value::U32(x) => Some(*x as i128),
        Value::U64(x) => Some(*x as i128),
        Value::Usize(x) => Some(*x as i128),
        Value::I8(x) => Some(*x as i128),
        Value::I16(x) => Some(*x as i128),
        Value::I32(x) => Some(*x as i128),
        Value::I64(x) => Some(*x as i128),
        Value::Isize(x) => Some(*x as i128),
        _ => None,
    }
}

impl InRange {
    /// Whether `v` lies in this range.
    pub fn contains(&self, v: i128) -> (r: bool)
        ensures
            r == in_range(self.start, self.end, v as int),
    {
        let lo = match self.start {
            RangeBound::Included(s) => s <= v,
            RangeBound::Excluded(s) => s < v,
            RangeBound::Unbounded => true,
        };
        let hi = match self.end {
            RangeBound::Included(e) => v <= e,
            RangeBound::Excluded(e) => v < e,
            RangeBound::Unbounded => true,
        };
        lo && hi
    }

    /// Decodes into `target` and, when it holds an integer, requires it to lie
    /// in this range; a value outside it is an error that marks it.
    pub fn set_from_read(&self, target: &mut Value, r: &mut Reader, fmt: &ReadFmt) -> (res: Result<
        Option<ArgError>,
        ArgError,
    >)
        requires
            old(r).well_formed(),
            fmt.well_formed(),
            fmt.parsed().length_range matches Some((lo, hi)) ==> lo <= hi,
        ensures
            final(r).well_formed(),
            old(r).keeps_source(final(r)),
            crate::parsef::same_kind(*old(target), *final(target)),
            res is Ok ==> match int_of(*final(target)) {
                Some(x) => in_range(self.start, self.end, x),
                None => true,
            },
    {
        crate::parsef::set_in_range(self, target, r, fmt)
    }
}

/// An integer checked to lie in `start..end` when it is parsed.
#[derive(Debug, Clone, Copy, PartialEq, Eq, Structural)]
pub struct InRangeI(pub i128);

impl InRangeI {
    /// Parses the whole of `s` as an integer in `start..end`.
    pub fn parse(s: &str, start: i128, end: i128) -> (r: Result<InRangeI, ArgError>)
        ensures
            r matches Ok(v) ==> start <= v.0 < end,
            s@.len() > 0 && (forall|i: int| 0 <= i < s@.len() ==> '0' <= #[trigger] s@[i] <= '9') && start
                <= crate::integer::digits_value(s@, 10) < end && crate::integer::digits_value(s@, 10) <= u64::MAX
                ==> r == Ok::<InRangeI, ArgError>(
                InRangeI(crate::integer::digits_value(s@, 10) as i128),
            ),
    {
        let mut rd = Reader::from_str(s);
        let res = crate::decode::read_int_fmt(&mut rd, &ReadFmt::empty(), i64::MIN as i128, u64::MAX as i128);
        proof {
            if s@.len() > 0 && (forall|i: int| 0 <= i < s@.len() ==> '0' <= #[trigger] s@[i] <= '9') {
                crate::decode::lemma_decimal_exact(s@, i64::MIN as int, u64::MAX as int);
            }
        }
        let v = match crate::from_arg::whole(res) {
            Ok(v) => v,
            Err(e) => return Err(e),
        };
        if v < start || v >= end {
            let mut msg = crate::text::owned("Invalid value. Value must be in range from ");
            push_signed(&mut msg, start);
            push_str(&mut msg, " to ");
            push_signed(&mut msg, end);
            push_str(&mut msg, ".");
            Err(ArgError::invalid_value(msg, crate::text::owned(s)))
        } else {
            Ok(InRangeI(v))
        }
    }
}

/// A check of a decoded value by a function of the reader, the position
/// where the value started, and the value.
pub struct CheckRef<F: Fn(&Reader, usize, &Value) -> Result<(), ArgError>> {
    pub check: F,
}

impl<F: Fn(&Reader, usize, &Value) -> Result<(), ArgError>> CheckRef<F> {
    /// Decodes into `target` and then applies the check to it.
    pub fn set_from_read(&self, target: &mut Value, r: &mut Reader, fmt: &ReadFmt) -> (res: Result<
        Option<ArgError>,
        ArgError,
    >)
        requires
            old(r).well_formed(),
            fmt.well_formed(),
            fmt.parsed().length_range matches Some((lo, hi)) ==> lo <= hi,
            forall|rd: &Reader, p: usize, v: &Value| (self.check).requires((rd, p, v)),
        ensures
            final(r).well_formed(),
            old(r).keeps_source(final(r)),
            crate::parsef::same_kind(*old(target), *final(target)),
    {
        let pos = r.pos();
        match target.set_from_read(r, fmt) {
            Ok(t) => match (self.check)(r, pos, target) {
                Ok(()) => Ok(t),
                Err(e) => Err(e),
            },
            Err(e) => Err(e),
        }
    }
}

} // verus!
