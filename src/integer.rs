//! Reading integers in a given base with overflow detection.

use vstd::prelude::*;

use crate::err::ArgError;
use crate::reader::Reader;
use crate::text::{owned, push_signed, push_str, signed_decimal};

verus! {

/// The value of digit `c` in base `radix`, if it is one.
pub open spec fn digit_of(c: char, radix: u32) -> Option<nat> {
    let v: nat = if '0' <= c <= '9' {
        (c as u32 - '0' as u32) as nat
    } else if 'a' <= c <= 'z' {
        (c as u32 - 'a' as u32 + 10) as nat
    } else if 'A' <= c <= 'Z' {
        (c as u32 - 'A' as u32 + 10) as nat
    } else {
        36
    };
    if v < radix {
        Some(v)
    } else {
        None
    }
}

/// The value of a digit, if `c` is one in base `radix` (at most 36).
pub fn to_digit(c: char, radix: u32) -> (r: Option<u32>)
    requires
        radix <= 36,
    ensures
        r matches Some(d) ==> digit_of(c, radix) == Some(d as nat),
        r is None ==> digit_of(c, radix) is None,
{
    let v: u32 = if '0' <= c && c <= '9' {
        c as u32 - '0' as u32
    } else if 'a' <= c && c <= 'z' {
        c as u32 - 'a' as u32 + 10
    } else if 'A' <= c && c <= 'Z' {
        c as u32 - 'A' as u32 + 10
    } else {
        36
    };
    if v < radix {
        Some(v)
    } else {
        None
    }
}

/// Whether all of `s` are digits in base `radix`.
pub open spec fn all_digits(s: Seq<char>, radix: u32) -> bool {
    forall|i: int| 0 <= i < s.len() ==> (#[trigger] digit_of(s[i], radix)) is Some
}

/// The number written by the digits `s` in base `radix`.
pub open spec fn digits_value(s: Seq<char>, radix: u32) -> int
    decreases s.len(),
{
    if s.len() == 0 {
        0
    } else {
        digits_value(s.drop_last(), radix) * radix + digit_of(s.last(), radix).unwrap_or(0) as int
    }
}

/// How many digits in base `radix` stand at the start of `s`.
pub open spec fn leading_digits(s: Seq<char>, radix: u32) -> nat
    decreases s.len(),
{
    if s.len() > 0 && digit_of(s[0], radix) is Some {
        1 + leading_digits(s.drop_first(), radix)
    } else {
        0
    }
}

pub proof fn lemma_leading_digits(s: Seq<char>, radix: u32)
    ensures
        leading_digits(s, radix) <= s.len(),
        all_digits(s.take(leading_digits(s, radix) as int), radix),
        leading_digits(s, radix) < s.len() ==> digit_of(s[leading_digits(s, radix) as int], radix) is None,
    decreases s.len(),
{
    if s.len() > 0 && digit_of(s[0], radix) is Some {
        lemma_leading_digits(s.drop_first(), radix);
        let k = leading_digits(s, radix);
        assert forall|i: int| 0 <= i < k implies (#[trigger] digit_of(s.take(k as int)[i], radix)) is Some by {
            if i > 0 {
                assert(s.take(k as int)[i] == s.drop_first().take(k - 1)[i - 1]);
            }
        }
    }
}

/// `k` leading digits of `s`, from the number of digits read so far.
pub proof fn lemma_leading_digits_at(s: Seq<char>, radix: u32, k: nat)
    requires
        k <= s.len(),
        all_digits(s.take(k as int), radix),
        k == s.len() || digit_of(s[k as int], radix) is None,
    ensures
        leading_digits(s, radix) == k,
    decreases k,
{
    if k > 0 {
        assert(digit_of(s.take(k as int)[0], radix) is Some);
        assert forall|i: int| 0 <= i < k - 1 implies (#[trigger] digit_of(s.drop_first().take(k - 1)[i], radix)) is Some by {
            assert(s.drop_first().take(k - 1)[i] == s.take(k as int)[i + 1]);
        }
        if k < s.len() {
            assert(s.drop_first()[k - 1] == s[k as int]);
        }
        lemma_leading_digits_at(s.drop_first(), radix, (k - 1) as nat);
    } else {
        if s.len() > 0 {
        }
    }
}

/// A prefix of digits writes no more than the whole.
pub proof fn lemma_digits_monotonic(s: Seq<char>, radix: u32, j: int)
    requires
        0 <= j <= s.len(),
        2 <= radix,
    ensures
        0 <= digits_value(s.take(j), radix) <= digits_value(s, radix),
    decreases s.len(),
{
    if s.len() > 0 {
        if j == s.len() {
            assert(s.take(j) =~= s);
            lemma_digits_monotonic(s.drop_last(), radix, s.len() - 1);
            assert(s.drop_last().take(s.len() - 1) =~= s.drop_last());
        } else {
            lemma_digits_monotonic(s.drop_last(), radix, j);
            assert(s.drop_last().take(j) =~= s.take(j));
            assert(digits_value(s.drop_last(), radix) * radix >= digits_value(s.drop_last(), radix)) by (nonlinear_arith)
                requires
                    digits_value(s.drop_last(), radix) >= 0,
                    radix >= 2,
            ;
        }
    } else {
        assert(s.take(j) =~= s);
    }
}

/// Digits at the start of `s` are counted as leading digits.
pub proof fn lemma_leading_digits_ge(s: Seq<char>, radix: u32, m: nat)
    requires
        m <= s.len(),
        all_digits(s.take(m as int), radix),
    ensures
        leading_digits(s, radix) >= m,
    decreases m,
{
    if m > 0 {
        assert(digit_of(s.take(m as int)[0], radix) is Some);
        assert forall|i: int| 0 <= i < m - 1 implies (#[trigger] digit_of(s.drop_first().take(m - 1)[i], radix)) is Some by {
            assert(s.drop_first().take(m - 1)[i] == s.take(m as int)[i + 1]);
        }
        lemma_leading_digits_ge(s.drop_first(), radix, (m - 1) as nat);
    }
}

/// `res * radix + d`, if it is at most `max`.
fn step_pos(res: i128, radix: u32, d: u32, max: i128) -> (r: Option<i128>)
    requires
        0 <= res <= max <= u64::MAX,
        radix <= 36,
        d < radix,
    ensures
        r is None <==> res * radix + d > max,
        r matches Some(v) ==> v == res * radix + d && 0 <= v <= max,
{
    assert(res * (radix as int) <= (u64::MAX as int) * 36) by (nonlinear_arith)
        requires 0 <= res <= u64::MAX, radix <= 36;
    let rr = radix as i128;
    assert(0 <= res * rr <= (u64::MAX as int) * 36) by (nonlinear_arith)
        requires 0 <= res <= u64::MAX, 0 <= rr <= 36;
    let m = res * rr;
    let v = m + (d as i128);
    if v <= max {
        Some(v)
    } else {
        None
    }
}

/// `res * radix - d`, if it is at least `min`.
fn step_neg(res: i128, radix: u32, d: u32, min: i128) -> (r: Option<i128>)
    requires
        -(u64::MAX as int) <= min <= res <= 0,
        radix <= 36,
        d < radix,
    ensures
        r is None <==> res * radix - d < min,
        r matches Some(v) ==> v == res * radix - d && min <= v <= 0,
{
    let rr = radix as i128;
    assert(-(u64::MAX as int) * 36 <= res * rr <= 0) by (nonlinear_arith)
        requires -(u64::MAX as int) <= res <= 0, 0 <= rr <= 36;
    let m = res * rr;
    let v = m - (d as i128);
    if v >= min {
        Some(v)
    } else {
        None
    }
}

/// The signed value written by the characters `s` with an optional leading
/// `-` (only taken when `signed`), and how many characters that takes; `None`
/// when no digit follows.
pub open spec fn number_prefix(s: Seq<char>, radix: u32, signed: bool) -> Option<(int, nat)> {
    let neg = signed && s.len() > 0 && s[0] == '-';
    let body = if neg { s.drop_first() } else { s };
    let k = leading_digits(body, radix);
    if k == 0 {
        None
    } else {
        let v = digits_value(body.take(k as int), radix);
        Some((if neg { -v } else { v }, if neg { k + 1 } else { k }))
    }
}

/// The error of reading an integer in `min..=max` from `s`: no digit, or a
/// value out of range, with a hint that names the range.
pub open spec fn int_error(e: ArgError, s: Seq<char>, radix: u32, min: int, max: int) -> bool {
    &&& e.ctx().kind == crate::err::ArgErrKind::FailedToParse
    &&& match number_prefix(s, radix, min < 0) {
        None => e.ctx().inline_msg matches Some(m) && m@ == "Expected at least one digit."@,
        Some(_) => {
            &&& e.ctx().inline_msg matches Some(m) && m@ == "Number doesn't fit the target type."@
            &&& e.ctx().hint matches Some(h) && h@ == "Value must be in range from `"@ + signed_decimal(min)
                + "` to `"@ + signed_decimal(max) + "`."@
        },
    }
}

/// Reads an integer in base `radix` in the range `min..=max` from the start of
/// `r`; a `-` is taken only when `min` is negative. The digits stop at the
/// first character that is not one, which is left unread and reported as a
/// trailing error. No digit, or a value out of range, is an error.
pub fn read_integer(r: &mut Reader, radix: u32, min: i128, max: i128) -> (res: Result<(i128, Option<ArgError>), ArgError>)
    requires
        old(r).well_formed(),
        2 <= radix <= 36,
        -(u64::MAX as int) <= min <= 0 < max <= u64::MAX,
    ensures
        final(r).well_formed(),
        old(r).keeps_source(final(r)),
        res matches Ok((v, _)) ==> min <= v <= max,
        old(r).is_text() ==> match number_prefix(old(r).rest(), radix, min < 0) {
            None => (res matches Err(e) && int_error(e, old(r).rest(), radix, min as int, max as int)),
            Some((v, n)) => if min <= v <= max {
                &&& res matches Ok((x, t)) && x == v && (t is None <==> n == old(r).rest().len())
                &&& old(r).advanced_text(final(r), n)
            } else {
                (res matches Err(e) && int_error(e, old(r).rest(), radix, min as int, max as int))
            },
        },
{
    let signed = min < 0;
    let ghost s = old(r).rest();
    let ghost neg = signed && s.len() > 0 && s[0] == '-';
    let ghost body = if neg { s.drop_first() } else { s };
    let start_pos = r.pos();
    let mut is_neg = false;
    if signed {
        let ghost before = *r;
        match r.peek() {
            Ok(Some('-')) => {
                let _ = r.next();
                is_neg = true;
            },
            Ok(_) => {},
            Err(e) => return Err(e),
        }
    }
    proof {
        if old(r).is_text() {
            assert(old(r).rest().skip(0) =~= old(r).rest());
            if is_neg {
                assert(s[0] == '-');
            } else if signed && s.len() > 0 {
                assert(s[0] != '-');
            }
            assert(is_neg == neg);
            assert(r.rest() =~= body);
            assert(body.take(0) =~= Seq::<char>::empty());
            assert(body.skip(0) =~= body);
        }
    }
    let mut res: i128 = 0;
    let ghost mut count: int = 0;
    let mut any = false;
    loop
        invariant
            r.well_formed(),
            old(r).keeps_source(r),
            2 <= radix <= 36,
            -(u64::MAX as int) <= min <= 0 < max <= u64::MAX,
            min <= res <= max,
            is_neg ==> res <= 0,
            !is_neg ==> res >= 0,
            old(r).is_text() ==> is_neg == neg,
            any == (count > 0),
            count >= 0,
            s == old(r).rest(),
            neg == (signed && s.len() > 0 && s[0] == '-'),
            body == if neg { s.drop_first() } else { s },
            signed == (min < 0),
            old(r).is_text() ==> r.is_text(),
            old(r).is_text() ==> r.source_text() == old(r).source_text(),
            old(r).is_text() ==> count <= body.len(),
            old(r).is_text() ==> r.rest() == body.skip(count as int),
            old(r).is_text() ==> all_digits(body.take(count as int), radix),
            old(r).is_text() ==> res == if is_neg { -digits_value(body.take(count as int), radix) } else { digits_value(body.take(count as int), radix) },
            old(r).is_text() ==> old(r).advanced_text(r, (if is_neg { count + 1 } else { count as int }) as nat),
            is_neg ==> signed,
        ensures
            old(r).is_text() ==> count == body.len() || digit_of(body[count as int], radix) is None,
        decreases r.measure(),
    {
        let ghost before = *r;
        let p = r.peek();
        proof {
            if old(r).is_text() {
                assert(before.rest().skip(0) =~= before.rest());
                assert(old(r).rest().skip((if is_neg { count + 1 } else { count as int })) =~= r.rest());
            }
        }
        let c = match p {
            Ok(Some(c)) => c,
            Ok(None) => {
                proof {
                    if old(r).is_text() {
                        assert(count == body.len());
                    }
                }
                break;
            },
            Err(e) => return Err(e),
        };
        let d = match to_digit(c, radix) {
            Some(d) => d,
            None => {
                proof {
                    if old(r).is_text() {
                        assert(before.rest()[0] == body[count as int]);
                    }
                }
                break;
            },
        };
        proof {
            if old(r).is_text() {
                assert(before.rest()[0] == body[count as int]);
                assert(body.take(count + 1).drop_last() =~= body.take(count as int));
                assert(body.take(count + 1).last() == c);
                let val = digits_value(body.take(count as int), radix);
                assert(digits_value(body.take(count + 1), radix) == val * radix + d);
                if is_neg {
                    assert(res * radix - d == -(val * radix + d)) by (nonlinear_arith)
                        requires res == -val;
                } else {
                    assert(res * radix + d == val * radix + d) by (nonlinear_arith)
                        requires res == val;
                }
                assert(all_digits(body.take(count + 1), radix)) by {
                    assert forall|i: int| 0 <= i < count + 1 implies (#[trigger] digit_of(body.take(count + 1)[i], radix)) is Some by {
                        if i < count {
                            assert(body.take(count + 1)[i] == body.take(count as int)[i]);
                        }
                    }
                }
            }
        }
        let next = if is_neg {
            step_neg(res, radix, d, min)
        } else {
            step_pos(res, radix, d, max)
        };
        match next {
            Some(v) => {
                res = v;
            },
            None => {
                proof {
                    if old(r).is_text() {
                        lemma_leading_digits_ge(body, radix, (count + 1) as nat);
                        lemma_leading_digits(body, radix);
                        let k = leading_digits(body, radix);
                        lemma_digits_monotonic(body.take(k as int), radix, count + 1);
                        assert(body.take(k as int).take(count + 1) =~= body.take(count + 1));
                        let val = digits_value(body.take(count as int), radix);
                        let full = digits_value(body.take(k as int), radix);
                        assert(full >= val * radix + d);
                        if is_neg {
                            assert(res * radix - d == -(val * radix + d)) by (nonlinear_arith)
                                requires res == -val;
                            assert(-full < min);
                        } else {
                            assert(res * radix + d == val * radix + d) by (nonlinear_arith)
                                requires res == val;
                            assert(full > max);
                        }
                        assert(number_prefix(s, radix, signed) == Some((if is_neg { -full } else { full }, (if is_neg { k + 1 } else { k }) as nat)));
                    }
                }
                let mut hint = owned("Value must be in range from `");
                push_signed(&mut hint, min);
                push_str(&mut hint, "` to `");
                push_signed(&mut hint, max);
                push_str(&mut hint, "`.");
                let ghost hint_v = hint@;
                let e = r.err_parse_peek(owned("Number doesn't fit the target type.")).span_start(start_pos).hint(hint);
                proof {
                    assert(hint_v =~= "Value must be in range from `"@ + signed_decimal(min as int) + "` to `"@
                        + signed_decimal(max as int) + "`."@);
                }
                return Err(e);
            },
        }
        let _ = r.next();
        proof {
            if old(r).is_text() {
                assert(r.rest() =~= body.skip(count + 1));
                assert(old(r).rest().skip((if is_neg { count + 2 } else { count + 1 }) as int) =~= r.rest());
            }
        }
        any = true;
        proof {
            count = count + 1;
        }
    }
    proof {
        if old(r).is_text() {
            lemma_leading_digits_at(body, radix, count as nat);
        }
    }
    if !any {
        return Err(r.err_parse_peek(owned("Expected at least one digit.")));
    }
    let ghost before = *r;
    let p = r.peek();
    proof {
        if old(r).is_text() {
            let n: int = if is_neg { count + 1 } else { count };
            assert(before.rest().skip(0) =~= before.rest());
            assert(old(r).rest().skip(n) =~= r.rest());
            assert(r.rest().len() == s.len() - n);
            assert(number_prefix(s, radix, signed) == Some((res as int, n as nat)));
        }
    }
    match p {
        Ok(Some(_)) => Ok((res, Some(r.err_parse_peek(owned("Invalid digit in string."))))),
        Ok(None) => Ok((res, None)),
        Err(e) => Ok((res, Some(e))),
    }
}

} // verus!
