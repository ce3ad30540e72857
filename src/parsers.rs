//! Parsing common argument shapes: key value pairs, booleans, lists.

use vstd::prelude::*;
use vstd::string::StrSliceExecFns;

use crate::err::{ArgErrCtx, ArgErrKind, ArgError, ColorMode, Span};
use crate::fmt::ReadFmt;
use crate::from_arg::{FromArg, FromRead};
use crate::reader::Reader;
use crate::text::{byte_len, find_str, owned, push_char, push_str};
use crate::utf8::char_width;

verus! {

/// The index of the first `c` in `s`.
pub open spec fn first_index(s: Seq<char>, c: char) -> Option<int> {
    if exists|i: int| 0 <= i < s.len() && s[i] == c {
        Some(choose|i: int| 0 <= i < s.len() && s[i] == c && forall|j: int| 0 <= j < i ==> s[j] != c)
    } else {
        None
    }
}

/// Splits `s` at the first `sep`: the part before it and the part after it.
pub fn split_once(s: &str, sep: char) -> (r: Option<(&str, &str)>)
    ensures
        match first_index(s@, sep) {
            Some(i) => r matches Some((a, b)) && a@ == s@.take(i) && b@ == s@.skip(i + 1),
            None => r is None,
        },
{
    let n = s.unicode_len();
    let mut i: usize = 0;
    while i < n
        invariant
            n == s@.len(),
            i <= n,
            forall|j: int| 0 <= j < i ==> s@[j] != sep,
        decreases n - i,
    {
        if s.get_char(i) == sep {
            proof {
                assert(first_index(s@, sep) == Some(i as int)) by {
                    let k = choose|k: int| 0 <= k < s@.len() && s@[k] == sep && forall|j: int| 0 <= j < k ==> s@[j] != sep;
                    if k < i {
                    }
                    if k > i {
                    }
                }
            }
            let a = s.substring_char(0, i);
            let b = s.substring_char(i + 1, n);
            assert(a@ =~= s@.take(i as int));
            assert(b@ =~= s@.skip(i + 1));
            return Some((a, b));
        }
        i = i + 1;
    }
    None
}

/// Parses `key<sep>value` into the key and, when there is a separator, the
/// value; errors of the value point after the separator in `arg`.
pub fn key_mval_arg<K: FromArg, V: FromArg>(arg: &str, sep: char) -> (r: Result<(K, Option<V>), ArgError>)
    ensures
        r matches Ok((_, v)) ==> (v is None <==> first_index(arg@, sep) is None),
{
    match split_once(arg, sep) {
        None => match K::from_arg(arg) {
            Ok(k) => Ok((k, None)),
            Err(e) => Err(e),
        },
        Some((k, v)) => {
            let key = match K::from_arg(k) {
                Ok(key) => key,
                Err(e) => return Err(e.shift_span(0, owned(arg))),
            };
            let shift = k.len().saturating_add(char_width(sep));
            match V::from_arg(v) {
                Ok(val) => Ok((key, Some(val))),
                Err(e) => Err(e.shift_span(shift, owned(arg))),
            }
        },
    }
}

/// The error of a missing separator in a key value pair.
pub fn missing_separator(arg: &str, sep: char) -> (r: ArgError)
    ensures
        r.ctx().kind == ArgErrKind::NoValue,
        r.ctx().args@.len() == 1,
        r.ctx().args@[0]@ == arg@,
        r.ctx().error_span == (Span { start: 0, end: byte_len(arg@) }),
{
    let mut inline = owned("Missing separator `");
    push_char(&mut inline, sep);
    push_str(&mut inline, "`.");
    let mut long = owned("Missing separator `");
    push_char(&mut long, sep);
    push_str(&mut long, "` for key value pair.");
    let mut hint = owned("Use the separator `");
    push_char(&mut hint, sep);
    push_str(&mut hint, "` to split the argument into key and value.");
    ArgError::from_msg(ArgErrKind::NoValue, inline, owned(arg)).long_msg(long).hint(hint)
}

/// Parses `key<sep>value` into the key and the value; a missing separator is
/// a `NoValue` error.
pub fn key_val_arg<K: FromArg, V: FromArg>(arg: &str, sep: char) -> (r: Result<(K, V), ArgError>)
    ensures
        first_index(arg@, sep) is None ==> (r matches Err(e) && e.ctx().kind == ArgErrKind::NoValue),
{
    match split_once(arg, sep) {
        None => Err(missing_separator(arg, sep)),
        Some((k, v)) => {
            let key = match K::from_arg(k) {
                Ok(key) => key,
                Err(e) => return Err(e.shift_span(0, owned(arg))),
            };
            let shift = k.len().saturating_add(char_width(sep));
            match V::from_arg(v) {
                Ok(val) => Ok((key, val)),
                Err(e) => Err(e.shift_span(shift, owned(arg))),
            }
        },
    }
}

/// The lower case form of a string, as `str::to_lowercase` gives it.
pub uninterp spec fn lower_of(s: Seq<char>) -> Seq<char>;

/// Relies on `str::to_lowercase`: the result depends on the characters alone.
#[verifier::external_body]
fn lowercase(s: &str) -> (r: String)
    ensures
        r@ == lower_of(s@),
{
    s.to_lowercase()
}

fn invalid_choice(arg: &str, hint: String) -> (r: ArgError)
    ensures
        r.ctx().kind == ArgErrKind::FailedToParse,
{
    let mut long = owned("Invalid value `");
    push_str(&mut long, arg);
    push_str(&mut long, "`");
    ArgError::from_msg(ArgErrKind::FailedToParse, owned("Invalid value."), owned(arg)).long_msg(long).hint(hint)
}

/// Decides a boolean from the lower case form `lower` of `arg`: `true` when it
/// is `t`, `false` when it is `f`, else an error.
pub fn bool_of_lower(t: &str, f: &str, lower: &str, arg: &str) -> (r: Result<bool, ArgError>)
    ensures
        lower@ == t@ ==> r == Ok::<bool, ArgError>(true),
        lower@ != t@ && lower@ == f@ ==> r == Ok::<bool, ArgError>(false),
        lower@ != t@ && lower@ != f@ ==> (r matches Err(e) && e.ctx().kind == ArgErrKind::FailedToParse),
{
    if str_eq(lower, t) {
        Ok(true)
    } else if str_eq(lower, f) {
        Ok(false)
    } else {
        let mut hint = owned("Expected `");
        push_str(&mut hint, t);
        push_str(&mut hint, "` or `");
        push_str(&mut hint, f);
        push_str(&mut hint, "`");
        Err(invalid_choice(arg, hint))
    }
}

/// Parses a boolean from `arg`, ignoring case: `t` is true, `f` is false.
pub fn bool_arg(t: &str, f: &str, arg: &str) -> (r: Result<bool, ArgError>)
    ensures
        lower_of(arg@) == t@ ==> r == Ok::<bool, ArgError>(true),
        lower_of(arg@) != t@ && lower_of(arg@) == f@ ==> r == Ok::<bool, ArgError>(false),
        lower_of(arg@) != t@ && lower_of(arg@) != f@ ==> r is Err,
{
    let lower = lowercase(arg);
    bool_of_lower(t, f, lower.as_str(), arg)
}

/// Decides an optional boolean from the lower case form `lower` of `arg`:
/// `t` is true, `f` is false, `n` is none, anything else an error.
pub fn opt_bool_of_lower(t: &str, f: &str, n: &str, lower: &str, arg: &str) -> (r: Result<Option<bool>, ArgError>)
    ensures
        lower@ == t@ ==> r == Ok::<Option<bool>, ArgError>(Some(true)),
        lower@ != t@ && lower@ == f@ ==> r == Ok::<Option<bool>, ArgError>(Some(false)),
        lower@ != t@ && lower@ != f@ && lower@ == n@ ==> r == Ok::<Option<bool>, ArgError>(None),
        lower@ != t@ && lower@ != f@ && lower@ != n@ ==> (r matches Err(e) && e.ctx().kind
            == ArgErrKind::FailedToParse),
{
    if str_eq(lower, t) {
        Ok(Some(true))
    } else if str_eq(lower, f) {
        Ok(Some(false))
    } else if str_eq(lower, n) {
        Ok(None)
    } else {
        let mut hint = owned("Expected `");
        push_str(&mut hint, t);
        push_str(&mut hint, "`, `");
        push_str(&mut hint, f);
        push_str(&mut hint, "` or `");
        push_str(&mut hint, n);
        push_str(&mut hint, "`");
        Err(invalid_choice(arg, hint))
    }
}

/// Parses an optional boolean from `arg`, ignoring case.
pub fn opt_bool_arg(t: &str, f: &str, n: &str, arg: &str) -> (r: Result<Option<bool>, ArgError>)
    ensures
        lower_of(arg@) == t@ ==> r == Ok::<Option<bool>, ArgError>(Some(true)),
        lower_of(arg@) != t@ && lower_of(arg@) == f@ ==> r == Ok::<Option<bool>, ArgError>(Some(false)),
        lower_of(arg@) != t@ && lower_of(arg@) != f@ && lower_of(arg@) == n@ ==> r == Ok::<
            Option<bool>,
            ArgError,
        >(None),
        lower_of(arg@) != t@ && lower_of(arg@) != f@ && lower_of(arg@) != n@ ==> r is Err,
{
    let lower = lowercase(arg);
    opt_bool_of_lower(t, f, n, lower.as_str(), arg)
}

/// Whether two strings hold the same characters.
pub fn str_eq(a: &str, b: &str) -> (r: bool)
    ensures
        r == (a@ == b@),
{
    let n = a.unicode_len();
    let m = b.unicode_len();
    if n != m {
        return false;
    }
    let mut i: usize = 0;
    while i < n
        invariant
            n == a@.len(),
            m == b@.len(),
            n == m,
            i <= n,
            forall|j: int| 0 <= j < i ==> a@[j] == b@[j],
        decreases n - i,
    {
        if a.get_char(i) != b.get_char(i) {
            return false;
        }
        i = i + 1;
    }
    assert(a@ =~= b@);
    true
}

/// Parses the whole of `arg`.
pub fn parse_arg<T: FromArg>(arg: &str) -> (r: Result<T, ArgError>) {
    T::from_arg(arg)
}

/// Parses the key of `key<sep>value`, or the whole argument if there is no separator.
pub fn key_arg<T: FromArg>(arg: &str, sep: char) -> (r: Result<T, ArgError>) {
    match key_mval_arg::<T, String>(arg, sep) {
        Ok((k, _)) => Ok(k),
        Err(e) => Err(e),
    }
}

/// Parses the value of `key<sep>value`; a missing separator is an error.
pub fn val_arg<T: FromArg>(arg: &str, sep: char) -> (r: Result<T, ArgError>)
    ensures
        first_index(arg@, sep) is None ==> r is Err,
{
    match key_val_arg::<String, T>(arg, sep) {
        Ok((_, v)) => Ok(v),
        Err(e) => Err(e),
    }
}

/// Parses the value of `key<sep>value`, if there is a separator.
pub fn mval_arg<T: FromArg>(arg: &str, sep: char) -> (r: Result<Option<T>, ArgError>)
    ensures
        r matches Ok(v) ==> (v is None <==> first_index(arg@, sep) is None),
{
    match key_mval_arg::<String, T>(arg, sep) {
        Ok((_, v)) => Ok(v),
        Err(e) => Err(e),
    }
}

/// Sets `res` to what `f` makes of `arg`, unless it is already set, which
/// is a `TooManyArguments` error.
pub fn try_set_arg_with<T, F: FnOnce(&str) -> Result<T, ArgError>>(res: &mut Option<T>, arg: &str, f: F) -> (r: Result<(), ArgError>)
    requires
        f.requires((arg,)),
    ensures
        (*old(res)) is Some ==> (r matches Err(e) && e.ctx().kind == ArgErrKind::TooManyArguments && *final(res)
            == *old(res)),
        (*old(res)) is None ==> (r is Ok <==> (*final(res)) is Some),
{
    if res.is_some() {
        Err(ArgError::too_many_arguments(owned("Argument sets value that can be set only once."), owned(arg)))
    } else {
        match f(arg) {
            Ok(v) => {
                *res = Some(v);
                Ok(())
            },
            Err(e) => Err(e),
        }
    }
}

/// Sets `res` to the value of `arg`, unless it is already set.
pub fn try_set_arg<T: FromArg>(res: &mut Option<T>, arg: &str) -> (r: Result<(), ArgError>)
    ensures
        (*old(res)) is Some ==> (r matches Err(e) && e.ctx().kind == ArgErrKind::TooManyArguments && *final(res)
            == *old(res)),
        (*old(res)) is None ==> (r is Ok <==> (*final(res)) is Some),
{
    if res.is_some() {
        Err(ArgError::too_many_arguments(owned("Argument sets value that can be set only once."), owned(arg)))
    } else {
        match T::from_arg(arg) {
            Ok(v) => {
                *res = Some(v);
                Ok(())
            },
            Err(e) => Err(e),
        }
    }
}

/// Whether `needle` stands in `hay` at `i`.
pub open spec fn chars_at(hay: Seq<char>, needle: Seq<char>, i: int) -> bool {
    0 <= i && i + needle.len() <= hay.len() && hay.subrange(i, i + needle.len()) == needle
}

/// The first index at or after `from` where `needle` stands in `hay`.
fn find_chars(hay: &Vec<char>, from: usize, needle: &Vec<char>) -> (r: Option<usize>)
    requires
        from <= hay@.len(),
    ensures
        r matches Some(i) ==> from <= i && chars_at(hay@, needle@, i as int),
        r is None ==> forall|i: int| from <= i ==> !chars_at(hay@, needle@, i),
{
    let n = hay.len();
    let m = needle.len();
    if m > n {
        return None;
    }
    let mut i = from;
    while i <= n - m
        invariant
            from <= i,
            m <= n,
            n == hay@.len(),
            m == needle@.len(),
            forall|k: int| from <= k < i ==> !chars_at(hay@, needle@, k),
        decreases n - i + 1,
    {
        let mut j: usize = 0;
        while j < m && hay[i + j] == needle[j]
            invariant
                j <= m,
                i + m <= n,
                n == hay@.len(),
                m == needle@.len(),
                forall|k: int| 0 <= k < j ==> hay@[i + k] == needle@[k],
            decreases m - j,
        {
            j = j + 1;
        }
        if j == m {
            assert(hay@.subrange(i as int, i + m) =~= needle@);
            return Some(i);
        }
        proof {
            assert(!chars_at(hay@, needle@, i as int)) by {
                if chars_at(hay@, needle@, i as int) {
                    assert(hay@.subrange(i as int, i + m)[j as int] == needle@[j as int]);
                }
            }
        }
        i = i + 1;
    }
    None
}

/// A string of the characters `v[from..to]`.
fn string_of(v: &Vec<char>, from: usize, to: usize) -> (r: String)
    requires
        from <= to <= v@.len(),
    ensures
        r@ == v@.subrange(from as int, to as int),
{
    let mut s = String::new();
    let mut k = from;
    while k < to
        invariant
            from <= k <= to <= v@.len(),
            s@ == v@.subrange(from as int, k as int),
        decreases to - k,
    {
        push_char(&mut s, v[k]);
        k = k + 1;
    }
    s
}

/// Parses each part of `arg` between occurrences of `sep`.
pub fn split_arg<T: FromArg>(arg: &str, sep: &str) -> (r: Result<Vec<T>, ArgError>)
    requires
        sep@.len() > 0,
{
    let hay = crate::reader::chars_of(arg);
    let needle = crate::reader::chars_of(sep);
    let mut out: Vec<T> = Vec::new();
    let mut start: usize = 0;
    // A length is a `usize`; asking for it records that bound.
    let _n = hay.len();
    loop
        invariant
            start <= hay@.len(),
            hay@.len() <= usize::MAX,
            needle@.len() > 0,
        decreases hay@.len() - start,
    {
        match find_chars(&hay, start, &needle) {
            Some(i) => {
                let part = string_of(&hay, start, i);
                match T::from_arg(part.as_str()) {
                    Ok(v) => out.push(v),
                    Err(e) => return Err(e),
                }
                start = i + needle.len();
            },
            None => {
                let part = string_of(&hay, start, hay.len());
                match T::from_arg(part.as_str()) {
                    Ok(v) => out.push(v),
                    Err(e) => return Err(e),
                }
                return Ok(out);
            },
        }
    }
}

/// Reads a list of `T` separated by `sep` from the whole of `arg`.
pub fn arg_list<T: FromRead>(arg: &str, sep: &str) -> (r: Result<Vec<T>, ArgError>)
    requires
        sep@.len() > 0,
{
    let mut res: Vec<T> = Vec::new();
    let mut reader = Reader::from_str(arg);
    let fmt = ReadFmt::empty();
    let mut budget = arg.unicode_len();
    loop
        invariant
            reader.well_formed(),
            fmt.well_formed(),
            fmt.parsed().length_range is None,
        decreases budget,
    {
        let item = match T::from_read(&mut reader, &fmt) {
            Ok((item, _)) => item,
            Err(e) => return Err(e),
        };
        res.push(item);
        match reader.peek() {
            Ok(None) => return Ok(res),
            Ok(Some(_)) => {},
            Err(e) => return Err(e),
        }
        if budget == 0 {
            return Err(reader.err_parse_peek(owned("Unused input")));
        }
        budget = budget - 1;
        if let Err(e) = reader.expect(sep) {
            return Err(e);
        }
    }
}

/// `key` starts `v`, followed by the end or by `sep`.
pub open spec fn has_key(v: Seq<char>, sep: char, key: Seq<char>) -> bool {
    key.len() <= v.len() && v.take(key.len() as int) == key && (v.len() == key.len() || v[key.len() as int] == sep)
}

/// Whether `key` starts `v`, followed by the end or by `sep`.
pub fn is_key_of(v: &str, sep: char, key: &str) -> (r: bool)
    ensures
        r == has_key(v@, sep, key@),
{
    let n = v.unicode_len();
    let m = key.unicode_len();
    if m > n {
        return false;
    }
    let mut i: usize = 0;
    while i < m
        invariant
            m <= n,
            n == v@.len(),
            m == key@.len(),
            i <= m,
            forall|j: int| 0 <= j < i ==> v@[j] == key@[j],
        decreases m - i,
    {
        if v.get_char(i) != key.get_char(i) {
            proof {
                assert(v@.take(m as int)[i as int] != key@[i as int]);
            }
            return false;
        }
        i = i + 1;
    }
    assert(v@.take(m as int) =~= key@);
    m == n || v.get_char(m) == sep
}

/// Whether any of `keys` starts `v`, followed by the end or by `sep`.
pub fn has_any_key(v: &str, sep: char, keys: &[&str]) -> (r: bool)
    ensures
        r == exists|i: int| 0 <= i < keys@.len() && has_key(v@, sep, #[trigger] keys@[i]@),
{
    let mut i: usize = 0;
    while i < keys.len()
        invariant
            i <= keys@.len(),
            forall|j: int| 0 <= j < i ==> !has_key(v@, sep, #[trigger] keys@[j]@),
        decreases keys@.len() - i,
    {
        if is_key_of(v, sep, keys[i]) {
            return true;
        }
        i = i + 1;
    }
    false
}

/// Whether `v` starts with any of `prefixes`.
pub fn starts_any(v: &str, prefixes: &[&str]) -> (r: bool)
    ensures
        r == exists|i: int| 0 <= i < prefixes@.len() && (#[trigger] prefixes@[i])@.len() <= v@.len()
            && v@.take(prefixes@[i]@.len() as int) == prefixes@[i]@,
{
    let mut i: usize = 0;
    while i < prefixes.len()
        invariant
            i <= prefixes@.len(),
            forall|j: int| 0 <= j < i ==> !((#[trigger] prefixes@[j])@.len() <= v@.len() && v@.take(
                prefixes@[j]@.len() as int,
            ) == prefixes@[j]@),
        decreases prefixes@.len() - i,
    {
        let p = prefixes[i];
        let n = v.unicode_len();
        let m = p.unicode_len();
        if m <= n {
            let mut j: usize = 0;
            while j < m && v.get_char(j) == p.get_char(j)
                invariant
                    m <= n,
                    n == v@.len(),
                    m == p@.len(),
                    j <= m,
                    forall|k: int| 0 <= k < j ==> v@[k] == p@[k],
                decreases m - j,
            {
                j = j + 1;
            }
            if j == m {
                assert(v@.take(m as int) =~= p@);
                return true;
            }
            proof {
                assert(v@.take(m as int)[j as int] != p@[j as int]);
            }
        }
        i = i + 1;
    }
    false
}

} // verus!
