//! The format of a slot: trimming, length bounds, base, and free text.

use vstd::prelude::*;

use crate::integer::{number_prefix, read_integer};
use crate::reader::Reader;

verus! {

/// Determines side from which should be trimmed.
#[derive(Debug, Clone, Copy, PartialEq, Eq, Structural)]
pub enum TrimSide {
    /// Trim from start.
    Left,
    /// Trim from end.
    Right,
    /// Trim on both sides.
    Both,
}

pub open spec fn trim_marker(c: char) -> Option<TrimSide> {
    if c == '<' {
        Some(TrimSide::Right)
    } else if c == '^' {
        Some(TrimSide::Both)
    } else if c == '>' {
        Some(TrimSide::Left)
    } else {
        None
    }
}

impl TrimSide {
    /// Get the trim side from the representing character.
    pub fn from_char(c: char) -> (r: Option<Self>)
        ensures
            r == trim_marker(c),
    {
        if c == '<' {
            Some(TrimSide::Right)
        } else if c == '^' {
            Some(TrimSide::Both)
        } else if c == '>' {
            Some(TrimSide::Left)
        } else {
            None
        }
    }

    pub open spec fn spec_left(&self) -> bool {
        *self == TrimSide::Left || *self == TrimSide::Both
    }

    pub open spec fn spec_right(&self) -> bool {
        *self == TrimSide::Right || *self == TrimSide::Both
    }

    /// Checks whether should trim on left.
    pub fn left(&self) -> (r: bool)
        ensures
            r == self.spec_left(),
    {
        match self {
            TrimSide::Left | TrimSide::Both => true,
            TrimSide::Right => false,
        }
    }

    /// Checks whether should trim on right.
    pub fn right(&self) -> (r: bool)
        ensures
            r == self.spec_right(),
    {
        match self {
            TrimSide::Right | TrimSide::Both => true,
            TrimSide::Left => false,
        }
    }
}

/// The trim clause at the start of format `f`: the side, the character, and
/// how many characters the clause takes.
pub open spec fn trim_clause(f: Seq<char>) -> (Option<TrimSide>, Option<char>, nat) {
    if f.len() >= 2 && trim_marker(f[1]) is Some {
        (trim_marker(f[1]), Some(f[0]), 2)
    } else if f.len() >= 1 && trim_marker(f[0]) is Some {
        (trim_marker(f[0]), None, 1)
    } else {
        (None, None, 0)
    }
}

/// A number at the start of `f` that fits `usize`, and how many characters
/// it takes.
pub open spec fn size_prefix(f: Seq<char>) -> Option<(usize, nat)> {
    match number_prefix(f, 10, false) {
        Some((v, n)) => if v <= usize::MAX {
            Some((v as usize, n))
        } else {
            None
        },
        None => None,
    }
}

/// The length clause at the start of `f`, and how many characters it takes.
/// An end below the start is raised to the start, so the range is never empty.
pub open spec fn length_clause(f: Seq<char>) -> (Option<(usize, usize)>, nat) {
    let (start, n1) = match size_prefix(f) {
        Some((v, n)) => (Some(v), n),
        None => (None, 0nat),
    };
    let g = f.skip(n1 as int);
    if g.len() >= 2 && g[0] == '.' && g[1] == '.' {
        let h = g.skip(2);
        let (end, n2) = match size_prefix(h) {
            Some((v, n)) => (Some(v), n),
            None => (None, 0nat),
        };
        let lo: usize = match start {
            Some(v) => v,
            None => 0,
        };
        let hi: usize = match end {
            Some(v) => v,
            None => usize::MAX,
        };
        (Some((lo, if hi < lo { lo } else { hi })), n1 + 2 + n2)
    } else {
        (
            match start {
                Some(v) => Some((v, v)),
                None => None,
            },
            n1,
        )
    }
}

/// The radix named by a letter.
pub open spec fn radix_letter(c: char) -> Option<u32> {
    if c == 'd' || c == 'D' {
        Some(10)
    } else if c == 'x' || c == 'X' {
        Some(16)
    } else if c == 'o' || c == 'O' {
        Some(8)
    } else {
        None
    }
}

/// The standard part of a slot's format, parsed.
#[derive(Debug, Clone)]
pub struct ParsedFmt {
    pub custom_fmt: String,
    pub length_range: Option<(usize, usize)>,
    pub trim_char: Option<char>,
    pub trim_side: Option<TrimSide>,
    pub base: Option<u32>,
}

/// `p` is the parse of the format `f`.
pub open spec fn parses_to(f: Seq<char>, p: ParsedFmt) -> bool {
    let (side, tc, n0) = trim_clause(f);
    let f1 = f.skip(n0 as int);
    let (range, n1) = length_clause(f1);
    let f2 = f1.skip(n1 as int);
    let base = if f2.len() > 0 { radix_letter(f2[0]) } else { None };
    let f3 = if base is Some { f2.skip(1) } else { f2 };
    &&& p.trim_side == side
    &&& p.trim_char == tc
    &&& p.length_range == range
    &&& p.base == base
    &&& p.custom_fmt@ == f3
}

impl ParsedFmt {
    /// Gets the non standard part of the format.
    pub fn custom(&self) -> (r: &String)
        ensures
            r == &self.custom_fmt,
    {
        &self.custom_fmt
    }

    /// Gets the trim information in the format.
    pub fn trim(&self) -> (r: Option<(TrimSide, Option<char>)>)
        ensures
            r == match self.trim_side {
                Some(s) => Some((s, self.trim_char)),
                None => None,
            },
    {
        match self.trim_side {
            Some(s) => Some((s, self.trim_char)),
            None => None,
        }
    }

    /// Gets the expected length range of the parsed data.
    pub fn length_range(&self) -> (r: Option<(usize, usize)>)
        ensures
            r == self.length_range,
    {
        self.length_range
    }

    /// Gets the base for numerical data.
    pub fn base(&self) -> (r: Option<u32>)
        ensures
            r == self.base,
    {
        self.base
    }
}

/// Reads a `usize` from the start of `f[i..]`; returns it and the index after it.
fn parse_size(f: &Vec<char>, i: usize) -> (r: Option<(usize, usize)>)
    requires
        i <= f@.len(),
    ensures
        match size_prefix(f@.skip(i as int)) {
            Some((v, n)) => r == Some((v, (i + n) as usize)) && i + n <= f@.len(),
            None => r is None,
        },
{
    let mut rest = Vec::new();
    let mut j = i;
    while j < f.len()
        invariant
            i <= j <= f@.len(),
            rest@ == f@.subrange(i as int, j as int),
        decreases f@.len() - j,
    {
        rest.push(f[j]);
        j = j + 1;
    }
    assert(rest@ =~= f@.skip(i as int));
    let mut r = Reader::from_chars(rest);
    let before = r.bytes_size_hint();
    proof {
        assert(r.rest().len() == r.measure());
    }
    let ghost r0 = r;
    assert(r0.is_text() && r0.rest() == f@.skip(i as int));
    match read_integer(&mut r, 10, 0, usize::MAX as i128) {
        Ok((v, _)) => {
            let after = r.bytes_size_hint();
            proof {
                let s = f@.skip(i as int);
                assert(r.rest() == s.skip((number_prefix(s, 10, false)->0).1 as int));
            }
            proof {
                let s = f@.skip(i as int);
                assert(r.rest().len() == r.measure());
                assert(after == r.rest().len());
                assert(before == s.len());
            }
            let n = before - after;
            proof {
                let s = f@.skip(i as int);
                let np = number_prefix(s, 10, false);
                assert(np is Some);
                assert((np->0).0 == v);
                assert(s.skip((np->0).1 as int).len() == s.len() - (np->0).1);
                assert(n == (np->0).1);
                assert(size_prefix(s) == Some((v as usize, n as nat)));
            }
            Some((v as usize, i + n))
        },
        Err(_) => {
            proof {
                let s = f@.skip(i as int);
                let k = crate::integer::leading_digits(s, 10);
                crate::integer::lemma_digits_monotonic(s.take(k as int), 10, 0);
                assert(size_prefix(s) is None);
            }
            None
        },
    }
}

/// The format of one slot: its text, and its standard part parsed.
#[derive(Debug, Clone)]
pub struct ReadFmt {
    pub fmt: String,
    pub parsed: ParsedFmt,
}

impl ReadFmt {
    pub open spec fn parsed(&self) -> ParsedFmt {
        self.parsed
    }

    /// The base, if there is one, is one that a radix letter names, and the
    /// length range is not empty.
    pub open spec fn well_formed(&self) -> bool {
        &&& self.parsed.base matches Some(b) ==> (b == 8 || b == 10 || b == 16)
        &&& self.parsed.length_range matches Some((lo, hi)) ==> lo <= hi
    }

    /// Creates a format from its text.
    pub fn new(fmt: &str) -> (r: Self)
        ensures
            r.fmt@ == fmt@,
            parses_to(fmt@, r.parsed()),
            r.well_formed(),
    {
        let chars = crate::reader::chars_of(fmt);
        let parsed = parse_format(&chars);
        ReadFmt { fmt: crate::text::owned(fmt), parsed }
    }

    /// The empty format.
    pub fn empty() -> (r: Self)
        ensures
            r.fmt@.len() == 0,
            r.well_formed(),
            r.parsed().trim_side is None,
            r.parsed().length_range is None,
            r.parsed().base is None,
            r.parsed().custom_fmt@.len() == 0,
    {
        proof {
            reveal_strlit("");
        }
        ReadFmt::new("")
    }

    /// Creates a format in which only the base of this one is kept.
    pub fn keep_base(&self) -> (r: ReadFmt)
        requires
            self.well_formed(),
        ensures
            r.well_formed(),
            r.fmt@.len() == 0,
            r.parsed().trim_side is None,
            r.parsed().trim_char is None,
            r.parsed().length_range is None,
            r.parsed().base == self.parsed().base,
            r.parsed().custom_fmt@.len() == 0,
    {
        ReadFmt {
            fmt: String::new(),
            parsed: ParsedFmt {
                custom_fmt: String::new(),
                length_range: None,
                trim_char: None,
                trim_side: None,
                base: self.parsed.base,
            },
        }
    }

    /// Gets the parsed format.
    pub fn get_parsed(&self) -> (r: &ParsedFmt)
        ensures
            *r == self.parsed(),
    {
        &self.parsed
    }

    /// Get the non standard part of the format.
    pub fn custom(&self) -> (r: &String)
        ensures
            *r == self.parsed().custom_fmt,
    {
        &self.parsed.custom_fmt
    }

    /// Get the trim information from the format.
    pub fn trim(&self) -> (r: Option<(TrimSide, Option<char>)>)
        ensures
            r == match self.parsed().trim_side {
                Some(s) => Some((s, self.parsed().trim_char)),
                None => None,
            },
    {
        self.parsed.trim()
    }

    /// Get the length range from the format.
    pub fn length_range(&self) -> (r: Option<(usize, usize)>)
        ensures
            r == self.parsed().length_range,
    {
        self.parsed.length_range
    }

    /// Get the numerical base from the format.
    pub fn base(&self) -> (r: Option<u32>)
        ensures
            r == self.parsed().base,
    {
        self.parsed.base
    }
}

fn parse_trim(f: &Vec<char>) -> (r: (Option<TrimSide>, Option<char>, usize))
    ensures
        trim_clause(f@) == (r.0, r.1, r.2 as nat),
        r.2 <= f@.len(),
{
    let n = f.len();
    if n >= 2 {
        if let Some(t) = TrimSide::from_char(f[1]) {
            return (Some(t), Some(f[0]), 2);
        }
    }
    if n >= 1 {
        if let Some(t) = TrimSide::from_char(f[0]) {
            return (Some(t), None, 1);
        }
    }
    (None, None, 0)
}

fn parse_length(f: &Vec<char>, i: usize) -> (r: (Option<(usize, usize)>, usize))
    requires
        i <= f@.len(),
    ensures
        length_clause(f@.skip(i as int)) == (r.0, (r.1 - i) as nat),
        i <= r.1 <= f@.len(),
{
    let ghost f1 = f@.skip(i as int);
    let n = f.len();
    let start = parse_size(f, i);
    let j = match start {
        Some((_, k)) => k,
        None => i,
    };
    let ghost n1 = j - i;
    proof {
        assert(f1.skip(n1) =~= f@.skip(j as int));
    }
    if n >= 2 && j <= n - 2 && f[j] == '.' && f[j + 1] == '.' {
        let end = parse_size(f, j + 2);
        proof {
            assert(f1.skip(n1).skip(2) =~= f@.skip(j + 2));
        }
        let lo = match start {
            Some((v, _)) => v,
            None => 0,
        };
        let hi = match end {
            Some((v, _)) => v,
            None => usize::MAX,
        };
        let hi = if hi < lo {
            lo
        } else {
            hi
        };
        let k = match end {
            Some((_, k)) => k,
            None => j + 2,
        };
        (Some((lo, hi)), k)
    } else {
        proof {
            if n >= 2 && j <= n - 2 {
                assert(f1.skip(n1)[0] == f[j as int]);
                assert(f1.skip(n1)[1] == f[j + 1]);
            }
        }
        let range = match start {
            Some((v, _)) => Some((v, v)),
            None => None,
        };
        (range, j)
    }
}

fn parse_base(f: &Vec<char>, j: usize) -> (r: (Option<u32>, usize))
    requires
        j <= f@.len(),
    ensures
        r.0 == if j < f@.len() { radix_letter(f@[j as int]) } else { None },
        r.1 == if r.0 is Some { j + 1 } else { j as int },
{
    if j < f.len() {
        let c = f[j];
        if c == 'd' || c == 'D' {
            (Some(10), j + 1)
        } else if c == 'x' || c == 'X' {
            (Some(16), j + 1)
        } else if c == 'o' || c == 'O' {
            (Some(8), j + 1)
        } else {
            (None, j)
        }
    } else {
        (None, j)
    }
}

fn chars_from(f: &Vec<char>, k: usize) -> (r: String)
    requires
        k <= f@.len(),
    ensures
        r@ == f@.skip(k as int),
{
    let mut custom = String::new();
    let mut j = k;
    while j < f.len()
        invariant
            k <= j <= f@.len(),
            custom@ == f@.subrange(k as int, j as int),
        decreases f@.len() - j,
    {
        crate::text::push_char(&mut custom, f[j]);
        j = j + 1;
    }
    assert(custom@ =~= f@.skip(k as int));
    custom
}

/// Parses the format `f`.
pub fn parse_format(f: &Vec<char>) -> (r: ParsedFmt)
    ensures
        parses_to(f@, r),
{
    let (trim_side, trim_char, i) = parse_trim(f);
    let (length_range, j) = parse_length(f, i);
    let (base, k) = parse_base(f, j);
    let custom_fmt = chars_from(f, k);
    proof {
        let f1 = f@.skip(i as int);
        assert(f1.skip((j - i) as int) =~= f@.skip(j as int));
        let f2 = f@.skip(j as int);
        if j < f@.len() {
            assert(f2[0] == f@[j as int]);
        }
        if base is Some {
            assert(f2.skip(1) =~= f@.skip(k as int));
        } else {
            assert(f2 =~= f@.skip(k as int));
        }
    }
    ParsedFmt { custom_fmt, length_range, trim_char, trim_side, base }
}

} // verus!
