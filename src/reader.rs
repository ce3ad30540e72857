//! A character cursor over text, characters or UTF-8 bytes, with peeking and giving back.

use vstd::prelude::*;
use vstd::string::StrSliceExecFns;

use crate::err::{ArgErrKind, ArgError, Span};
use crate::fmt::ReadFmt;
use crate::from_arg::FromRead;
use crate::text::{owned, push_char, push_str};
use crate::utf8::{char_width, decode_utf8, decode_step, utf8_width, Utf8Error, Utf8Step};

verus! {

/// Where a [`Reader`] takes its characters from.
#[derive(Debug)]
pub enum ReaderSource {
    /// Text; the whole `text` is kept so that errors can point into it.
    Str { text: String, chars: Vec<char>, idx: usize },
    /// A sequence of characters.
    Chars { chars: Vec<char>, idx: usize },
    /// A sequence of characters that may hold errors, stored last first.
    Fallible { rev_items: Vec<Result<char, ArgError>> },
    /// UTF-8 encoded bytes.
    Bytes { bytes: Vec<u8>, idx: usize },
}

/// `v` limited to the range of `usize`.
pub open spec fn sat(v: int) -> usize {
    if v <= usize::MAX {
        v as usize
    } else {
        usize::MAX
    }
}

/// Position `pos` advanced over `c`, saturating.
pub open spec fn advance(pos: usize, c: char) -> usize {
    if pos + utf8_width(c) <= usize::MAX {
        (pos + utf8_width(c)) as usize
    } else {
        usize::MAX
    }
}

/// The message of a UTF-8 decoding error.
pub open spec fn utf8_error_text(e: Utf8Error) -> Seq<char> {
    match e {
        Utf8Error::InvalidLeading => "Invalid leading utf8 byte."@,
        Utf8Error::ExpectedMore => "Utf8 expected more bytes."@,
        Utf8Error::Overlong => "Utf8 overlong encoding."@,
        Utf8Error::InvalidTrailing => "Invalid utf8 trailing byte."@,
        Utf8Error::InvalidCode => "Invalid utf8 code."@,
    }
}

/// An error with no argument and the given message.
pub open spec fn is_bare_error(e: ArgError, kind: ArgErrKind, msg: Seq<char>) -> bool {
    &&& e.ctx().kind == kind
    &&& e.ctx().args@.len() == 1
    &&& e.ctx().args@[0]@.len() == 0
    &&& e.ctx().error_idx == 0
    &&& e.ctx().error_span == (Span { start: 0, end: 0 })
    &&& e.ctx().inline_msg matches Some(m) && m@ == msg
}

/// Taking the next character from a source: `old` becomes `new` and `r` is
/// returned.
pub open spec fn source_step(old: ReaderSource, new: ReaderSource, r: Result<Option<char>, ArgError>) -> bool {
    match old {
        ReaderSource::Str { text, chars, idx } => if idx < chars@.len() {
            r == Ok::<Option<char>, ArgError>(Some(chars@[idx as int]))
                && new == (ReaderSource::Str { text, chars, idx: (idx + 1) as usize })
        } else {
            r == Ok::<Option<char>, ArgError>(None) && new == old
        },
        ReaderSource::Chars { chars, idx } => if idx < chars@.len() {
            r == Ok::<Option<char>, ArgError>(Some(chars@[idx as int]))
                && new == (ReaderSource::Chars { chars, idx: (idx + 1) as usize })
        } else {
            r == Ok::<Option<char>, ArgError>(None) && new == old
        },
        ReaderSource::Fallible { rev_items } => if rev_items@.len() == 0 {
            r == Ok::<Option<char>, ArgError>(None) && new == old
        } else {
            &&& new is Fallible
            &&& new->rev_items@ == rev_items@.drop_last()
            &&& match rev_items@.last() {
                Ok(c) => r == Ok::<Option<char>, ArgError>(Some(c)),
                Err(_) => r is Err,
            }
        },
        ReaderSource::Bytes { bytes, idx } => {
            &&& idx <= bytes@.len()
            &&& match decode_step(bytes@.subrange(idx as int, bytes@.len() as int)) {
                Utf8Step::End => r == Ok::<Option<char>, ArgError>(None) && new == old,
                Utf8Step::Char(c, n) => r == Ok::<Option<char>, ArgError>(Some(c))
                    && new == (ReaderSource::Bytes { bytes, idx: (idx + n) as usize }),
                Utf8Step::Error(e, n) => {
                    &&& new == (ReaderSource::Bytes { bytes, idx: (idx + n) as usize })
                    &&& r matches Err(er) && is_bare_error(er, ArgErrKind::FailedToParse, utf8_error_text(e))
                },
            }
        },
    }
}

/// The unread characters of a text source.
pub open spec fn source_rest(s: ReaderSource) -> Seq<char> {
    match s {
        ReaderSource::Str { chars, idx, .. } => chars@.subrange(idx as int, chars@.len() as int),
        ReaderSource::Chars { chars, idx } => chars@.subrange(idx as int, chars@.len() as int),
        _ => Seq::empty(),
    }
}

/// Struct that allows formatted reading.
#[derive(Debug)]
pub struct Reader {
    pub source: ReaderSource,
    /// Characters given back, the next one last.
    pub undone: Vec<char>,
    /// Byte position after the last returned character.
    pub pos: usize,
}

impl Reader {
    /// The source holds characters rather than bytes or fallible items.
    pub open spec fn is_text(&self) -> bool {
        self.source is Str || self.source is Chars
    }

    /// `new` reads from the same kind of source, and the same text if any.
    pub open spec fn keeps_source(&self, new: &Reader) -> bool {
        &&& self.is_text() == new.is_text()
        &&& self.source_text() == new.source_text()
    }

    /// The whole of the text this reader reads, when it reads text.
    pub open spec fn source_text(&self) -> Option<Seq<char>> {
        match self.source {
            ReaderSource::Str { text, .. } => Some(text@),
            _ => None,
        }
    }

    pub open spec fn well_formed(&self) -> bool {
        match self.source {
            ReaderSource::Str { chars, idx, .. } => idx <= chars@.len() <= usize::MAX,
            ReaderSource::Chars { chars, idx } => idx <= chars@.len() <= usize::MAX,
            ReaderSource::Fallible { .. } => true,
            ReaderSource::Bytes { bytes, idx } => idx <= bytes@.len(),
        }
    }

    /// A bound on how many more characters can be read.
    pub open spec fn measure(&self) -> nat {
        self.undone@.len() + match self.source {
            ReaderSource::Str { chars, idx, .. } => (chars@.len() - idx) as nat,
            ReaderSource::Chars { chars, idx } => (chars@.len() - idx) as nat,
            ReaderSource::Fallible { rev_items } => rev_items@.len(),
            ReaderSource::Bytes { bytes, idx } => (bytes@.len() - idx) as nat,
        }
    }

    /// The characters that are left, for a text source: those given back,
    /// then the unread rest of the source.
    pub open spec fn rest(&self) -> Seq<char> {
        self.undone@.reverse() + source_rest(self.source)
    }

    proof fn lemma_text_step(&self, new: &Reader, r: Result<Option<char>, ArgError>)
        requires
            self.is_text(),
            self.well_formed(),
            source_step(self.source, new.source, r),
        ensures
            new.is_text(),
            new.well_formed(),
            new.source_text() == self.source_text(),
            source_rest(self.source).len() > 0 ==> r == Ok::<Option<char>, ArgError>(Some(source_rest(self.source)[0]))
                && source_rest(new.source) == source_rest(self.source).skip(1),
            source_rest(self.source).len() == 0 ==> r == Ok::<Option<char>, ArgError>(None)
                && source_rest(new.source) == source_rest(self.source),
    {
        match self.source {
            ReaderSource::Str { text, chars, idx } => {
                if idx < chars@.len() {
                    assert(new.source == (ReaderSource::Str { text, chars, idx: (idx + 1) as usize }));
                    assert(source_rest(new.source) =~= source_rest(self.source).skip(1));
                }
            },
            ReaderSource::Chars { chars, idx } => {
                if idx < chars@.len() {
                    assert(new.source == (ReaderSource::Chars { chars, idx: (idx + 1) as usize }));
                    assert(source_rest(new.source) =~= source_rest(self.source).skip(1));
                }
            },
            _ => {},
        }
    }

    /// `new` reads the same source as `self`, with `n` characters fewer left.
    pub open spec fn advanced_text(&self, new: &Reader, n: nat) -> bool {
        &&& new.well_formed()
        &&& new.is_text()
        &&& new.source_text() == self.source_text()
        &&& n <= self.rest().len()
        &&& new.rest() == self.rest().skip(n as int)
    }

    fn from_source(source: ReaderSource) -> (r: Self)
        ensures
            r.source == source,
            r.undone@.len() == 0,
            r.pos == 0,
    {
        Reader { source, undone: Vec::new(), pos: 0 }
    }

    /// A reader of the characters of `s`, which also points errors into `s`.
    pub fn from_str(s: &str) -> (r: Self)
        ensures
            r.well_formed(),
            r.is_text(),
            r.source_text() == Some(s@),
            r.rest() == s@,
            r.pos == 0,
    {
        Self::from_string(owned(s))
    }

    /// A reader of the characters of `s`, which also points errors into `s`.
    pub fn from_string(s: String) -> (r: Self)
        ensures
            r.well_formed(),
            r.is_text(),
            r.source_text() == Some(s@),
            r.rest() == s@,
            r.pos == 0,
    {
        let chars = chars_of(s.as_str());
        // A length is a `usize`; asking for it records that bound.
        let _n = chars.len();
        let r = Self::from_source(ReaderSource::Str { text: s, chars, idx: 0 });
        assert(r.undone@.reverse() =~= Seq::<char>::empty());
        assert(r.rest() =~= s@);
        r
    }

    /// A reader of the given characters.
    pub fn from_chars(chars: Vec<char>) -> (r: Self)
        ensures
            r.well_formed(),
            r.is_text(),
            r.source_text() is None,
            r.rest() == chars@,
            r.pos == 0,
    {
        let ghost c = chars@;
        // A length is a `usize`; asking for it records that bound.
        let _n = chars.len();
        let r = Self::from_source(ReaderSource::Chars { chars, idx: 0 });
        assert(r.undone@.reverse() =~= Seq::<char>::empty());
        assert(r.rest() =~= c);
        r
    }

    /// A reader of characters that may be errors; an error is returned when
    /// it is reached.
    pub fn from_results(items: Vec<Result<char, ArgError>>) -> (r: Self)
        ensures
            r.well_formed(),
            r.source is Fallible,
            r.source->rev_items@ == items@.reverse(),
            r.pos == 0,
    {
        let mut items = items;
        let ghost orig = items@;
        let mut rev_items: Vec<Result<char, ArgError>> = Vec::new();
        while items.len() > 0
            invariant
                orig == items@ + rev_items@.reverse(),
            decreases items@.len(),
        {
            let ghost before = items@;
            let x = items.pop().unwrap();
            rev_items.push(x);
            proof {
                assert(rev_items@.reverse() =~= seq![x] + rev_items@.drop_last().reverse());
                assert(before =~= items@ + seq![x]);
                assert(orig =~= items@ + rev_items@.reverse());
            }
        }
        assert(orig =~= rev_items@.reverse());
        proof {
            assert(rev_items@ =~= orig.reverse());
        }
        Self::from_source(ReaderSource::Fallible { rev_items })
    }

    /// A reader that decodes UTF-8 from the given bytes.
    pub fn from_bytes(bytes: Vec<u8>) -> (r: Self)
        ensures
            r.well_formed(),
            r.source == (ReaderSource::Bytes { bytes, idx: 0 }),
            r.undone@.len() == 0,
            r.pos == 0,
    {
        Self::from_source(ReaderSource::Bytes { bytes, idx: 0 })
    }

    /// Get the position after the last returned char.
    pub fn pos(&self) -> (r: usize)
        ensures
            r == self.pos,
    {
        self.pos
    }

    /// Gets the low estimate of the remaining bytes.
    pub fn bytes_size_hint(&self) -> (r: usize)
        requires
            self.well_formed(),
        ensures
            r == sat(match self.source {
                ReaderSource::Bytes { .. } => self.undone@.len() as int,
                ReaderSource::Fallible { rev_items } => (rev_items@.len() + self.undone@.len()) as int,
                ReaderSource::Str { chars, idx, .. } => chars@.len() - idx + self.undone@.len(),
                ReaderSource::Chars { chars, idx } => chars@.len() - idx + self.undone@.len(),
            }),
    {
        match &self.source {
            ReaderSource::Bytes { .. } => self.undone.len(),
            ReaderSource::Fallible { rev_items } => rev_items.len().saturating_add(self.undone.len()),
            ReaderSource::Str { chars, idx, .. } => (chars.len() - *idx).saturating_add(self.undone.len()),
            ReaderSource::Chars { chars, idx } => (chars.len() - *idx).saturating_add(self.undone.len()),
        }
    }

    proof fn lemma_rest_pop(&self, new: &Reader)
        requires
            self.is_text(),
            self.well_formed(),
            self.undone@.len() > 0,
            new.source == self.source,
            new.undone@ == self.undone@.drop_last(),
        ensures
            self.rest().len() > 0,
            self.rest()[0] == self.undone@.last(),
            new.rest() == self.rest().skip(1),
    {
        assert(self.undone@.reverse() =~= seq![self.undone@.last()] + new.undone@.reverse());
        assert(new.rest() =~= self.rest().skip(1));
    }

    /// Takes the next character from the source itself.
    fn next_inner(&mut self) -> (r: Result<Option<char>, ArgError>)
        requires
            old(self).well_formed(),
        ensures
            source_step(old(self).source, final(self).source, r),
            final(self).well_formed(),
            old(self).keeps_source(final(self)),
            final(self).undone == old(self).undone,
            final(self).pos == old(self).pos,
            final(self).measure() <= old(self).measure(),
            r matches Ok(Some(_)) ==> final(self).measure() < old(self).measure(),
    {
        match &mut self.source {
            ReaderSource::Str { chars, idx, .. } => {
                if *idx < chars.len() {
                    let c = chars[*idx];
                    *idx = *idx + 1;
                    Ok(Some(c))
                } else {
                    Ok(None)
                }
            },
            ReaderSource::Chars { chars, idx } => {
                if *idx < chars.len() {
                    let c = chars[*idx];
                    *idx = *idx + 1;
                    Ok(Some(c))
                } else {
                    Ok(None)
                }
            },
            ReaderSource::Fallible { rev_items } => {
                if rev_items.len() == 0 {
                    return Ok(None);
                }
                match rev_items.pop() {
                    Some(Ok(c)) => Ok(Some(c)),
                    Some(Err(e)) => Err(e),
                    None => Ok(None),
                }
            },
            ReaderSource::Bytes { bytes, idx } => {
                // A length is a `usize`; asking for it records that bound.
                let _n = bytes.len();
                match decode_utf8(bytes.as_slice(), *idx) {
                Utf8Step::End => Ok(None),
                Utf8Step::Char(c, n) => {
                    *idx = *idx + n;
                    Ok(Some(c))
                },
                Utf8Step::Error(e, n) => {
                    *idx = *idx + n;
                    Err(parse_msg(utf8_error_message(e)))
                },
                }
            },
        }
    }

    /// Peek at the next character.
    pub fn peek(&mut self) -> (r: Result<Option<char>, ArgError>)
        requires
            old(self).well_formed(),
        ensures
            final(self).well_formed(),
            old(self).keeps_source(final(self)),
            final(self).pos == old(self).pos,
            final(self).measure() <= old(self).measure(),
            old(self).undone@.len() > 0 ==> r == Ok::<Option<char>, ArgError>(Some(old(self).undone@.last()))
                && *final(self) == *old(self),
            old(self).undone@.len() == 0 ==> source_step(old(self).source, final(self).source, r)
                && final(self).undone@ == match r {
                    Ok(Some(c)) => seq![c],
                    _ => Seq::<char>::empty(),
                },
            old(self).is_text() ==> old(self).advanced_text(final(self), 0) && r == Ok::<Option<char>, ArgError>(
                if old(self).rest().len() > 0 {
                    Some(old(self).rest()[0])
                } else {
                    None
                },
            ),
    {
        if self.undone.len() == 0 {
            let n = self.next_inner();
            if let Ok(Some(c)) = n {
                self.undone.push(c);
            }
            proof {
                if old(self).is_text() {
                    old(self).lemma_text_step(self, n);
                    assert(self.undone@.reverse() =~= self.undone@);
                    assert(old(self).undone@.reverse() =~= Seq::<char>::empty());
                    assert(self.rest() =~= old(self).rest());
                    assert(old(self).rest().skip(0) =~= old(self).rest());
                }
            }
            n
        } else {
            let c = self.undone[self.undone.len() - 1];
            proof {
                if self.is_text() {
                    assert(self.rest()[0] == c) by {
                        assert(self.undone@.reverse()[0] == c);
                    }
                    assert(self.rest().skip(0) =~= self.rest());
                }
            }
            Ok(Some(c))
        }
    }

    /// Gets the next character.
    pub fn next(&mut self) -> (r: Result<Option<char>, ArgError>)
        requires
            old(self).well_formed(),
        ensures
            final(self).well_formed(),
            old(self).keeps_source(final(self)),
            final(self).measure() <= old(self).measure(),
            r matches Ok(Some(_)) ==> final(self).measure() < old(self).measure(),
            old(self).undone@.len() > 0 ==> r == Ok::<Option<char>, ArgError>(Some(old(self).undone@.last()))
                && final(self).source == old(self).source
                && final(self).undone@ == old(self).undone@.drop_last(),
            old(self).undone@.len() == 0 ==> source_step(old(self).source, final(self).source, r)
                && final(self).undone == old(self).undone,
            match r {
                Ok(Some(c)) => final(self).pos == advance(old(self).pos, c),
                _ => final(self).pos == old(self).pos,
            },
            old(self).is_text() ==> r == Ok::<Option<char>, ArgError>(
                if old(self).rest().len() > 0 {
                    Some(old(self).rest()[0])
                } else {
                    None
                },
            ) && old(self).advanced_text(final(self), if old(self).rest().len() > 0 { 1 } else { 0 }),
    {
        let c = if self.undone.len() > 0 {
            let c = self.undone.pop().unwrap();
            proof {
                if old(self).is_text() {
                    old(self).lemma_rest_pop(self);
                }
            }
            c
        } else {
            let n = self.next_inner();
            proof {
                if old(self).is_text() {
                    old(self).lemma_text_step(self, n);
                    assert(old(self).undone@.reverse() =~= Seq::<char>::empty());
                    assert(self.undone@.reverse() =~= Seq::<char>::empty());
                    assert(old(self).rest() =~= source_rest(old(self).source));
                    assert(self.rest() =~= source_rest(self.source));
                    assert(self.rest().skip(0) =~= self.rest());
                    assert(old(self).rest().skip(0) =~= old(self).rest());
                }
            }
            match n {
                Ok(Some(c)) => c,
                other => {
                    return other;
                },
            }
        };
        let w = char_width(c);
        self.pos = if self.pos <= usize::MAX - w {
            self.pos + w
        } else {
            usize::MAX
        };
        Ok(Some(c))
    }

    /// Gives back `c`, so that it is the next character.
    pub fn unnext(&mut self, c: char)
        ensures
            final(self).source == old(self).source,
            final(self).undone@ == old(self).undone@.push(c),
            final(self).pos == if old(self).pos >= utf8_width(c) {
                (old(self).pos - utf8_width(c)) as usize
            } else {
                0
            },
            old(self).well_formed() ==> final(self).well_formed(),
            old(self).is_text() ==> final(self).rest() == seq![c] + old(self).rest(),
    {
        self.pos = self.pos.saturating_sub(char_width(c));
        let ghost before = self.undone@;
        self.undone.push(c);
        proof {
            assert(self.undone@.reverse() =~= seq![c] + before.reverse());
            assert(final(self).rest() =~= seq![c] + old(self).rest());
        }
    }

    /// Gives back the characters of `s`, so that they are read next in their
    /// order.
    pub fn prepend(&mut self, s: &[char])
        ensures
            final(self).source == old(self).source,
            final(self).undone@ == old(self).undone@ + s@.reverse(),
            old(self).well_formed() ==> final(self).well_formed(),
            old(self).is_text() ==> final(self).rest() == s@ + old(self).rest(),
    {
        let mut i = s.len();
        while i > 0
            invariant
                i <= s@.len(),
                self.source == old(self).source,
                self.undone@ == old(self).undone@ + s@.subrange(i as int, s@.len() as int).reverse(),
                old(self).is_text() ==> self.rest() == s@.subrange(i as int, s@.len() as int) + old(self).rest(),
            decreases i,
        {
            i = i - 1;
            let ghost prev = self.undone@;
            self.unnext(s[i]);
            proof {
                assert(s@.subrange(i as int, s@.len() as int) =~= seq![s@[i as int]] + s@.subrange(i + 1, s@.len() as int));
                assert(s@.subrange(i as int, s@.len() as int).reverse() =~= s@.subrange(i + 1, s@.len() as int).reverse().push(s@[i as int]));
                assert(self.undone@ =~= old(self).undone@ + s@.subrange(i as int, s@.len() as int).reverse());
                if old(self).is_text() {
                    assert(self.rest() =~= s@.subrange(i as int, s@.len() as int) + old(self).rest());
                }
            }
        }
        assert(s@.subrange(0, s@.len() as int) =~= s@);
    }

    /// Creates a parse error with the given message, pointing at the last
    /// returned character.
    pub fn err_parse(&self, msg: String) -> (r: ArgError)
        ensures
            r.ctx().kind == ArgErrKind::FailedToParse,
            r.ctx().inline_msg == Some(msg),
            r.ctx().long_msg is None && r.ctx().hint is None,
            r.ctx().args@.len() == 1,
            r.ctx().error_idx == 0,
            match self.source {
                ReaderSource::Str { text, .. } => r.ctx().args@[0]@ == text@ && r.ctx().error_span == (Span {
                    start: if self.pos >= 1 { (self.pos - 1) as usize } else { 0usize },
                    end: self.pos,
                }),
                _ => r.ctx().args@[0]@.len() == 0 && r.ctx().error_span == (Span { start: 0, end: 0 }),
            },
    {
        let e = parse_msg(msg);
        let r = self.map_err(e);
        proof {
            assert(r.ctx().args@.map_values(|a: String| a@).len() == r.ctx().args@.len());
            if self.source is Str {
                assert(r.ctx().args@.map_values(|a: String| a@)[0] == r.ctx().args@[0]@);
            }
        }
        r
    }

    /// Creates a value error with the given message, pointing at the last
    /// returned character.
    pub fn err_value(&self, msg: String) -> (r: ArgError)
        ensures
            r.ctx().kind == ArgErrKind::InvalidValue,
            r.ctx().inline_msg == Some(msg),
            r.ctx().long_msg is None && r.ctx().hint is None,
            r.ctx().args@.len() == 1,
            r.ctx().error_idx == 0,
            match self.source {
                ReaderSource::Str { text, .. } => r.ctx().args@[0]@ == text@ && r.ctx().error_span == (Span {
                    start: if self.pos >= 1 { (self.pos - 1) as usize } else { 0usize },
                    end: self.pos,
                }),
                _ => r.ctx().args@[0]@.len() == 0 && r.ctx().error_span == (Span { start: 0, end: 0 }),
            },
    {
        let e = value_msg(msg);
        let r = self.map_err(e);
        proof {
            assert(r.ctx().args@.map_values(|a: String| a@).len() == r.ctx().args@.len());
            if self.source is Str {
                assert(r.ctx().args@.map_values(|a: String| a@)[0] == r.ctx().args@[0]@);
            }
        }
        r
    }

    /// Points `e` at the position of the next character of a text source.
    pub fn map_err_peek(&self, e: ArgError) -> (r: ArgError)
        ensures
            match self.source {
                ReaderSource::Str { text, .. } => {
                    &&& r.ctx().args@.map_values(|a: String| a@) == e.ctx().args_with(text@)
                    &&& r.ctx().error_idx == if e.ctx().error_idx < e.ctx().args@.len() {
                        e.ctx().error_idx
                    } else {
                        0
                    }
                    &&& r.ctx().error_span == (Span { start: self.pos, end: self.pos })
                    &&& r.ctx().same_message(&e.ctx())
                },
                _ => r == e,
            },
    {
        match &self.source {
            ReaderSource::Str { text, .. } => {
                e.shift_span(self.pos, text.clone()).spanned(Span { start: self.pos, end: self.pos })
            },
            _ => e,
        }
    }

    /// Creates a parse error with the given message, pointing at the next
    /// character.
    pub fn err_parse_peek(&self, msg: String) -> (r: ArgError)
        ensures
            r.ctx().kind == ArgErrKind::FailedToParse,
            r.ctx().inline_msg == Some(msg),
            r.ctx().long_msg is None && r.ctx().hint is None,
            r.ctx().args@.len() == 1,
            r.ctx().error_idx == 0,
            match self.source {
                ReaderSource::Str { text, .. } => r.ctx().args@[0]@ == text@ && r.ctx().error_span == (Span { start: self.pos, end: self.pos }),
                _ => r.ctx().args@[0]@.len() == 0 && r.ctx().error_span == (Span { start: 0, end: 0 }),
            },
    {
        let e = parse_msg(msg);
        let r = self.map_err_peek(e);
        proof {
            assert(r.ctx().args@.map_values(|a: String| a@).len() == r.ctx().args@.len());
            if self.source is Str {
                assert(r.ctx().args@.map_values(|a: String| a@)[0] == r.ctx().args@[0]@);
            }
        }
        r
    }

    /// Creates a value error with the given message, pointing at the next
    /// character.
    pub fn err_value_peek(&self, msg: String) -> (r: ArgError)
        ensures
            r.ctx().kind == ArgErrKind::InvalidValue,
            r.ctx().inline_msg == Some(msg),
            r.ctx().long_msg is None && r.ctx().hint is None,
            r.ctx().args@.len() == 1,
            r.ctx().error_idx == 0,
            match self.source {
                ReaderSource::Str { text, .. } => r.ctx().args@[0]@ == text@ && r.ctx().error_span == (Span { start: self.pos, end: self.pos }),
                _ => r.ctx().args@[0]@.len() == 0 && r.ctx().error_span == (Span { start: 0, end: 0 }),
            },
    {
        let e = value_msg(msg);
        let r = self.map_err_peek(e);
        proof {
            assert(r.ctx().args@.map_values(|a: String| a@).len() == r.ctx().args@.len());
            if self.source is Str {
                assert(r.ctx().args@.map_values(|a: String| a@)[0] == r.ctx().args@[0]@);
            }
        }
        r
    }

    /// Consumes the characters of `s`, failing at the first one that does not
    /// match or is missing.
    pub fn expect(&mut self, s: &str) -> (r: Result<(), ArgError>)
        requires
            old(self).well_formed(),
        ensures
            final(self).well_formed(),
            old(self).keeps_source(final(self)),
            final(self).measure() <= old(self).measure(),
            r is Err ==> r->Err_0.ctx().kind == ArgErrKind::FailedToParse || !old(self).is_text(),
            old(self).is_text() ==> (r is Ok <==> s@.len() <= old(self).rest().len() && old(self).rest().take(
                s@.len() as int,
            ) == s@),
            old(self).is_text() && r is Ok ==> old(self).advanced_text(final(self), s@.len()),
            old(self).is_text() && r is Err ==> expect_failure(old(self).rest(), s@, r->Err_0),
    {
        let n = s.unicode_len();
        let mut i: usize = 0;
        proof {
            if old(self).is_text() {
                assert(old(self).rest().skip(0) =~= old(self).rest());
                assert(old(self).rest().take(0) =~= s@.take(0));
            }
        }
        while i < n
            invariant
                n == s@.len(),
                i <= n,
                self.well_formed(),
                old(self).keeps_source(self),
                self.measure() <= old(self).measure(),
                old(self).is_text() ==> i <= old(self).rest().len() && old(self).rest().take(i as int) == s@.take(
                    i as int,
                ) && old(self).advanced_text(self, i as nat),
            decreases n - i,
        {
            let p = s.get_char(i);
            let ghost before = *self;
            match self.next() {
                Ok(Some(c)) => {
                    if c != p {
                        let mut msg = owned("Unexpected character `");
                        push_char(&mut msg, c);
                        push_str(&mut msg, "`.");
                        let mut inline = owned("Expected `");
                        push_char(&mut inline, p);
                        push_str(&mut inline, "` to form `");
                        push_str(&mut inline, s);
                        push_str(&mut inline, "`.");
                        let ghost msg_v = msg@;
                        let ghost inline_v = inline@;
                        let e = self.err_parse(inline).long_msg(msg);
                        proof {
                            if old(self).is_text() {
                                assert(old(self).rest()[i as int] == before.rest()[0]);
                                assert(s@[i as int] == p);
                                assert(msg_v =~= "Unexpected character `"@ + seq![c] + "`."@);
                                assert(inline_v =~= "Expected `"@ + seq![p] + "` to form `"@ + s@ + "`."@);
                                assert(e.ctx().long_msg matches Some(m) && m@ == msg_v);
                                assert(e.ctx().inline_msg matches Some(m) && m@ == inline_v);
                                assert(expect_mismatch_at(old(self).rest(), s@, e, i as int));
                            }
                        }
                        return Err(e);
                    }
                },
                Ok(None) => {
                    let mut inline = owned("Expected `");
                    push_char(&mut inline, p);
                    push_str(&mut inline, "` to form `");
                    push_str(&mut inline, s);
                    push_str(&mut inline, "`");
                    let ghost inline_v = inline@;
                    let e = self.err_parse(inline).long_msg(owned("Unexpected end of string."));
                    proof {
                        if old(self).is_text() {
                            assert(s@[i as int] == p);
                            assert(inline_v =~= "Expected `"@ + seq![p] + "` to form `"@ + s@ + "`"@);
                            assert(e.ctx().inline_msg matches Some(m) && m@ == inline_v);
                            assert(before.rest().len() == 0);
                            assert(i == old(self).rest().len());
                            assert(expect_mismatch_at(old(self).rest(), s@, e, i as int));
                        }
                    }
                    return Err(e);
                },
                Err(e) => {
                    return Err(e);
                },
            }
            proof {
                if old(self).is_text() {
                    assert(old(self).rest()[i as int] == before.rest()[0]);
                    assert(old(self).rest().take(i + 1) =~= old(self).rest().take(i as int).push(p));
                    assert(s@.take(i + 1) =~= s@.take(i as int).push(p));
                    assert(self.rest() =~= old(self).rest().skip(i + 1));
                }
            }
            i = i + 1;
        }
        proof {
            assert(s@.take(n as int) =~= s@);
        }
        Ok(())
    }

    /// Skips characters while `f` holds of them.
    pub fn skip_while<F: Fn(char) -> bool>(&mut self, f: F) -> (r: Result<(), ArgError>)
        requires
            old(self).well_formed(),
            forall|c: char| f.requires((c,)),
        ensures
            final(self).well_formed(),
            old(self).keeps_source(final(self)),
            final(self).measure() <= old(self).measure(),
            old(self).is_text() ==> r is Ok && exists|k: nat|
                old(self).advanced_text(final(self), k) && (forall|i: int|
                    0 <= i < k ==> f.ensures((old(self).rest()[i],), true)) && (k < old(self).rest().len()
                    ==> f.ensures((old(self).rest()[k as int],), false)),
    {
        let ghost mut k: nat = 0;
        proof {
            if old(self).is_text() {
                assert(old(self).rest().skip(0) =~= old(self).rest());
            }
        }
        loop
            invariant
                self.well_formed(),
                old(self).keeps_source(self),
                self.measure() <= old(self).measure(),
                forall|c: char| f.requires((c,)),
                old(self).is_text() ==> old(self).advanced_text(self, k) && (forall|i: int|
                    0 <= i < k ==> f.ensures((old(self).rest()[i],), true)),
            decreases self.measure(),
        {
            let ghost before = *self;
            match self.peek() {
                Ok(Some(c)) => {
                    if !f(c) {
                        proof {
                            if old(self).is_text() {
                                assert(old(self).rest()[k as int] == before.rest()[0]);
                                assert(self.rest() =~= old(self).rest().skip(k as int));
                                assert(old(self).advanced_text(self, k));
                            }
                        }
                        return Ok(());
                    }
                    let _ = self.next();
                    proof {
                        if old(self).is_text() {
                            assert(old(self).rest()[k as int] == before.rest()[0]);
                            assert(self.rest() =~= old(self).rest().skip(k + 1 as int));
                            k = k + 1;
                        }
                    }
                },
                Ok(None) => {
                    proof {
                        if old(self).is_text() {
                            assert(self.rest() =~= old(self).rest().skip(k as int));
                            assert(old(self).advanced_text(self, k));
                        }
                    }
                    return Ok(());
                },
                Err(e) => {
                    return Err(e);
                },
            }
        }
    }

    /// Reads at most `max` characters to the end of `s`.
    pub fn read_to(&mut self, s: &mut String, max: usize) -> (r: Result<(), ArgError>)
        requires
            old(self).well_formed(),
        ensures
            final(self).well_formed(),
            old(self).keeps_source(final(self)),
            final(self).measure() <= old(self).measure(),
            old(self).is_text() ==> {
                let k = if max < old(self).rest().len() { max as nat } else { old(self).rest().len() };
                &&& r is Ok
                &&& final(s)@ == old(s)@ + old(self).rest().take(k as int)
                &&& old(self).advanced_text(final(self), k)
            },
    {
        let mut i: usize = 0;
        proof {
            if old(self).is_text() {
                assert(old(self).rest().skip(0) =~= old(self).rest());
                assert(old(self).rest().take(0) =~= Seq::<char>::empty());
                assert(s@ =~= old(s)@ + old(self).rest().take(0));
            }
        }
        while i < max
            invariant
                self.well_formed(),
                old(self).keeps_source(self),
                self.measure() <= old(self).measure(),
                i <= max,
                old(self).is_text() ==> i <= old(self).rest().len() && s@ == old(s)@ + old(self).rest().take(
                    i as int,
                ) && old(self).advanced_text(self, i as nat),
            decreases max - i,
        {
            let ghost before = *self;
            match self.next() {
                Ok(Some(c)) => {
                    push_char(s, c);
                    proof {
                        if old(self).is_text() {
                            assert(old(self).rest()[i as int] == before.rest()[0]);
                            assert(old(self).rest().take(i + 1) =~= old(self).rest().take(i as int).push(c));
                            assert(self.rest() =~= old(self).rest().skip(i + 1));
                        }
                    }
                },
                Ok(None) => {
                    return Ok(());
                },
                Err(e) => {
                    return Err(e);
                },
            }
            i = i + 1;
        }
        Ok(())
    }

    /// Reads all the remaining characters to the end of `s`.
    pub fn read_all(&mut self, s: &mut String) -> (r: Result<(), ArgError>)
        requires
            old(self).well_formed(),
        ensures
            final(self).well_formed(),
            old(self).keeps_source(final(self)),
            old(self).is_text() ==> {
                &&& r is Ok
                &&& final(s)@ == old(s)@ + old(self).rest()
                &&& old(self).advanced_text(final(self), old(self).rest().len())
            },
    {
        let ghost mut i: int = 0;
        proof {
            if old(self).is_text() {
                assert(old(self).rest().skip(0) =~= old(self).rest());
                assert(s@ =~= old(s)@ + old(self).rest().take(0));
            }
        }
        loop
            invariant
                self.well_formed(),
                old(self).keeps_source(self),
                0 <= i,
                old(self).is_text() ==> i <= old(self).rest().len() && s@ == old(s)@ + old(self).rest().take(i)
                    && old(self).advanced_text(self, i as nat),
            decreases self.measure(),
        {
            let ghost before = *self;
            match self.next() {
                Ok(Some(c)) => {
                    push_char(s, c);
                    proof {
                        if old(self).is_text() {
                            assert(old(self).rest()[i] == before.rest()[0]);
                            assert(old(self).rest().take(i + 1) =~= old(self).rest().take(i).push(c));
                            assert(self.rest() =~= old(self).rest().skip(i + 1));
                        }
                        i = i + 1;
                    }
                },
                Ok(None) => {
                    proof {
                        if old(self).is_text() {
                            assert(old(self).rest().take(i) =~= old(self).rest());
                        }
                    }
                    return Ok(());
                },
                Err(e) => {
                    return Err(e);
                },
            }
        }
    }

    /// Consumes the next character if it is `c`; says whether it did.
    pub fn is_next_some(&mut self, c: char) -> (r: Result<bool, ArgError>)
        requires
            old(self).well_formed(),
        ensures
            final(self).well_formed(),
            old(self).keeps_source(final(self)),
            final(self).measure() <= old(self).measure(),
            old(self).is_text() ==> {
                let hit = old(self).rest().len() > 0 && old(self).rest()[0] == c;
                &&& r == Ok::<bool, ArgError>(hit)
                &&& old(self).advanced_text(final(self), if hit { 1 } else { 0 })
            },
    {
        let p = self.peek();
        proof {
            if old(self).is_text() {
                assert(old(self).rest().skip(0) =~= old(self).rest());
            }
        }
        match p {
            Ok(Some(v)) => {
                if v == c {
                    let _ = self.next();
                    proof {
                        if old(self).is_text() {
                            assert(self.rest() =~= old(self).rest().skip(1));
                        }
                    }
                    Ok(true)
                } else {
                    Ok(false)
                }
            },
            Ok(None) => Ok(false),
            Err(e) => Err(e),
        }
    }

    /// Consumes the next character, or the end, if `p` holds of it; says
    /// whether it did.
    pub fn is_next<F: FnOnce(Option<char>) -> bool>(&mut self, p: F) -> (r: Result<bool, ArgError>)
        requires
            old(self).well_formed(),
            forall|c: Option<char>| p.requires((c,)),
        ensures
            final(self).well_formed(),
            old(self).keeps_source(final(self)),
            final(self).measure() <= old(self).measure(),
            old(self).is_text() ==> {
                let n = if old(self).rest().len() > 0 { Some(old(self).rest()[0]) } else { None };
                &&& r is Ok
                &&& p.ensures((n,), r->Ok_0)
                &&& old(self).advanced_text(final(self), if r->Ok_0 && n is Some { 1 } else { 0 })
            },
    {
        let n = match self.peek() {
            Ok(n) => n,
            Err(e) => return Err(e),
        };
        proof {
            if old(self).is_text() {
                assert(old(self).rest().skip(0) =~= old(self).rest());
            }
        }
        if p(n) {
            let _ = self.next();
            proof {
                if old(self).is_text() && n is Some {
                    assert(self.rest() =~= old(self).rest().skip(1));
                }
                if old(self).is_text() && n is None {
                    assert(self.rest() =~= old(self).rest().skip(0));
                }
            }
            Ok(true)
        } else {
            Ok(false)
        }
    }

    /// Skips the characters that are `tc`, or ASCII whitespace when `tc` is `None`.
    pub fn skip_trim(&mut self, tc: Option<char>) -> (r: Result<(), ArgError>)
        requires
            old(self).well_formed(),
        ensures
            final(self).well_formed(),
            old(self).keeps_source(final(self)),
            final(self).measure() <= old(self).measure(),
            old(self).is_text() ==> r is Ok && old(self).advanced_text(
                final(self),
                trim_run(old(self).rest(), tc),
            ),
    {
        let ghost mut k: int = 0;
        proof {
            if old(self).is_text() {
                assert(old(self).rest().skip(0) =~= old(self).rest());
            }
        }
        loop
            invariant
                self.well_formed(),
                old(self).keeps_source(self),
                self.measure() <= old(self).measure(),
                0 <= k,
                old(self).is_text() ==> k <= old(self).rest().len() && old(self).advanced_text(self, k as nat)
                    && forall|i: int| 0 <= i < k ==> is_trimmed(#[trigger] old(self).rest()[i], tc),
            decreases self.measure(),
        {
            let ghost before = *self;
            match self.peek() {
                Ok(Some(c)) => {
                    if !is_trim_char(c, tc) {
                        proof {
                            if old(self).is_text() {
                                assert(old(self).rest()[k] == before.rest()[0]);
                                assert(self.rest() =~= old(self).rest().skip(k));
                                lemma_trim_run_at(old(self).rest(), tc, k as nat);
                            }
                        }
                        return Ok(());
                    }
                    let _ = self.next();
                    proof {
                        if old(self).is_text() {
                            assert(old(self).rest()[k] == before.rest()[0]);
                            assert(self.rest() =~= old(self).rest().skip(k + 1));
                            k = k + 1;
                        }
                    }
                },
                Ok(None) => {
                    proof {
                        if old(self).is_text() {
                            assert(self.rest() =~= old(self).rest().skip(k));
                            lemma_trim_run_at(old(self).rest(), tc, k as nat);
                        }
                    }
                    return Ok(());
                },
                Err(e) => {
                    return Err(e);
                },
            }
        }
    }

    /// Trims characters from the left side according to the given format.
    pub fn trim_left(&mut self, fmt: &ReadFmt) -> (r: Result<(), ArgError>)
        requires
            old(self).well_formed(),
        ensures
            final(self).well_formed(),
            old(self).keeps_source(final(self)),
            final(self).measure() <= old(self).measure(),
            old(self).is_text() ==> r is Ok && old(self).advanced_text(
                final(self),
                match fmt.parsed().trim_side {
                    Some(side) => if side.spec_left() {
                        trim_run(old(self).rest(), fmt.parsed().trim_char)
                    } else {
                        0
                    },
                    None => 0,
                },
            ),
    {
        match fmt.trim() {
            Some((side, tc)) => {
                if side.left() {
                    return self.skip_trim(tc);
                }
            },
            None => {},
        }
        proof {
            if old(self).is_text() {
                assert(old(self).rest().skip(0) =~= old(self).rest());
            }
        }
        Ok(())
    }

    /// Trims characters from the right side according to the given format.
    pub fn trim_right(&mut self, fmt: &ReadFmt) -> (r: Result<(), ArgError>)
        requires
            old(self).well_formed(),
        ensures
            final(self).well_formed(),
            old(self).keeps_source(final(self)),
            final(self).measure() <= old(self).measure(),
            old(self).is_text() ==> r is Ok && old(self).advanced_text(
                final(self),
                match fmt.parsed().trim_side {
                    Some(side) => if side.spec_right() {
                        trim_run(old(self).rest(), fmt.parsed().trim_char)
                    } else {
                        0
                    },
                    None => 0,
                },
            ),
    {
        match fmt.trim() {
            Some((side, tc)) => {
                if side.right() {
                    return self.skip_trim(tc);
                }
            },
            None => {},
        }
        proof {
            if old(self).is_text() {
                assert(old(self).rest().skip(0) =~= old(self).rest());
            }
        }
        Ok(())
    }

    /// Reads the next value of type `T` with the given format.
    pub fn parse<T: FromRead>(&mut self, fmt: &ReadFmt) -> (r: Result<(T, Option<ArgError>), ArgError>)
        requires
            old(self).well_formed(),
            fmt.well_formed(),
            fmt.parsed().length_range matches Some((lo, hi)) ==> lo <= hi,
        ensures
            final(self).well_formed(),
            old(self).keeps_source(final(self)),
            old(self).is_text() ==> T::decoded(old(self).rest(), *fmt, r, final(self).rest()),
    {
        T::from_read(self, fmt)
    }

    /// Points `e` at the last returned character of a text source.
    pub fn map_err(&self, e: ArgError) -> (r: ArgError)
        ensures
            match self.source {
                ReaderSource::Str { text, .. } => {
                    let p = if self.pos >= 1 { (self.pos - 1) as usize } else { 0usize };
                    &&& r.ctx().args@.map_values(|a: String| a@) == e.ctx().args_with(text@)
                    &&& r.ctx().error_idx == if e.ctx().error_idx < e.ctx().args@.len() {
                        e.ctx().error_idx
                    } else {
                        0
                    }
                    &&& r.ctx().error_span == (Span { start: p, end: self.pos })
                    &&& r.ctx().same_message(&e.ctx())
                },
                _ => r == e,
            },
    {
        match &self.source {
            ReaderSource::Str { text, .. } => {
                let p = self.pos.saturating_sub(1);
                e.shift_span(p, text.clone()).spanned(Span { start: p, end: self.pos })
            },
            _ => e,
        }
    }
}

/// `lit` fails to match `rest` first at `i`, and `e` says so: its headline
/// names the character found or the end of the text, and its inline message
/// names the character expected.
pub open spec fn expect_mismatch_at(rest: Seq<char>, lit: Seq<char>, e: ArgError, i: int) -> bool {
    &&& 0 <= i < lit.len()
    &&& i <= rest.len()
    &&& rest.take(i) == lit.take(i)
    &&& e.ctx().kind == ArgErrKind::FailedToParse
    &&& if i == rest.len() {
        &&& e.ctx().long_msg matches Some(m) && m@ == "Unexpected end of string."@
        &&& e.ctx().inline_msg matches Some(m) && m@ == "Expected `"@ + seq![lit[i]] + "` to form `"@ + lit + "`"@
    } else {
        &&& rest[i] != lit[i]
        &&& e.ctx().long_msg matches Some(m) && m@ == "Unexpected character `"@ + seq![rest[i]] + "`."@
        &&& e.ctx().inline_msg matches Some(m) && m@ == "Expected `"@ + seq![lit[i]] + "` to form `"@ + lit + "`."@
    }
}

/// Matching `lit` against `rest` fails, with the error `e` at the first mismatch.
pub open spec fn expect_failure(rest: Seq<char>, lit: Seq<char>, e: ArgError) -> bool {
    exists|i: int| expect_mismatch_at(rest, lit, e, i)
}

/// Whether `c` is removed by trimming with `tc`: `c` is `tc`, or ASCII
/// whitespace when `tc` is `None`.
pub open spec fn is_trimmed(c: char, tc: Option<char>) -> bool {
    match tc {
        Some(t) => c == t,
        None => c == ' ' || c == '\t' || c == '\n' || c == '\x0C' || c == '\r',
    }
}

/// How many characters trimming with `tc` removes from the start of `s`.
pub open spec fn trim_run(s: Seq<char>, tc: Option<char>) -> nat
    decreases s.len(),
{
    if s.len() > 0 && is_trimmed(s[0], tc) {
        1 + trim_run(s.drop_first(), tc)
    } else {
        0
    }
}

pub proof fn lemma_trim_run_at(s: Seq<char>, tc: Option<char>, k: nat)
    requires
        k <= s.len(),
        forall|i: int| 0 <= i < k ==> is_trimmed(#[trigger] s[i], tc),
        k == s.len() || !is_trimmed(s[k as int], tc),
    ensures
        trim_run(s, tc) == k,
    decreases k,
{
    if k > 0 {
        assert forall|i: int| 0 <= i < k - 1 implies is_trimmed(#[trigger] s.drop_first()[i], tc) by {
            assert(s.drop_first()[i] == s[i + 1]);
        }
        if k < s.len() {
            assert(s.drop_first()[k - 1] == s[k as int]);
        }
        lemma_trim_run_at(s.drop_first(), tc, (k - 1) as nat);
    }
}

/// Whether `c` is removed by trimming with `tc`.
pub fn is_trim_char(c: char, tc: Option<char>) -> (r: bool)
    ensures
        r == is_trimmed(c, tc),
{
    match tc {
        Some(t) => c == t,
        None => c == ' ' || c == '\t' || c == '\n' || c == '\x0C' || c == '\r',
    }
}

/// The message of a UTF-8 decoding error.
fn utf8_error_message(e: Utf8Error) -> (r: String)
    ensures
        r@ == utf8_error_text(e),
{
    match e {
        Utf8Error::InvalidLeading => owned("Invalid leading utf8 byte."),
        Utf8Error::ExpectedMore => owned("Utf8 expected more bytes."),
        Utf8Error::Overlong => owned("Utf8 overlong encoding."),
        Utf8Error::InvalidTrailing => owned("Invalid utf8 trailing byte."),
        Utf8Error::InvalidCode => owned("Invalid utf8 code."),
    }
}

/// A value error with the given message and no argument text.
pub fn value_msg(msg: String) -> (r: ArgError)
    ensures
        is_bare_error(r, ArgErrKind::InvalidValue, msg@),
        r.ctx().inline_msg == Some(msg),
        r.ctx().long_msg is None,
        r.ctx().hint is None,
        r.ctx().error_idx == 0,
        r.ctx().error_span == (Span { start: 0, end: 0 }),
{
    let e = String::new();
    assert(vstd::utf8::encode_utf8(e@) =~= Seq::<u8>::empty());
    ArgError::from_msg(ArgErrKind::InvalidValue, msg, e)
}

/// A parse error with the given message and no argument text.
pub fn parse_msg(msg: String) -> (r: ArgError)
    ensures
        is_bare_error(r, ArgErrKind::FailedToParse, msg@),
        r.ctx().inline_msg == Some(msg),
        r.ctx().long_msg is None,
        r.ctx().hint is None,
        r.ctx().error_idx == 0,
        r.ctx().error_span == (Span { start: 0, end: 0 }),
{
    let e = String::new();
    assert(vstd::utf8::encode_utf8(e@) =~= Seq::<u8>::empty());
    ArgError::from_msg(ArgErrKind::FailedToParse, msg, e)
}

/// The characters of `s`.
pub fn chars_of(s: &str) -> (r: Vec<char>)
    ensures
        r@ == s@,
{
    let n = s.unicode_len();
    let mut r = Vec::new();
    let mut i: usize = 0;
    while i < n
        invariant
            n == s@.len(),
            i <= n,
            r@ == s@.subrange(0, i as int),
        decreases n - i,
    {
        r.push(s.get_char(i));
        i = i + 1;
    }
    assert(r@ =~= s@);
    r
}

} // verus!
