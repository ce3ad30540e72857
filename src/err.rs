//! The error record: what went wrong, in which argument, and where in it.

use vstd::prelude::*;

use crate::text::{byte_len, find_str, first_occurrence, lemma_first_occurrence, owned};

verus! {

/// What kind of problem an argument error reports.
#[derive(Debug, Clone)]
pub enum ArgErrKind {
    /// There was an unknown argument.
    UnknownArgument,
    /// Expected another argument but there were no more arguments.
    NoMoreArguments,
    /// Failed to parse a string value into a type.
    FailedToParse,
    /// There was no value in a key-value pair.
    NoValue,
    /// The value of argument was invalid.
    InvalidValue,
    /// Argument is specified too many times.
    TooManyArguments,
    /// An input/output failure, with its message.
    Io(String),
    /// A value of the current argument was asked for when there was none.
    NoLastArgument,
}

/// The headline text of each kind.
pub open spec fn kind_text(k: ArgErrKind) -> Seq<char> {
    match k {
        ArgErrKind::UnknownArgument => "Unknown argument."@,
        ArgErrKind::NoMoreArguments => "No more arguments."@,
        ArgErrKind::FailedToParse => "Failed to parse."@,
        ArgErrKind::NoValue => "No value."@,
        ArgErrKind::InvalidValue => "Invalid value."@,
        ArgErrKind::TooManyArguments => "Too many arguments."@,
        ArgErrKind::Io(m) => m@,
        ArgErrKind::NoLastArgument =>
            "There was no last argument when it was expected. If you see this error, it is propably a bug."@,
    }
}

impl ArgErrKind {
    /// The headline text of this kind.
    pub fn message(&self) -> (r: String)
        ensures
            r@ == kind_text(*self),
    {
        match self {
            ArgErrKind::UnknownArgument => owned("Unknown argument."),
            ArgErrKind::NoMoreArguments => owned("No more arguments."),
            ArgErrKind::FailedToParse => owned("Failed to parse."),
            ArgErrKind::NoValue => owned("No value."),
            ArgErrKind::InvalidValue => owned("Invalid value."),
            ArgErrKind::TooManyArguments => owned("Too many arguments."),
            ArgErrKind::Io(m) => m.clone(),
            ArgErrKind::NoLastArgument => owned(
                "There was no last argument when it was expected. If you see this error, it is propably a bug.",
            ),
        }
    }
}

/// When the rendered error uses color.
#[derive(Debug, Clone, Copy, PartialEq, Eq, Structural)]
pub enum ColorMode {
    Always,
    Never,
    /// Color when the error stream is a terminal.
    AutoStderr,
    /// Color when the output stream is a terminal.
    AutoStdout,
}

impl ColorMode {
    /// Resolves the policy, given whether the error and the output streams are
    /// terminals.
    pub fn use_color(&self, stderr_is_terminal: bool, stdout_is_terminal: bool) -> (r: bool)
        ensures
            r == match *self {
                ColorMode::Always => true,
                ColorMode::Never => false,
                ColorMode::AutoStderr => stderr_is_terminal,
                ColorMode::AutoStdout => stdout_is_terminal,
            },
    {
        match self {
            ColorMode::Always => true,
            ColorMode::Never => false,
            ColorMode::AutoStderr => stderr_is_terminal,
            ColorMode::AutoStdout => stdout_is_terminal,
        }
    }
}

impl Default for ColorMode {
    fn default() -> (r: Self)
        ensures
            r == ColorMode::Never,
    {
        ColorMode::Never
    }
}

/// A half-open byte range `start..end` within an argument.
#[derive(Debug, Clone, Copy, PartialEq, Eq, Structural)]
pub struct Span {
    pub start: usize,
    pub end: usize,
}

/// The span `start..end` when it lies within `len` bytes, else the whole `0..len`.
pub open spec fn clamp_span(start: int, end: int, len: int) -> (int, int) {
    if 0 <= start <= end <= len {
        (start, end)
    } else {
        (0, len)
    }
}

/// Information about an error in command line arguments.
#[derive(Debug, Clone)]
pub struct ArgErrCtx {
    pub kind: ArgErrKind,
    /// All command line arguments.
    pub args: Vec<String>,
    /// Index of the erroneous argument in `args`.
    pub error_idx: usize,
    /// Byte range within the argument that is invalid.
    pub error_span: Span,
    /// Short message shown next to the marked span.
    pub inline_msg: Option<String>,
    /// Message describing the problem in detail.
    pub long_msg: Option<String>,
    /// Hint about how to fix the error.
    pub hint: Option<String>,
    /// Determines when color should be used.
    pub color: ColorMode,
    /// Determines whether `error:` is prefixed to the message.
    pub anounce: bool,
}

impl ArgErrCtx {
    /// The text of the erroneous argument.
    pub open spec fn arg_text(&self) -> Seq<char> {
        self.args@[self.error_idx as int]@
    }

    /// The span lies within the erroneous argument.
    pub open spec fn span_within(&self) -> bool {
        &&& self.error_idx < self.args@.len()
        &&& self.error_span.start <= self.error_span.end
        &&& self.error_span.end <= byte_len(self.arg_text())
    }

    /// The arguments after the erroneous one is replaced by `new_arg`.
    pub open spec fn args_with(&self, new_arg: Seq<char>) -> Seq<Seq<char>> {
        if self.error_idx < self.args@.len() {
            self.args@.map_values(|a: String| a@).update(self.error_idx as int, new_arg)
        } else {
            seq![new_arg]
        }
    }

    /// Whether only the fields that describe where the error is differ.
    pub open spec fn same_message(&self, o: &ArgErrCtx) -> bool {
        &&& self.kind == o.kind
        &&& self.inline_msg == o.inline_msg
        &&& self.long_msg == o.long_msg
        &&& self.hint == o.hint
        &&& self.color == o.color
        &&& self.anounce == o.anounce
    }

    /// `new` is this error after `shift_span(cnt, new_arg)`.
    pub open spec fn shifted(&self, cnt: usize, new_arg: String, new: &ArgErrCtx) -> bool {
        &&& new.args@.map_values(|a: String| a@) == self.args_with(new_arg@)
        &&& new.error_idx == if self.error_idx < self.args@.len() {
                self.error_idx
            } else {
                0
            }
        &&& (new.error_span.start as int, new.error_span.end as int) == clamp_span(
                self.error_span.start + cnt,
                self.error_span.end + cnt,
                byte_len(new_arg@) as int,
            )
        &&& new.same_message(self)
    }

    /// `new` is this error after `part_of(arg)`.
    pub open spec fn made_part_of(&self, arg: String, new: &ArgErrCtx) -> bool {
        &&& new.args@.map_values(|a: String| a@) == self.args_with(arg@)
        &&& new.error_idx == if self.error_idx < self.args@.len() {
                self.error_idx
            } else {
                0
            }
        &&& ({
                let s = new.error_span;
                let o = self.error_span;
                let len = byte_len(arg@) as int;
                if self.error_idx < self.args@.len() && byte_len(self.arg_text()) == len {
                    s.start == 0 && s.end == len
                } else if self.error_idx < self.args@.len() && first_occurrence(
                    arg@,
                    self.arg_text(),
                ) is Some {
                    let k = first_occurrence(arg@, self.arg_text())->0;
                    (s.start as int, s.end as int) == clamp_span(o.start + k, o.end + k, len)
                } else {
                    s.start == 0 && s.end == len
                }
            })
        &&& new.same_message(self)
    }

    /// `new` is this error after `add_args(args, idx)`.
    pub open spec fn args_added(&self, args: Vec<String>, idx: usize, new: &ArgErrCtx) -> bool {
        &&& new.args == args
        &&& new.error_idx == idx
        &&& ({
                let s = new.error_span;
                let o = self.error_span;
                let new_text = args@[idx as int]@;
                let len = byte_len(new_text) as int;
                if self.error_idx < self.args@.len() && byte_len(self.arg_text()) != len
                    && first_occurrence(new_text, self.arg_text()) is Some {
                    let k = first_occurrence(new_text, self.arg_text())->0;
                    (s.start as int, s.end as int) == clamp_span(o.start + k, o.end + k, len)
                } else {
                    (s.start as int, s.end as int) == clamp_span(o.start as int, o.end as int, len)
                }
            })
        &&& new.same_message(self)
    }

    /// `new` is this error after `postfix_of(arg)`.
    pub open spec fn made_postfix_of(&self, arg: String, new: &ArgErrCtx) -> bool {
        &&& new.args@.map_values(|a: String| a@) == self.args_with(arg@)
        &&& new.error_idx == if self.error_idx < self.args@.len() {
                self.error_idx
            } else {
                0
            }
        &&& ({
                let s = new.error_span;
                let o = self.error_span;
                let len = byte_len(arg@) as int;
                let d = if self.error_idx < self.args@.len() {
                    len - byte_len(self.arg_text())
                } else {
                    0
                };
                (s.start as int, s.end as int) == clamp_span(o.start + d, o.end + d, len)
            })
        &&& new.same_message(self)
    }

    /// An error of the given kind with no arguments and no messages.
    pub fn new(kind: ArgErrKind) -> (r: Self)
        ensures
            r.kind == kind,
            r.args@.len() == 0,
            r.error_idx == 0,
            r.error_span == (Span { start: 0, end: 0 }),
            r.inline_msg is None,
            r.long_msg is None,
            r.hint is None,
            r.color == ColorMode::Never,
            r.anounce,
    {
        ArgErrCtx {
            kind,
            args: Vec::new(),
            error_idx: 0,
            error_span: Span { start: 0, end: 0 },
            inline_msg: None,
            long_msg: None,
            hint: None,
            color: ColorMode::Never,
            anounce: true,
        }
    }

    /// An error whose inline message is the text of an inner error.
    pub fn from_inner(kind: ArgErrKind, message: String, arg: String) -> (r: Self)
        ensures
            r.kind == kind,
            r.args@ == seq![arg],
            r.error_idx == 0,
            r.error_span.start == 0,
            r.error_span.end == byte_len(arg@),
            r.inline_msg == Some(message),
            r.long_msg is None,
            r.hint is None,
            r.color == ColorMode::Never,
            r.anounce,
    {
        Self::from_msg(kind, message, arg)
    }

    /// An error about the whole of the single argument `arg`, with the given
    /// inline message.
    pub fn from_msg(kind: ArgErrKind, message: String, arg: String) -> (r: Self)
        ensures
            r.kind == kind,
            r.args@ == seq![arg],
            r.error_idx == 0,
            r.error_span.start == 0,
            r.error_span.end == byte_len(arg@),
            r.inline_msg == Some(message),
            r.long_msg is None,
            r.hint is None,
            r.color == ColorMode::Never,
            r.anounce,
    {
        let len = arg.as_str().len();
        let mut args = Vec::new();
        args.push(arg);
        ArgErrCtx {
            kind,
            args,
            error_idx: 0,
            error_span: Span { start: 0, end: len },
            inline_msg: Some(message),
            long_msg: None,
            hint: None,
            color: ColorMode::Never,
            anounce: true,
        }
    }

    /// Replaces the erroneous argument by `new_arg`, in which the span lies `cnt`
    /// bytes further. A span that would not lie within `new_arg` becomes the
    /// whole of it.
    pub fn shift_span(&mut self, cnt: usize, new_arg: String)
        ensures
            old(self).shifted(cnt, new_arg, final(self)),
    {
        let len = new_arg.as_str().len();
        self.replace_arg(new_arg);
        self.set_span_clamped(self.error_span.start as u128 + cnt as u128, self.error_span.end as u128 + cnt as u128, len);
    }

    /// Puts `new_arg` in place of the erroneous argument.
    fn replace_arg(&mut self, new_arg: String)
        ensures
            final(self).args@.map_values(|a: String| a@) == old(self).args_with(new_arg@),
            final(self).error_idx == if old(self).error_idx < old(self).args@.len() {
                old(self).error_idx
            } else {
                0
            },
            final(self).error_span == old(self).error_span,
            final(self).same_message(old(self)),
    {
        if self.error_idx < self.args.len() {
            let ghost before = self.args@;
            self.args.set(self.error_idx, new_arg);
            proof {
                assert(self.args@.map_values(|a: String| a@) =~= before.map_values(|a: String| a@).update(
                    self.error_idx as int,
                    new_arg@,
                ));
            }
        } else {
            let mut args = Vec::new();
            args.push(new_arg);
            self.args = args;
            self.error_idx = 0;
            proof {
                assert(self.args@.map_values(|a: String| a@) =~= seq![new_arg@]);
            }
        }
    }

    fn set_span_clamped(&mut self, start: u128, end: u128, len: usize)
        requires
            start <= u64::MAX as u128 * 2,
            end <= u64::MAX as u128 * 2,
        ensures
            (final(self).error_span.start as int, final(self).error_span.end as int) == clamp_span(
                start as int,
                end as int,
                len as int,
            ),
            final(self).args == old(self).args,
            final(self).error_idx == old(self).error_idx,
            final(self).same_message(old(self)),
    {
        if start <= end && end <= len as u128 {
            self.error_span = Span { start: start as usize, end: end as usize };
        } else {
            self.error_span = Span { start: 0, end: len };
        }
    }

    /// Replaces the erroneous argument by `arg`, of which the old one is a part.
    /// If the two are as long, the span becomes the whole argument; else if the
    /// old argument occurs in `arg`, the span moves to its first occurrence;
    /// else the span becomes the whole of `arg`.
    pub fn part_of(&mut self, arg: String)
        ensures
            old(self).made_part_of(arg, final(self)),
    {
        let len = arg.as_str().len();
        if self.error_idx < self.args.len() {
            let old_len = self.args[self.error_idx].as_str().len();
            if old_len == len {
                self.replace_arg(arg);
                self.error_span = Span { start: 0, end: len };
                return;
            }
            let found = find_str(arg.as_str(), self.args[self.error_idx].as_str());
            proof {
                lemma_first_occurrence(vstd::utf8::encode_utf8(arg@), vstd::utf8::encode_utf8(self.arg_text()), found);
            }
            if let Some(shift) = found {
                self.replace_arg(arg);
                self.set_span_clamped(self.error_span.start as u128 + shift as u128, self.error_span.end as u128 + shift as u128, len);
                return;
            }
        }
        self.replace_arg(arg);
        self.error_span = Span { start: 0, end: len };
    }

    /// Sets all the arguments and the index of the erroneous one. If the old
    /// erroneous argument is a proper part of the new one, the span moves to
    /// its first occurrence.
    pub fn add_args(&mut self, args: Vec<String>, idx: usize)
        requires
            idx < args@.len(),
        ensures
            old(self).args_added(args, idx, final(self)),
    {
        let len = args[idx].as_str().len();
        let mut start = self.error_span.start as u128;
        let mut end = self.error_span.end as u128;
        if self.error_idx < self.args.len() && self.args[self.error_idx].as_str().len() != len {
            let found = find_str(args[idx].as_str(), self.args[self.error_idx].as_str());
            proof {
                lemma_first_occurrence(vstd::utf8::encode_utf8(args@[idx as int]@), vstd::utf8::encode_utf8(self.arg_text()), found);
            }
            if let Some(shift) = found {
                start = start + shift as u128;
                end = end + shift as u128;
            }
        }
        self.args = args;
        self.error_idx = idx;
        self.set_span_clamped(start, end, len);
    }

    /// Adds hint to the error message.
    pub fn hint(&mut self, hint: String)
        ensures
            *final(self) == (ArgErrCtx { hint: Some(hint), ..*old(self) }),
    {
        self.hint = Some(hint);
    }

    /// Sets the span.
    pub fn spanned(&mut self, span: Span)
        ensures
            *final(self) == (ArgErrCtx { error_span: span, ..*old(self) }),
    {
        self.error_span = span;
    }

    /// Sets the start of the span, no further than its end.
    pub fn span_start(&mut self, start: usize)
        ensures
            *final(self) == (ArgErrCtx {
                error_span: Span {
                    start: if start <= old(self).error_span.end {
                        start
                    } else {
                        old(self).error_span.end
                    },
                    end: old(self).error_span.end,
                },
                ..*old(self)
            }),
    {
        let end = self.error_span.end;
        let s = if start <= end {
            start
        } else {
            end
        };
        self.error_span = Span { start: s, end };
    }

    /// Sets the short message that is shown with the marked span.
    pub fn inline_msg(&mut self, msg: String)
        ensures
            *final(self) == (ArgErrCtx { inline_msg: Some(msg), ..*old(self) }),
    {
        self.inline_msg = Some(msg);
    }

    /// Sets the primary message.
    pub fn long_msg(&mut self, msg: String)
        ensures
            *final(self) == (ArgErrCtx { long_msg: Some(msg), ..*old(self) }),
    {
        self.long_msg = Some(msg);
    }

    /// Sets the color mode.
    pub fn color_mode(&mut self, mode: ColorMode)
        ensures
            *final(self) == (ArgErrCtx { color: mode, ..*old(self) }),
    {
        self.color = mode;
    }

    /// Disables color.
    pub fn no_color(&mut self)
        ensures
            *final(self) == (ArgErrCtx { color: ColorMode::Never, ..*old(self) }),
    {
        self.color = ColorMode::Never;
    }

    /// Makes the erroneous argument a suffix of `arg`: the span moves by the
    /// difference of their lengths, forward when `arg` is longer and back when
    /// it is shorter.
    pub fn postfix_of(&mut self, arg: String)
        ensures
            old(self).made_postfix_of(arg, final(self)),
    {
        let len = arg.as_str().len();
        let al = if self.error_idx < self.args.len() {
            self.args[self.error_idx].as_str().len()
        } else {
            len
        };
        let start = self.error_span.start;
        let end = self.error_span.end;
        self.replace_arg(arg);
        if al <= len {
            let d = len - al;
            self.set_span_clamped(start as u128 + d as u128, end as u128 + d as u128, len);
        } else {
            let d = al - len;
            if start >= d && end >= d {
                self.set_span_clamped((start - d) as u128, (end - d) as u128, len);
            } else {
                self.error_span = Span { start: 0, end: len };
            }
        }
    }
}

/// An error in command line arguments, or in text scanned from them.
#[derive(Debug)]
pub struct ArgError(pub Box<ArgErrCtx>);

impl ArgError {
    /// The information this error carries.
    pub open spec fn ctx(&self) -> ArgErrCtx {
        *self.0
    }

    pub fn new(ctx: ArgErrCtx) -> (r: Self)
        ensures
            r.ctx() == ctx,
    {
        ArgError(Box::new(ctx))
    }

    /// An error about the whole of the single argument `arg`.
    pub fn from_msg(kind: ArgErrKind, msg: String, arg: String) -> (r: Self)
        ensures
            r.ctx().kind == kind,
            r.ctx().args@ == seq![arg],
            r.ctx().error_idx == 0,
            r.ctx().error_span == (Span { start: 0, end: byte_len(arg@) }),
            r.ctx().inline_msg == Some(msg),
            r.ctx().long_msg is None,
            r.ctx().hint is None,
            r.ctx().color == ColorMode::Never,
            r.ctx().anounce,
    {
        ArgError(Box::new(ArgErrCtx::from_msg(kind, msg, arg)))
    }

    /// An error with only a kind.
    pub fn from_kind(kind: ArgErrKind) -> (r: Self)
        ensures
            r.ctx().kind == kind,
            r.ctx().args@.len() == 0,
            r.ctx().error_idx == 0,
            r.ctx().error_span == (Span { start: 0, end: 0 }),
            r.ctx().inline_msg is None,
            r.ctx().long_msg is None,
            r.ctx().hint is None,
            r.ctx().color == ColorMode::Never,
            r.ctx().anounce,
    {
        ArgError(Box::new(ArgErrCtx::new(kind)))
    }

    /// A failure to parse, about the whole of `arg`.
    pub fn failed_to_parse(msg: String, arg: String) -> (r: Self)
        ensures
            r.ctx().kind == ArgErrKind::FailedToParse,
            r.ctx().args@ == seq![arg],
            r.ctx().error_idx == 0,
            r.ctx().error_span == (Span { start: 0, end: byte_len(arg@) }),
            r.ctx().inline_msg == Some(msg),
            r.ctx().long_msg is None,
            r.ctx().hint is None,
            r.ctx().color == ColorMode::Never,
            r.ctx().anounce,
    {
        Self::from_msg(ArgErrKind::FailedToParse, msg, arg)
    }

    /// An invalid value, about the whole of `arg`.
    pub fn invalid_value(msg: String, arg: String) -> (r: Self)
        ensures
            r.ctx().kind == ArgErrKind::InvalidValue,
            r.ctx().args@ == seq![arg],
            r.ctx().error_idx == 0,
            r.ctx().error_span == (Span { start: 0, end: byte_len(arg@) }),
            r.ctx().inline_msg == Some(msg),
            r.ctx().long_msg is None,
            r.ctx().hint is None,
            r.ctx().color == ColorMode::Never,
            r.ctx().anounce,
    {
        Self::from_msg(ArgErrKind::InvalidValue, msg, arg)
    }

    /// An argument given too many times, about the whole of `arg`.
    pub fn too_many_arguments(msg: String, arg: String) -> (r: Self)
        ensures
            r.ctx().kind == ArgErrKind::TooManyArguments,
            r.ctx().args@ == seq![arg],
            r.ctx().error_idx == 0,
            r.ctx().error_span == (Span { start: 0, end: byte_len(arg@) }),
            r.ctx().inline_msg == Some(msg),
            r.ctx().long_msg is None,
            r.ctx().hint is None,
            r.ctx().color == ColorMode::Never,
            r.ctx().anounce,
    {
        Self::from_msg(ArgErrKind::TooManyArguments, msg, arg)
    }

    /// This error as the error of a `Result`.
    pub fn err<T>(self) -> (r: Result<T, ArgError>)
        ensures
            r == Err::<T, ArgError>(self),
    {
        Err(self)
    }

    /// The kind of this error.
    pub fn kind(&self) -> (r: &ArgErrKind)
        ensures
            *r == self.ctx().kind,
    {
        &self.0.kind
    }

    /// See [`ArgErrCtx::shift_span`].
    pub fn shift_span(self, cnt: usize, new_arg: String) -> (r: Self)
        ensures
            self.ctx().shifted(cnt, new_arg, &r.ctx()),
    {
        let mut c = *self.0;
        c.shift_span(cnt, new_arg);
        ArgError(Box::new(c))
    }

    /// See [`ArgErrCtx::part_of`].
    pub fn part_of(self, arg: String) -> (r: Self)
        ensures
            self.ctx().made_part_of(arg, &r.ctx()),
    {
        let mut c = *self.0;
        c.part_of(arg);
        ArgError(Box::new(c))
    }

    /// See [`ArgErrCtx::add_args`].
    pub fn add_args(self, args: Vec<String>, idx: usize) -> (r: Self)
        requires
            idx < args@.len(),
        ensures
            self.ctx().args_added(args, idx, &r.ctx()),
    {
        let mut c = *self.0;
        c.add_args(args, idx);
        ArgError(Box::new(c))
    }

    /// See [`ArgErrCtx::postfix_of`].
    pub fn postfix_of(self, arg: String) -> (r: Self)
        ensures
            self.ctx().made_postfix_of(arg, &r.ctx()),
    {
        let mut c = *self.0;
        c.postfix_of(arg);
        ArgError(Box::new(c))
    }

    /// Sets the span.
    pub fn spanned(self, span: Span) -> (r: Self)
        ensures
            r.ctx() == (ArgErrCtx { error_span: span, ..self.ctx() }),
    {
        let mut c = *self.0;
        c.spanned(span);
        ArgError(Box::new(c))
    }

    /// Sets the start of the span, no further than its end.
    pub fn span_start(self, start: usize) -> (r: Self)
        ensures
            r.ctx() == (ArgErrCtx {
                error_span: Span {
                    start: if start <= self.ctx().error_span.end {
                        start
                    } else {
                        self.ctx().error_span.end
                    },
                    end: self.ctx().error_span.end,
                },
                ..self.ctx()
            }),
    {
        let mut c = *self.0;
        c.span_start(start);
        ArgError(Box::new(c))
    }

    /// Adds a hint.
    pub fn hint(self, hint: String) -> (r: Self)
        ensures
            r.ctx() == (ArgErrCtx { hint: Some(hint), ..self.ctx() }),
    {
        let mut c = *self.0;
        c.hint(hint);
        ArgError(Box::new(c))
    }

    /// Sets the message shown with the marked span.
    pub fn inline_msg(self, msg: String) -> (r: Self)
        ensures
            r.ctx() == (ArgErrCtx { inline_msg: Some(msg), ..self.ctx() }),
    {
        let mut c = *self.0;
        c.inline_msg(msg);
        ArgError(Box::new(c))
    }

    /// Sets the primary message.
    pub fn long_msg(self, msg: String) -> (r: Self)
        ensures
            r.ctx() == (ArgErrCtx { long_msg: Some(msg), ..self.ctx() }),
    {
        let mut c = *self.0;
        c.long_msg(msg);
        ArgError(Box::new(c))
    }

    /// Sets the color mode.
    pub fn color_mode(self, mode: ColorMode) -> (r: Self)
        ensures
            r.ctx() == (ArgErrCtx { color: mode, ..self.ctx() }),
    {
        let mut c = *self.0;
        c.color_mode(mode);
        ArgError(Box::new(c))
    }

    /// Disables color.
    pub fn no_color(self) -> (r: Self)
        ensures
            r.ctx() == (ArgErrCtx { color: ColorMode::Never, ..self.ctx() }),
    {
        let mut c = *self.0;
        c.no_color();
        ArgError(Box::new(c))
    }

    /// Sets whether the headline starts with `argument error:`.
    pub fn anounce(self, anounce: bool) -> (r: Self)
        ensures
            r.ctx() == (ArgErrCtx { anounce, ..self.ctx() }),
    {
        let mut c = *self.0;
        c.anounce = anounce;
        ArgError(Box::new(c))
    }

    /// Applies `f` to the information of this error.
    pub fn map_ctx<F: FnOnce(ArgErrCtx) -> ArgErrCtx>(self, f: F) -> (r: Self)
        requires
            f.requires((*self.0,)),
        ensures
            f.ensures((self.ctx(),), r.ctx()),
    {
        let c = f(*self.0);
        ArgError(Box::new(c))
    }
}

} // verus!
