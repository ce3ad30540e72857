//! Cursors over command line arguments that add them to errors.

use vstd::prelude::*;

use crate::err::{ArgErrCtx, ArgErrKind, ArgError, Span};
use crate::from_arg::FromArg;
use crate::parsers::{
    bool_arg, key_arg, key_mval_arg, key_val_arg, mval_arg, opt_bool_arg, try_set_arg, try_set_arg_with, val_arg,
};
use crate::text::{byte_len, owned, push_str};

verus! {

/// Copies of `v[from..to]`.
pub fn clone_range(v: &Vec<String>, from: usize, to: usize) -> (r: Vec<String>)
    requires
        from <= to <= v@.len(),
    ensures
        r@ == v@.subrange(from as int, to as int),
{
    let mut r: Vec<String> = Vec::new();
    let mut k = from;
    while k < to
        invariant
            from <= k <= to <= v@.len(),
            r@ == v@.subrange(from as int, k as int),
        decreases to - k,
    {
        r.push(v[k].clone());
        k = k + 1;
        assert(r@ =~= v@.subrange(from as int, k as int));
    }
    r
}

/// A cursor over owned command line arguments.
#[derive(Debug, Clone)]
pub struct Pareg {
    pub args: Vec<String>,
    /// Index of the next argument.
    pub cur: usize,
}

impl Pareg {
    /// A cursor before the first of `args`.
    pub fn new(args: Vec<String>) -> (r: Self)
        ensures
            r.args == args,
            r.cur == 0,
            r.well_formed(),
    {
        Pareg { args, cur: 0 }
    }

    /// A cursor over `args` (as the program received them) that skips the
    /// first one, the name of the program.
    pub fn from_program_args(args: Vec<String>) -> (r: Self)
        ensures
            r.args == args,
            r.cur == if args@.len() > 0 { 1usize } else { 0usize },
            r.well_formed(),
    {
        let cur = if args.len() > 0 {
            1
        } else {
            0
        };
        Pareg { args, cur }
    }

    /// A borrowing cursor at the same position.
    pub fn get_ref(&self) -> (r: ParegRef<'_>)
        ensures
            *r.args == self.args,
            r.cur == self.cur,
    {
        ParegRef { args: &self.args, cur: self.cur }
    }

    /// A borrowing cursor at the same position, for as long as this one is
    /// borrowed.
    pub fn get_mut_ref(&mut self) -> (r: ParegRef<'_>)
        ensures
            *r.args == old(self).args,
            r.cur == old(self).cur,
    {
        ParegRef { args: &self.args, cur: self.cur }
    }

    /// Whether the position lies within the arguments.
    pub open spec fn well_formed(&self) -> bool {
        self.cur <= self.args@.len()
    }

    /// Gets the last returned argument.
    pub fn cur(&self) -> (r: Option<&str>)
        requires
            self.well_formed(),
        ensures
            r is Some <==> self.cur > 0,
            r matches Some(s) ==> s@ == self.args@[self.cur - 1]@,
    {
        if self.cur == 0 {
            None
        } else {
            Some(self.args[self.cur - 1].as_str())
        }
    }

    /// Gets the argument at the given index.
    pub fn get(&self, idx: usize) -> (r: Option<&str>)
        ensures
            r is Some <==> idx < self.args@.len(),
            r matches Some(s) ==> s@ == self.args@[idx as int]@,
    {
        if idx < self.args.len() {
            Some(self.args[idx].as_str())
        } else {
            None
        }
    }

    /// Gets the argument that the next call to `next` returns.
    pub fn peek(&self) -> (r: Option<&str>)
        ensures
            r is Some <==> self.cur < self.args@.len(),
            r matches Some(s) ==> s@ == self.args@[self.cur as int]@,
    {
        self.get(self.cur)
    }

    /// Gets the remaining arguments, not including the current one.
    pub fn remaining(&self) -> (r: Vec<String>)
        requires
            self.well_formed(),
        ensures
            r@ == self.args@.skip(self.cur as int),
    {
        clone_range(&self.args, self.cur, self.args.len())
    }

    /// Gets the remaining arguments, including the current one.
    pub fn cur_remaining(&self) -> (r: Vec<String>)
        requires
            self.well_formed(),
        ensures
            r@ == self.args@.skip(if self.cur > 0 { self.cur - 1 } else { 0 }),
    {
        let from = if self.cur > 0 {
            self.cur - 1
        } else {
            0
        };
        clone_range(&self.args, from, self.args.len())
    }

    /// Gets all the arguments.
    pub fn all_args(&self) -> (r: Vec<String>)
        ensures
            r@ == self.args@,
    {
        let r = clone_range(&self.args, 0, self.args.len());
        assert(self.args@.subrange(0, self.args@.len() as int) =~= self.args@);
        r
    }

    /// Moves so that the argument at `idx` (at most the number of arguments)
    /// is the next one; returns the one before it.
    pub fn jump(&mut self, idx: usize) -> (r: Option<&str>)
        ensures
            final(self).args == old(self).args,
            final(self).cur == if idx < old(self).args@.len() { idx } else { old(self).args@.len() as usize },
            r is Some <==> final(self).cur > 0,
            r matches Some(s) ==> s@ == final(self).args@[final(self).cur - 1]@,
    {
        let n = self.args.len();
        self.cur = if idx < n {
            idx
        } else {
            n
        };
        self.cur()
    }

    /// Skips `cnt` arguments and returns the last one skipped.
    pub fn skip_args(&mut self, cnt: usize) -> (r: Option<&str>)
        ensures
            final(self).args == old(self).args,
            final(self).cur == if old(self).cur + cnt < old(self).args@.len() {
                (old(self).cur + cnt) as usize
            } else {
                old(self).args@.len() as usize
            },
    {
        // A length is a `usize`; asking for it records that bound.
        let _n = self.args.len();
        let to = if cnt <= usize::MAX - self.cur {
            self.cur + cnt
        } else {
            usize::MAX
        };
        self.jump(to)
    }

    /// Skips all the remaining arguments and returns the last one.
    pub fn skip_all(&mut self) -> (r: Option<&str>)
        ensures
            final(self).args == old(self).args,
            final(self).cur == old(self).args@.len(),
            r is Some <==> old(self).args@.len() > 0,
    {
        let n = self.args.len();
        self.jump(n)
    }

    /// Moves back to the first argument.
    pub fn reset(&mut self)
        ensures
            final(self).args == old(self).args,
            final(self).cur == 0,
    {
        self.jump(0);
    }

    /// Gets the index of the next argument.
    pub fn next_idx(&self) -> (r: Option<usize>)
        ensures
            r == if self.cur < self.args@.len() { Some(self.cur) } else { None::<usize> },
    {
        if self.cur < self.args.len() {
            Some(self.cur)
        } else {
            None
        }
    }

    /// Gets the index of the current argument.
    pub fn cur_idx(&self) -> (r: Option<usize>)
        ensures
            r == if self.cur != 0 && self.cur - 1 < self.args@.len() {
                Some((self.cur - 1) as usize)
            } else {
                None::<usize>
            },
    {
        if self.cur != 0 && self.cur - 1 < self.args.len() {
            Some(self.cur - 1)
        } else {
            None
        }
    }

    /// Gets the next argument.
    pub fn next(&mut self) -> (r: Option<&str>)
        ensures
            final(self).args == old(self).args,
            old(self).cur < old(self).args@.len() ==> final(self).cur == old(self).cur + 1 && (r matches Some(s)
                && s@ == old(self).args@[old(self).cur as int]@),
            old(self).cur >= old(self).args@.len() ==> final(self).cur == old(self).cur && r is None,
    {
        if self.cur < self.args.len() {
            self.cur = self.cur + 1;
            Some(self.args[self.cur - 1].as_str())
        } else {
            None
        }
    }

    /// Adds the arguments and the position of the current one to `err`.
    pub fn map_err(&self, err: ArgError) -> (r: ArgError)
        requires
            self.well_formed(),
        ensures
            self.args@.len() == 0 ==> r == err,
            self.args@.len() > 0 ==> err.ctx().args_added(
                r.ctx().args,
                if self.cur > 0 { (self.cur - 1) as usize } else { 0usize },
                &r.ctx(),
            ) && r.ctx().args@ == self.args@,
    {
        if self.args.len() == 0 {
            return err;
        }
        let idx = if self.cur > 0 {
            self.cur - 1
        } else {
            0
        };
        let args = clone_range(&self.args, 0, self.args.len());
        assert(self.args@.subrange(0, self.args@.len() as int) =~= self.args@);
        err.add_args(args, idx)
    }

    /// Adds the arguments and the position of the current one to the error of `res`.
    pub fn map_res<T>(&self, res: Result<T, ArgError>) -> (r: Result<T, ArgError>)
        requires
            self.well_formed(),
        ensures
            res is Ok <==> r is Ok,
            res matches Ok(v) ==> r == Ok::<T, ArgError>(v),
            res matches Err(e) ==> (r matches Err(e2) && e2.ctx().kind == e.ctx().kind),
    {
        match res {
            Ok(v) => Ok(v),
            Err(e) => Err(self.map_err(e)),
        }
    }

    /// The error that there are no more arguments.
    pub fn err_no_more_arguments(&self) -> (r: ArgError)
        ensures
            r.ctx().kind == ArgErrKind::NoMoreArguments,
            r.ctx().args@ == self.args@,
            r.ctx().inline_msg matches Some(m) && m@ == "Expected more arguments."@,
            self.args@.len() > 0 ==> {
                let last = self.args@.last()@;
                &&& r.ctx().error_idx == self.args@.len() - 1
                &&& r.ctx().error_span == (Span { start: byte_len(last), end: byte_len(last) })
                &&& r.ctx().long_msg matches Some(m) && m@ == "Expected more arguments after the argument `"@ + last
                    + "`."@
            },
    {
        let n = self.args.len();
        let args = clone_range(&self.args, 0, n);
        assert(self.args@.subrange(0, self.args@.len() as int) =~= self.args@);
        let mut ctx = ArgErrCtx::new(ArgErrKind::NoMoreArguments);
        if n > 0 {
            let last = self.args[n - 1].as_str();
            let pos = last.len();
            let mut long = owned("Expected more arguments after the argument `");
            push_str(&mut long, last);
            push_str(&mut long, "`.");
            assert(long@ =~= "Expected more arguments after the argument `"@ + self.args@.last()@ + "`."@);
            ctx.long_msg = Some(long);
            ctx.error_idx = n - 1;
            ctx.error_span = Span { start: pos, end: pos };
        }
        ctx.inline_msg = Some(owned("Expected more arguments."));
        ctx.args = args;
        ArgError::new(ctx)
    }

    /// The error that the current argument is unknown.
    pub fn err_unknown_argument(&self) -> (r: ArgError)
        requires
            self.well_formed(),
        ensures
            r.ctx().kind == ArgErrKind::UnknownArgument,
            r.ctx().args@ == self.args@,
    {
        let n = self.args.len();
        let args = clone_range(&self.args, 0, n);
        assert(self.args@.subrange(0, self.args@.len() as int) =~= self.args@);
        let mut ctx = ArgErrCtx::new(ArgErrKind::UnknownArgument);
        match self.cur() {
            Some(a) => {
                let mut long = owned("Unknown argument `");
                push_str(&mut long, a);
                push_str(&mut long, "`");
                ctx.long_msg = Some(long);
                ctx.error_span = Span { start: 0, end: a.len() };
            },
            None => {},
        }
        ctx.error_idx = if self.cur > 0 {
            self.cur - 1
        } else {
            0
        };
        ctx.inline_msg = Some(owned("Unknown argument."));
        ctx.args = args;
        ArgError::new(ctx)
    }

    /// The error that the given span of the current argument is invalid; a
    /// span that does not lie within the argument becomes the whole of it.
    pub fn err_invalid_span(&self, span: Span) -> (r: ArgError)
        requires
            self.well_formed(),
        ensures
            r.ctx().kind == ArgErrKind::InvalidValue,
    {
        let len = match self.cur() {
            Some(a) => a.len(),
            None => 0,
        };
        let span = if span.start > len || span.end > len {
            Span { start: 0, end: len }
        } else {
            span
        };
        self.map_err(ArgError::from_msg(ArgErrKind::InvalidValue, owned("Invalid value for argument"), String::new())).spanned(span)
    }

    /// The error that the current argument is invalid.
    pub fn err_invalid(&self) -> (r: ArgError)
        requires
            self.well_formed(),
        ensures
            r.ctx().kind == ArgErrKind::InvalidValue,
    {
        self.err_invalid_span(Span { start: usize::MAX, end: usize::MAX })
    }

    /// The error that `value` is not a valid value for the current argument.
    pub fn err_invalid_value(&self, value: String) -> (r: ArgError)
        requires
            self.well_formed(),
        ensures
            r.ctx().kind == ArgErrKind::InvalidValue,
    {
        self.map_err(ArgError::from_msg(ArgErrKind::InvalidValue, owned("Invalid value for argument."), value))
    }

    /// Parses the next argument.
    pub fn next_arg<T: FromArg>(&mut self) -> (r: Result<T, ArgError>)
        requires
            old(self).well_formed(),
        ensures
            final(self).well_formed(),
            final(self).args == old(self).args,
            old(self).cur < old(self).args@.len() ==> final(self).cur == old(self).cur + 1,
            old(self).cur >= old(self).args@.len() ==> final(self).cur == old(self).cur && (r matches Err(e)
                && e.ctx().kind == ArgErrKind::NoMoreArguments),
    {
        if self.cur < self.args.len() {
            self.cur = self.cur + 1;
            let res = T::from_arg(self.args[self.cur - 1].as_str());
            self.map_res(res)
        } else {
            Err(self.err_no_more_arguments())
        }
    }

    /// Takes the next argument as text.
    fn next_text(&mut self) -> (r: Result<String, ArgError>)
        requires
            old(self).well_formed(),
        ensures
            final(self).well_formed(),
            final(self).args == old(self).args,
            old(self).cur < old(self).args@.len() ==> final(self).cur == old(self).cur + 1 && (r matches Ok(s)
                && s@ == old(self).args@[old(self).cur as int]@),
            old(self).cur >= old(self).args@.len() ==> final(self).cur == old(self).cur && (r matches Err(e)
                && e.ctx().kind == ArgErrKind::NoMoreArguments),
    {
        if self.cur < self.args.len() {
            self.cur = self.cur + 1;
            Ok(self.args[self.cur - 1].clone())
        } else {
            Err(self.err_no_more_arguments())
        }
    }

    /// Takes the current argument as text.
    fn cur_text(&self) -> (r: Result<String, ArgError>)
        requires
            self.well_formed(),
        ensures
            self.cur > 0 ==> (r matches Ok(s) && s@ == self.args@[self.cur - 1]@),
            self.cur == 0 ==> (r matches Err(e) && e.ctx().kind == ArgErrKind::NoLastArgument),
    {
        if self.cur > 0 {
            Ok(self.args[self.cur - 1].clone())
        } else {
            Err(ArgError::from_kind(ArgErrKind::NoLastArgument))
        }
    }

    /// Parses the current argument.
    pub fn cur_arg<T: FromArg>(&self) -> (r: Result<T, ArgError>)
        requires
            self.well_formed(),
        ensures
            self.cur == 0 ==> (r matches Err(e) && e.ctx().kind == ArgErrKind::NoLastArgument),
    {
        if self.cur > 0 {
            let res = T::from_arg(self.args[self.cur - 1].as_str());
            self.map_res(res)
        } else {
            Err(ArgError::from_kind(ArgErrKind::NoLastArgument))
        }
    }

    /// Parses the next argument as `key<sep>value`, the value being optional.
    pub fn next_key_mval<K: FromArg, V: FromArg>(&mut self, sep: char) -> (r: Result<(K, Option<V>), ArgError>)
        requires
            old(self).well_formed(),
        ensures
            final(self).well_formed(),
            final(self).args == old(self).args,
            old(self).cur < old(self).args@.len() ==> final(self).cur == old(self).cur + 1,
            old(self).cur >= old(self).args@.len() ==> final(self).cur == old(self).cur && (r matches Err(e)
                && e.ctx().kind == ArgErrKind::NoMoreArguments),
    {
        let a = match self.next_text() {
            Ok(a) => a,
            Err(e) => return Err(e),
        };
        let res = key_mval_arg::<K, V>(a.as_str(), sep);
        self.map_res(res)
    }

    /// Parses the current argument as `key<sep>value`, the value being optional.
    pub fn cur_key_mval<K: FromArg, V: FromArg>(&self, sep: char) -> (r: Result<(K, Option<V>), ArgError>)
        requires
            self.well_formed(),
        ensures
            self.cur == 0 ==> (r matches Err(e) && e.ctx().kind == ArgErrKind::NoLastArgument),
    {
        let a = match self.cur_text() {
            Ok(a) => a,
            Err(e) => return Err(e),
        };
        let res = key_mval_arg::<K, V>(a.as_str(), sep);
        self.map_res(res)
    }

    /// Parses the next argument as `key<sep>value`.
    pub fn next_key_val<K: FromArg, V: FromArg>(&mut self, sep: char) -> (r: Result<(K, V), ArgError>)
        requires
            old(self).well_formed(),
        ensures
            final(self).well_formed(),
            final(self).args == old(self).args,
            old(self).cur < old(self).args@.len() ==> final(self).cur == old(self).cur + 1,
            old(self).cur >= old(self).args@.len() ==> final(self).cur == old(self).cur && (r matches Err(e)
                && e.ctx().kind == ArgErrKind::NoMoreArguments),
    {
        let a = match self.next_text() {
            Ok(a) => a,
            Err(e) => return Err(e),
        };
        let res = key_val_arg::<K, V>(a.as_str(), sep);
        self.map_res(res)
    }

    /// Parses the current argument as `key<sep>value`.
    pub fn cur_key_val<K: FromArg, V: FromArg>(&self, sep: char) -> (r: Result<(K, V), ArgError>)
        requires
            self.well_formed(),
        ensures
            self.cur == 0 ==> (r matches Err(e) && e.ctx().kind == ArgErrKind::NoLastArgument),
    {
        let a = match self.cur_text() {
            Ok(a) => a,
            Err(e) => return Err(e),
        };
        let res = key_val_arg::<K, V>(a.as_str(), sep);
        self.map_res(res)
    }

    /// Parses the next argument as a boolean: `t` is true, `f` is false, in any case.
    pub fn next_bool(&mut self, t: &str, f: &str) -> (r: Result<bool, ArgError>)
        requires
            old(self).well_formed(),
        ensures
            final(self).well_formed(),
            final(self).args == old(self).args,
            old(self).cur < old(self).args@.len() ==> final(self).cur == old(self).cur + 1,
            old(self).cur >= old(self).args@.len() ==> final(self).cur == old(self).cur && (r matches Err(e)
                && e.ctx().kind == ArgErrKind::NoMoreArguments),
    {
        let a = match self.next_text() {
            Ok(a) => a,
            Err(e) => return Err(e),
        };
        let res = bool_arg(t, f, a.as_str());
        self.map_res(res)
    }

    /// Parses the current argument as a boolean: `t` is true, `f` is false, in any case.
    pub fn cur_bool(&self, t: &str, f: &str) -> (r: Result<bool, ArgError>)
        requires
            self.well_formed(),
        ensures
            self.cur == 0 ==> (r matches Err(e) && e.ctx().kind == ArgErrKind::NoLastArgument),
    {
        let a = match self.cur_text() {
            Ok(a) => a,
            Err(e) => return Err(e),
        };
        let res = bool_arg(t, f, a.as_str());
        self.map_res(res)
    }

    /// Parses the next argument as an optional boolean: `t`, `f` or `n`, in any case.
    pub fn next_opt_bool(&mut self, t: &str, f: &str, n: &str) -> (r: Result<Option<bool>, ArgError>)
        requires
            old(self).well_formed(),
        ensures
            final(self).well_formed(),
            final(self).args == old(self).args,
            old(self).cur < old(self).args@.len() ==> final(self).cur == old(self).cur + 1,
            old(self).cur >= old(self).args@.len() ==> final(self).cur == old(self).cur && (r matches Err(e)
                && e.ctx().kind == ArgErrKind::NoMoreArguments),
    {
        let a = match self.next_text() {
            Ok(a) => a,
            Err(e) => return Err(e),
        };
        let res = opt_bool_arg(t, f, n, a.as_str());
        self.map_res(res)
    }

    /// Parses the current argument as an optional boolean: `t`, `f` or `n`, in any case.
    pub fn cur_opt_bool(&self, t: &str, f: &str, n: &str) -> (r: Result<Option<bool>, ArgError>)
        requires
            self.well_formed(),
        ensures
            self.cur == 0 ==> (r matches Err(e) && e.ctx().kind == ArgErrKind::NoLastArgument),
    {
        let a = match self.cur_text() {
            Ok(a) => a,
            Err(e) => return Err(e),
        };
        let res = opt_bool_arg(t, f, n, a.as_str());
        self.map_res(res)
    }

    /// Parses the key of the next argument, `key<sep>value`.
    pub fn next_key<T: FromArg>(&mut self, sep: char) -> (r: Result<T, ArgError>)
        requires
            old(self).well_formed(),
        ensures
            final(self).well_formed(),
            final(self).args == old(self).args,
            old(self).cur < old(self).args@.len() ==> final(self).cur == old(self).cur + 1,
            old(self).cur >= old(self).args@.len() ==> final(self).cur == old(self).cur && (r matches Err(e)
                && e.ctx().kind == ArgErrKind::NoMoreArguments),
    {
        let a = match self.next_text() {
            Ok(a) => a,
            Err(e) => return Err(e),
        };
        let res = key_arg::<T>(a.as_str(), sep);
        self.map_res(res)
    }

    /// Parses the key of the current argument, `key<sep>value`.
    pub fn cur_key<T: FromArg>(&self, sep: char) -> (r: Result<T, ArgError>)
        requires
            self.well_formed(),
        ensures
            self.cur == 0 ==> (r matches Err(e) && e.ctx().kind == ArgErrKind::NoLastArgument),
    {
        let a = match self.cur_text() {
            Ok(a) => a,
            Err(e) => return Err(e),
        };
        let res = key_arg::<T>(a.as_str(), sep);
        self.map_res(res)
    }

    /// Parses the value of the next argument, `key<sep>value`.
    pub fn next_val<T: FromArg>(&mut self, sep: char) -> (r: Result<T, ArgError>)
        requires
            old(self).well_formed(),
        ensures
            final(self).well_formed(),
            final(self).args == old(self).args,
            old(self).cur < old(self).args@.len() ==> final(self).cur == old(self).cur + 1,
            old(self).cur >= old(self).args@.len() ==> final(self).cur == old(self).cur && (r matches Err(e)
                && e.ctx().kind == ArgErrKind::NoMoreArguments),
    {
        let a = match self.next_text() {
            Ok(a) => a,
            Err(e) => return Err(e),
        };
        let res = val_arg::<T>(a.as_str(), sep);
        self.map_res(res)
    }

    /// Parses the value of the current argument, `key<sep>value`.
    pub fn cur_val<T: FromArg>(&self, sep: char) -> (r: Result<T, ArgError>)
        requires
            self.well_formed(),
        ensures
            self.cur == 0 ==> (r matches Err(e) && e.ctx().kind == ArgErrKind::NoLastArgument),
    {
        let a = match self.cur_text() {
            Ok(a) => a,
            Err(e) => return Err(e),
        };
        let res = val_arg::<T>(a.as_str(), sep);
        self.map_res(res)
    }

    /// Parses the value of the next argument, `key<sep>value`, if there is a separator.
    pub fn next_mval<T: FromArg>(&mut self, sep: char) -> (r: Result<Option<T>, ArgError>)
        requires
            old(self).well_formed(),
        ensures
            final(self).well_formed(),
            final(self).args == old(self).args,
            old(self).cur < old(self).args@.len() ==> final(self).cur == old(self).cur + 1,
            old(self).cur >= old(self).args@.len() ==> final(self).cur == old(self).cur && (r matches Err(e)
                && e.ctx().kind == ArgErrKind::NoMoreArguments),
    {
        let a = match self.next_text() {
            Ok(a) => a,
            Err(e) => return Err(e),
        };
        let res = mval_arg::<T>(a.as_str(), sep);
        self.map_res(res)
    }

    /// Parses the value of the current argument, `key<sep>value`, if there is a separator.
    pub fn cur_mval<T: FromArg>(&self, sep: char) -> (r: Result<Option<T>, ArgError>)
        requires
            self.well_formed(),
        ensures
            self.cur == 0 ==> (r matches Err(e) && e.ctx().kind == ArgErrKind::NoLastArgument),
    {
        let a = match self.cur_text() {
            Ok(a) => a,
            Err(e) => return Err(e),
        };
        let res = mval_arg::<T>(a.as_str(), sep);
        self.map_res(res)
    }

    /// The value of the current argument, `key<sep>value`, if it has one;
    /// else the next argument.
    pub fn cur_val_or_next<T: FromArg>(&mut self, sep: char) -> (r: Result<T, ArgError>)
        requires
            old(self).well_formed(),
        ensures
            final(self).well_formed(),
            final(self).args == old(self).args,
    {
        match self.cur_mval::<T>(sep) {
            Ok(Some(v)) => Ok(v),
            Ok(None) => self.next_arg(),
            Err(e) => Err(e),
        }
    }

    /// Parses the current argument with `f`.
    pub fn cur_manual<T, F: Fn(&str) -> Result<T, ArgError>>(&self, f: F) -> (r: Result<T, ArgError>)
        requires
            self.well_formed(),
            forall|s: &str| f.requires((s,)),
        ensures
            self.cur == 0 ==> (r matches Err(e) && e.ctx().kind == ArgErrKind::NoLastArgument),
    {
        let a = match self.cur_text() {
            Ok(a) => a,
            Err(e) => return Err(e),
        };
        let res = f(a.as_str());
        self.map_res(res)
    }

    /// Parses the next argument with `f`.
    pub fn next_manual<T, F: Fn(&str) -> Result<T, ArgError>>(&mut self, f: F) -> (r: Result<T, ArgError>)
        requires
            old(self).well_formed(),
            forall|s: &str| f.requires((s,)),
        ensures
            final(self).well_formed(),
            final(self).args == old(self).args,
            old(self).cur < old(self).args@.len() ==> final(self).cur == old(self).cur + 1,
            old(self).cur >= old(self).args@.len() ==> (r matches Err(e) && e.ctx().kind
                == ArgErrKind::NoMoreArguments),
    {
        let a = match self.next_text() {
            Ok(a) => a,
            Err(e) => return Err(e),
        };
        let res = f(a.as_str());
        self.map_res(res)
    }

    /// Sets `res` with `f` applied to the current argument, unless it is set.
    pub fn try_set_cur_with<T, F: FnOnce(&str) -> Result<T, ArgError>>(&self, res: &mut Option<T>, f: F) -> (r: Result<(), ArgError>)
        requires
            self.well_formed(),
            forall|s: &str| f.requires((s,)),
        ensures
            (*old(res)) is Some && self.cur > 0 ==> (r matches Err(e) && e.ctx().kind == ArgErrKind::TooManyArguments),
    {
        let a = match self.cur_text() {
            Ok(a) => a,
            Err(e) => return Err(e),
        };
        let x = try_set_arg_with(res, a.as_str(), f);
        self.map_res(x)
    }

    /// Sets `res` with `f` applied to the next argument, unless it is set.
    pub fn try_set_next_with<T, F: FnOnce(&str) -> Result<T, ArgError>>(&mut self, res: &mut Option<T>, f: F) -> (r: Result<(), ArgError>)
        requires
            old(self).well_formed(),
            forall|s: &str| f.requires((s,)),
        ensures
            final(self).well_formed(),
            final(self).args == old(self).args,
            (*old(res)) is Some && old(self).cur < old(self).args@.len() ==> (r matches Err(e) && e.ctx().kind
                == ArgErrKind::TooManyArguments),
    {
        let a = match self.next_text() {
            Ok(a) => a,
            Err(e) => return Err(e),
        };
        let x = try_set_arg_with(res, a.as_str(), f);
        self.map_res(x)
    }

    /// Sets `res` to the value of the current argument, unless it is set.
    pub fn try_set_cur<T: FromArg>(&self, res: &mut Option<T>) -> (r: Result<(), ArgError>)
        requires
            self.well_formed(),
        ensures
            (*old(res)) is Some && self.cur > 0 ==> (r matches Err(e) && e.ctx().kind == ArgErrKind::TooManyArguments),
    {
        let a = match self.cur_text() {
            Ok(a) => a,
            Err(e) => return Err(e),
        };
        let x = try_set_arg(res, a.as_str());
        self.map_res(x)
    }

    /// Sets `res` to the value of the next argument, unless it is set.
    pub fn try_set_next<T: FromArg>(&mut self, res: &mut Option<T>) -> (r: Result<(), ArgError>)
        requires
            old(self).well_formed(),
        ensures
            final(self).well_formed(),
            final(self).args == old(self).args,
            (*old(res)) is Some && old(self).cur < old(self).args@.len() ==> (r matches Err(e) && e.ctx().kind
                == ArgErrKind::TooManyArguments),
    {
        let a = match self.next_text() {
            Ok(a) => a,
            Err(e) => return Err(e),
        };
        let x = try_set_arg(res, a.as_str());
        self.map_res(x)
    }
}

/// A cursor over borrowed command line arguments.
#[derive(Debug, Clone)]
pub struct ParegRef<'a> {
    pub args: &'a Vec<String>,
    /// Index of the next argument.
    pub cur: usize,
}

impl<'a> ParegRef<'a> {
    /// A cursor over `args` whose next argument is at `cur`.
    pub fn new(args: &'a Vec<String>, cur: usize) -> (r: Self)
        ensures
            r.args == args,
            r.cur == cur,
    {
        ParegRef { args, cur }
    }

    /// Whether moving this cursor moves the one it was made from. It never
    /// does: the position is this cursor's own.
    pub fn mutates_original(&self) -> (r: bool)
        ensures
            !r,
    {
        false
    }

    /// Makes the position this cursor's own; it already is.
    pub fn detach(&mut self)
        ensures
            *final(self) == *old(self),
    {
    }

    /// Whether the position lies within the arguments.
    pub open spec fn well_formed(&self) -> bool {
        self.cur <= self.args@.len()
    }

    /// Gets the last returned argument.
    pub fn cur(&self) -> (r: Option<&str>)
        requires
            self.well_formed(),
        ensures
            r is Some <==> self.cur > 0,
            r matches Some(s) ==> s@ == self.args@[self.cur - 1]@,
    {
        if self.cur == 0 {
            None
        } else {
            Some(self.args[self.cur - 1].as_str())
        }
    }

    /// Gets the argument at the given index.
    pub fn get(&self, idx: usize) -> (r: Option<&str>)
        ensures
            r is Some <==> idx < self.args@.len(),
            r matches Some(s) ==> s@ == self.args@[idx as int]@,
    {
        if idx < self.args.len() {
            Some(self.args[idx].as_str())
        } else {
            None
        }
    }

    /// Gets the argument that the next call to `next` returns.
    pub fn peek(&self) -> (r: Option<&str>)
        ensures
            r is Some <==> self.cur < self.args@.len(),
            r matches Some(s) ==> s@ == self.args@[self.cur as int]@,
    {
        self.get(self.cur)
    }

    /// Gets the remaining arguments, not including the current one.
    pub fn remaining(&self) -> (r: Vec<String>)
        requires
            self.well_formed(),
        ensures
            r@ == self.args@.skip(self.cur as int),
    {
        clone_range(&self.args, self.cur, self.args.len())
    }

    /// Gets the remaining arguments, including the current one.
    pub fn cur_remaining(&self) -> (r: Vec<String>)
        requires
            self.well_formed(),
        ensures
            r@ == self.args@.skip(if self.cur > 0 { self.cur - 1 } else { 0 }),
    {
        let from = if self.cur > 0 {
            self.cur - 1
        } else {
            0
        };
        clone_range(&self.args, from, self.args.len())
    }

    /// Gets all the arguments.
    pub fn all_args(&self) -> (r: Vec<String>)
        ensures
            r@ == self.args@,
    {
        let r = clone_range(&self.args, 0, self.args.len());
        assert(self.args@.subrange(0, self.args@.len() as int) =~= self.args@);
        r
    }

    /// Moves so that the argument at `idx` (at most the number of arguments)
    /// is the next one; returns the one before it.
    pub fn jump(&mut self, idx: usize) -> (r: Option<&str>)
        ensures
            final(self).args == old(self).args,
            final(self).cur == if idx < old(self).args@.len() { idx } else { old(self).args@.len() as usize },
            r is Some <==> final(self).cur > 0,
            r matches Some(s) ==> s@ == final(self).args@[final(self).cur - 1]@,
    {
        let n = self.args.len();
        self.cur = if idx < n {
            idx
        } else {
            n
        };
        self.cur()
    }

    /// Skips `cnt` arguments and returns the last one skipped.
    pub fn skip_args(&mut self, cnt: usize) -> (r: Option<&str>)
        ensures
            final(self).args == old(self).args,
            final(self).cur == if old(self).cur + cnt < old(self).args@.len() {
                (old(self).cur + cnt) as usize
            } else {
                old(self).args@.len() as usize
            },
    {
        // A length is a `usize`; asking for it records that bound.
        let _n = self.args.len();
        let to = if cnt <= usize::MAX - self.cur {
            self.cur + cnt
        } else {
            usize::MAX
        };
        self.jump(to)
    }

    /// Skips all the remaining arguments and returns the last one.
    pub fn skip_all(&mut self) -> (r: Option<&str>)
        ensures
            final(self).args == old(self).args,
            final(self).cur == old(self).args@.len(),
            r is Some <==> old(self).args@.len() > 0,
    {
        let n = self.args.len();
        self.jump(n)
    }

    /// Moves back to the first argument.
    pub fn reset(&mut self)
        ensures
            final(self).args == old(self).args,
            final(self).cur == 0,
    {
        self.jump(0);
    }

    /// Gets the index of the next argument.
    pub fn next_idx(&self) -> (r: Option<usize>)
        ensures
            r == if self.cur < self.args@.len() { Some(self.cur) } else { None::<usize> },
    {
        if self.cur < self.args.len() {
            Some(self.cur)
        } else {
            None
        }
    }

    /// Gets the index of the current argument.
    pub fn cur_idx(&self) -> (r: Option<usize>)
        ensures
            r == if self.cur != 0 && self.cur - 1 < self.args@.len() {
                Some((self.cur - 1) as usize)
            } else {
                None::<usize>
            },
    {
        if self.cur != 0 && self.cur - 1 < self.args.len() {
            Some(self.cur - 1)
        } else {
            None
        }
    }

    /// Gets the next argument.
    pub fn next(&mut self) -> (r: Option<&str>)
        ensures
            final(self).args == old(self).args,
            old(self).cur < old(self).args@.len() ==> final(self).cur == old(self).cur + 1 && (r matches Some(s)
                && s@ == old(self).args@[old(self).cur as int]@),
            old(self).cur >= old(self).args@.len() ==> final(self).cur == old(self).cur && r is None,
    {
        if self.cur < self.args.len() {
            self.cur = self.cur + 1;
            Some(self.args[self.cur - 1].as_str())
        } else {
            None
        }
    }

    /// Adds the arguments and the position of the current one to `err`.
    pub fn map_err(&self, err: ArgError) -> (r: ArgError)
        requires
            self.well_formed(),
        ensures
            self.args@.len() == 0 ==> r == err,
            self.args@.len() > 0 ==> err.ctx().args_added(
                r.ctx().args,
                if self.cur > 0 { (self.cur - 1) as usize } else { 0usize },
                &r.ctx(),
            ) && r.ctx().args@ == self.args@,
    {
        if self.args.len() == 0 {
            return err;
        }
        let idx = if self.cur > 0 {
            self.cur - 1
        } else {
            0
        };
        let args = clone_range(&self.args, 0, self.args.len());
        assert(self.args@.subrange(0, self.args@.len() as int) =~= self.args@);
        err.add_args(args, idx)
    }

    /// Adds the arguments and the position of the current one to the error of `res`.
    pub fn map_res<T>(&self, res: Result<T, ArgError>) -> (r: Result<T, ArgError>)
        requires
            self.well_formed(),
        ensures
            res is Ok <==> r is Ok,
            res matches Ok(v) ==> r == Ok::<T, ArgError>(v),
            res matches Err(e) ==> (r matches Err(e2) && e2.ctx().kind == e.ctx().kind),
    {
        match res {
            Ok(v) => Ok(v),
            Err(e) => Err(self.map_err(e)),
        }
    }

    /// The error that there are no more arguments.
    pub fn err_no_more_arguments(&self) -> (r: ArgError)
        ensures
            r.ctx().kind == ArgErrKind::NoMoreArguments,
            r.ctx().args@ == self.args@,
            r.ctx().inline_msg matches Some(m) && m@ == "Expected more arguments."@,
            self.args@.len() > 0 ==> {
                let last = self.args@.last()@;
                &&& r.ctx().error_idx == self.args@.len() - 1
                &&& r.ctx().error_span == (Span { start: byte_len(last), end: byte_len(last) })
                &&& r.ctx().long_msg matches Some(m) && m@ == "Expected more arguments after the argument `"@ + last
                    + "`."@
            },
    {
        let n = self.args.len();
        let args = clone_range(&self.args, 0, n);
        assert(self.args@.subrange(0, self.args@.len() as int) =~= self.args@);
        let mut ctx = ArgErrCtx::new(ArgErrKind::NoMoreArguments);
        if n > 0 {
            let last = self.args[n - 1].as_str();
            let pos = last.len();
            let mut long = owned("Expected more arguments after the argument `");
            push_str(&mut long, last);
            push_str(&mut long, "`.");
            assert(long@ =~= "Expected more arguments after the argument `"@ + self.args@.last()@ + "`."@);
            ctx.long_msg = Some(long);
            ctx.error_idx = n - 1;
            ctx.error_span = Span { start: pos, end: pos };
        }
        ctx.inline_msg = Some(owned("Expected more arguments."));
        ctx.args = args;
        ArgError::new(ctx)
    }

    /// The error that the current argument is unknown.
    pub fn err_unknown_argument(&self) -> (r: ArgError)
        requires
            self.well_formed(),
        ensures
            r.ctx().kind == ArgErrKind::UnknownArgument,
            r.ctx().args@ == self.args@,
    {
        let n = self.args.len();
        let args = clone_range(&self.args, 0, n);
        assert(self.args@.subrange(0, self.args@.len() as int) =~= self.args@);
        let mut ctx = ArgErrCtx::new(ArgErrKind::UnknownArgument);
        match self.cur() {
            Some(a) => {
                let mut long = owned("Unknown argument `");
                push_str(&mut long, a);
                push_str(&mut long, "`");
                ctx.long_msg = Some(long);
                ctx.error_span = Span { start: 0, end: a.len() };
            },
            None => {},
        }
        ctx.error_idx = if self.cur > 0 {
            self.cur - 1
        } else {
            0
        };
        ctx.inline_msg = Some(owned("Unknown argument."));
        ctx.args = args;
        ArgError::new(ctx)
    }

    /// The error that the given span of the current argument is invalid; a
    /// span that does not lie within the argument becomes the whole of it.
    pub fn err_invalid_span(&self, span: Span) -> (r: ArgError)
        requires
            self.well_formed(),
        ensures
            r.ctx().kind == ArgErrKind::InvalidValue,
    {
        let len = match self.cur() {
            Some(a) => a.len(),
            None => 0,
        };
        let span = if span.start > len || span.end > len {
            Span { start: 0, end: len }
        } else {
            span
        };
        self.map_err(ArgError::from_msg(ArgErrKind::InvalidValue, owned("Invalid value for argument"), String::new())).spanned(span)
    }

    /// The error that the current argument is invalid.
    pub fn err_invalid(&self) -> (r: ArgError)
        requires
            self.well_formed(),
        ensures
            r.ctx().kind == ArgErrKind::InvalidValue,
    {
        self.err_invalid_span(Span { start: usize::MAX, end: usize::MAX })
    }

    /// The error that `value` is not a valid value for the current argument.
    pub fn err_invalid_value(&self, value: String) -> (r: ArgError)
        requires
            self.well_formed(),
        ensures
            r.ctx().kind == ArgErrKind::InvalidValue,
    {
        self.map_err(ArgError::from_msg(ArgErrKind::InvalidValue, owned("Invalid value for argument."), value))
    }

    /// Parses the next argument.
    pub fn next_arg<T: FromArg>(&mut self) -> (r: Result<T, ArgError>)
        requires
            old(self).well_formed(),
        ensures
            final(self).well_formed(),
            final(self).args == old(self).args,
            old(self).cur < old(self).args@.len() ==> final(self).cur == old(self).cur + 1,
            old(self).cur >= old(self).args@.len() ==> final(self).cur == old(self).cur && (r matches Err(e)
                && e.ctx().kind == ArgErrKind::NoMoreArguments),
    {
        if self.cur < self.args.len() {
            self.cur = self.cur + 1;
            let res = T::from_arg(self.args[self.cur - 1].as_str());
            self.map_res(res)
        } else {
            Err(self.err_no_more_arguments())
        }
    }

    /// Takes the next argument as text.
    fn next_text(&mut self) -> (r: Result<String, ArgError>)
        requires
            old(self).well_formed(),
        ensures
            final(self).well_formed(),
            final(self).args == old(self).args,
            old(self).cur < old(self).args@.len() ==> final(self).cur == old(self).cur + 1 && (r matches Ok(s)
                && s@ == old(self).args@[old(self).cur as int]@),
            old(self).cur >= old(self).args@.len() ==> final(self).cur == old(self).cur && (r matches Err(e)
                && e.ctx().kind == ArgErrKind::NoMoreArguments),
    {
        if self.cur < self.args.len() {
            self.cur = self.cur + 1;
            Ok(self.args[self.cur - 1].clone())
        } else {
            Err(self.err_no_more_arguments())
        }
    }

    /// Takes the current argument as text.
    fn cur_text(&self) -> (r: Result<String, ArgError>)
        requires
            self.well_formed(),
        ensures
            self.cur > 0 ==> (r matches Ok(s) && s@ == self.args@[self.cur - 1]@),
            self.cur == 0 ==> (r matches Err(e) && e.ctx().kind == ArgErrKind::NoLastArgument),
    {
        if self.cur > 0 {
            Ok(self.args[self.cur - 1].clone())
        } else {
            Err(ArgError::from_kind(ArgErrKind::NoLastArgument))
        }
    }

    /// Parses the current argument.
    pub fn cur_arg<T: FromArg>(&self) -> (r: Result<T, ArgError>)
        requires
            self.well_formed(),
        ensures
            self.cur == 0 ==> (r matches Err(e) && e.ctx().kind == ArgErrKind::NoLastArgument),
    {
        if self.cur > 0 {
            let res = T::from_arg(self.args[self.cur - 1].as_str());
            self.map_res(res)
        } else {
            Err(ArgError::from_kind(ArgErrKind::NoLastArgument))
        }
    }

    /// Parses the next argument as `key<sep>value`, the value being optional.
    pub fn next_key_mval<K: FromArg, V: FromArg>(&mut self, sep: char) -> (r: Result<(K, Option<V>), ArgError>)
        requires
            old(self).well_formed(),
        ensures
            final(self).well_formed(),
            final(self).args == old(self).args,
            old(self).cur < old(self).args@.len() ==> final(self).cur == old(self).cur + 1,
            old(self).cur >= old(self).args@.len() ==> final(self).cur == old(self).cur && (r matches Err(e)
                && e.ctx().kind == ArgErrKind::NoMoreArguments),
    {
        let a = match self.next_text() {
            Ok(a) => a,
            Err(e) => return Err(e),
        };
        let res = key_mval_arg::<K, V>(a.as_str(), sep);
        self.map_res(res)
    }

    /// Parses the current argument as `key<sep>value`, the value being optional.
    pub fn cur_key_mval<K: FromArg, V: FromArg>(&self, sep: char) -> (r: Result<(K, Option<V>), ArgError>)
        requires
            self.well_formed(),
        ensures
            self.cur == 0 ==> (r matches Err(e) && e.ctx().kind == ArgErrKind::NoLastArgument),
    {
        let a = match self.cur_text() {
            Ok(a) => a,
            Err(e) => return Err(e),
        };
        let res = key_mval_arg::<K, V>(a.as_str(), sep);
        self.map_res(res)
    }

    /// Parses the next argument as `key<sep>value`.
    pub fn next_key_val<K: FromArg, V: FromArg>(&mut self, sep: char) -> (r: Result<(K, V), ArgError>)
        requires
            old(self).well_formed(),
        ensures
            final(self).well_formed(),
            final(self).args == old(self).args,
            old(self).cur < old(self).args@.len() ==> final(self).cur == old(self).cur + 1,
            old(self).cur >= old(self).args@.len() ==> final(self).cur == old(self).cur && (r matches Err(e)
                && e.ctx().kind == ArgErrKind::NoMoreArguments),
    {
        let a = match self.next_text() {
            Ok(a) => a,
            Err(e) => return Err(e),
        };
        let res = key_val_arg::<K, V>(a.as_str(), sep);
        self.map_res(res)
    }

    /// Parses the current argument as `key<sep>value`.
    pub fn cur_key_val<K: FromArg, V: FromArg>(&self, sep: char) -> (r: Result<(K, V), ArgError>)
        requires
            self.well_formed(),
        ensures
            self.cur == 0 ==> (r matches Err(e) && e.ctx().kind == ArgErrKind::NoLastArgument),
    {
        let a = match self.cur_text() {
            Ok(a) => a,
            Err(e) => return Err(e),
        };
        let res = key_val_arg::<K, V>(a.as_str(), sep);
        self.map_res(res)
    }

    /// Parses the next argument as a boolean: `t` is true, `f` is false, in any case.
    pub fn next_bool(&mut self, t: &str, f: &str) -> (r: Result<bool, ArgError>)
        requires
            old(self).well_formed(),
        ensures
            final(self).well_formed(),
            final(self).args == old(self).args,
            old(self).cur < old(self).args@.len() ==> final(self).cur == old(self).cur + 1,
            old(self).cur >= old(self).args@.len() ==> final(self).cur == old(self).cur && (r matches Err(e)
                && e.ctx().kind == ArgErrKind::NoMoreArguments),
    {
        let a = match self.next_text() {
            Ok(a) => a,
            Err(e) => return Err(e),
        };
        let res = bool_arg(t, f, a.as_str());
        self.map_res(res)
    }

    /// Parses the current argument as a boolean: `t` is true, `f` is false, in any case.
    pub fn cur_bool(&self, t: &str, f: &str) -> (r: Result<bool, ArgError>)
        requires
            self.well_formed(),
        ensures
            self.cur == 0 ==> (r matches Err(e) && e.ctx().kind == ArgErrKind::NoLastArgument),
    {
        let a = match self.cur_text() {
            Ok(a) => a,
            Err(e) => return Err(e),
        };
        let res = bool_arg(t, f, a.as_str());
        self.map_res(res)
    }

    /// Parses the next argument as an optional boolean: `t`, `f` or `n`, in any case.
    pub fn next_opt_bool(&mut self, t: &str, f: &str, n: &str) -> (r: Result<Option<bool>, ArgError>)
        requires
            old(self).well_formed(),
        ensures
            final(self).well_formed(),
            final(self).args == old(self).args,
            old(self).cur < old(self).args@.len() ==> final(self).cur == old(self).cur + 1,
            old(self).cur >= old(self).args@.len() ==> final(self).cur == old(self).cur && (r matches Err(e)
                && e.ctx().kind == ArgErrKind::NoMoreArguments),
    {
        let a = match self.next_text() {
            Ok(a) => a,
            Err(e) => return Err(e),
        };
        let res = opt_bool_arg(t, f, n, a.as_str());
        self.map_res(res)
    }

    /// Parses the current argument as an optional boolean: `t`, `f` or `n`, in any case.
    pub fn cur_opt_bool(&self, t: &str, f: &str, n: &str) -> (r: Result<Option<bool>, ArgError>)
        requires
            self.well_formed(),
        ensures
            self.cur == 0 ==> (r matches Err(e) && e.ctx().kind == ArgErrKind::NoLastArgument),
    {
        let a = match self.cur_text() {
            Ok(a) => a,
            Err(e) => return Err(e),
        };
        let res = opt_bool_arg(t, f, n, a.as_str());
        self.map_res(res)
    }

    /// Parses the key of the next argument, `key<sep>value`.
    pub fn next_key<T: FromArg>(&mut self, sep: char) -> (r: Result<T, ArgError>)
        requires
            old(self).well_formed(),
        ensures
            final(self).well_formed(),
            final(self).args == old(self).args,
            old(self).cur < old(self).args@.len() ==> final(self).cur == old(self).cur + 1,
            old(self).cur >= old(self).args@.len() ==> final(self).cur == old(self).cur && (r matches Err(e)
                && e.ctx().kind == ArgErrKind::NoMoreArguments),
    {
        let a = match self.next_text() {
            Ok(a) => a,
            Err(e) => return Err(e),
        };
        let res = key_arg::<T>(a.as_str(), sep);
        self.map_res(res)
    }

    /// Parses the key of the current argument, `key<sep>value`.
    pub fn cur_key<T: FromArg>(&self, sep: char) -> (r: Result<T, ArgError>)
        requires
            self.well_formed(),
        ensures
            self.cur == 0 ==> (r matches Err(e) && e.ctx().kind == ArgErrKind::NoLastArgument),
    {
        let a = match self.cur_text() {
            Ok(a) => a,
            Err(e) => return Err(e),
        };
        let res = key_arg::<T>(a.as_str(), sep);
        self.map_res(res)
    }

    /// Parses the value of the next argument, `key<sep>value`.
    pub fn next_val<T: FromArg>(&mut self, sep: char) -> (r: Result<T, ArgError>)
        requires
            old(self).well_formed(),
        ensures
            final(self).well_formed(),
            final(self).args == old(self).args,
            old(self).cur < old(self).args@.len() ==> final(self).cur == old(self).cur + 1,
            old(self).cur >= old(self).args@.len() ==> final(self).cur == old(self).cur && (r matches Err(e)
                && e.ctx().kind == ArgErrKind::NoMoreArguments),
    {
        let a = match self.next_text() {
            Ok(a) => a,
            Err(e) => return Err(e),
        };
        let res = val_arg::<T>(a.as_str(), sep);
        self.map_res(res)
    }

    /// Parses the value of the current argument, `key<sep>value`.
    pub fn cur_val<T: FromArg>(&self, sep: char) -> (r: Result<T, ArgError>)
        requires
            self.well_formed(),
        ensures
            self.cur == 0 ==> (r matches Err(e) && e.ctx().kind == ArgErrKind::NoLastArgument),
    {
        let a = match self.cur_text() {
            Ok(a) => a,
            Err(e) => return Err(e),
        };
        let res = val_arg::<T>(a.as_str(), sep);
        self.map_res(res)
    }

    /// Parses the value of the next argument, `key<sep>value`, if there is a separator.
    pub fn next_mval<T: FromArg>(&mut self, sep: char) -> (r: Result<Option<T>, ArgError>)
        requires
            old(self).well_formed(),
        ensures
            final(self).well_formed(),
            final(self).args == old(self).args,
            old(self).cur < old(self).args@.len() ==> final(self).cur == old(self).cur + 1,
            old(self).cur >= old(self).args@.len() ==> final(self).cur == old(self).cur && (r matches Err(e)
                && e.ctx().kind == ArgErrKind::NoMoreArguments),
    {
        let a = match self.next_text() {
            Ok(a) => a,
            Err(e) => return Err(e),
        };
        let res = mval_arg::<T>(a.as_str(), sep);
        self.map_res(res)
    }

    /// Parses the value of the current argument, `key<sep>value`, if there is a separator.
    pub fn cur_mval<T: FromArg>(&self, sep: char) -> (r: Result<Option<T>, ArgError>)
        requires
            self.well_formed(),
        ensures
            self.cur == 0 ==> (r matches Err(e) && e.ctx().kind == ArgErrKind::NoLastArgument),
    {
        let a = match self.cur_text() {
            Ok(a) => a,
            Err(e) => return Err(e),
        };
        let res = mval_arg::<T>(a.as_str(), sep);
        self.map_res(res)
    }

    /// The value of the current argument, `key<sep>value`, if it has one;
    /// else the next argument.
    pub fn cur_val_or_next<T: FromArg>(&mut self, sep: char) -> (r: Result<T, ArgError>)
        requires
            old(self).well_formed(),
        ensures
            final(self).well_formed(),
            final(self).args == old(self).args,
    {
        match self.cur_mval::<T>(sep) {
            Ok(Some(v)) => Ok(v),
            Ok(None) => self.next_arg(),
            Err(e) => Err(e),
        }
    }

    /// Parses the current argument with `f`.
    pub fn cur_manual<T, F: Fn(&str) -> Result<T, ArgError>>(&self, f: F) -> (r: Result<T, ArgError>)
        requires
            self.well_formed(),
            forall|s: &str| f.requires((s,)),
        ensures
            self.cur == 0 ==> (r matches Err(e) && e.ctx().kind == ArgErrKind::NoLastArgument),
    {
        let a = match self.cur_text() {
            Ok(a) => a,
            Err(e) => return Err(e),
        };
        let res = f(a.as_str());
        self.map_res(res)
    }

    /// Parses the next argument with `f`.
    pub fn next_manual<T, F: Fn(&str) -> Result<T, ArgError>>(&mut self, f: F) -> (r: Result<T, ArgError>)
        requires
            old(self).well_formed(),
            forall|s: &str| f.requires((s,)),
        ensures
            final(self).well_formed(),
            final(self).args == old(self).args,
            old(self).cur < old(self).args@.len() ==> final(self).cur == old(self).cur + 1,
            old(self).cur >= old(self).args@.len() ==> (r matches Err(e) && e.ctx().kind
                == ArgErrKind::NoMoreArguments),
    {
        let a = match self.next_text() {
            Ok(a) => a,
            Err(e) => return Err(e),
        };
        let res = f(a.as_str());
        self.map_res(res)
    }

    /// Sets `res` with `f` applied to the current argument, unless it is set.
    pub fn try_set_cur_with<T, F: FnOnce(&str) -> Result<T, ArgError>>(&self, res: &mut Option<T>, f: F) -> (r: Result<(), ArgError>)
        requires
            self.well_formed(),
            forall|s: &str| f.requires((s,)),
        ensures
            (*old(res)) is Some && self.cur > 0 ==> (r matches Err(e) && e.ctx().kind == ArgErrKind::TooManyArguments),
    {
        let a = match self.cur_text() {
            Ok(a) => a,
            Err(e) => return Err(e),
        };
        let x = try_set_arg_with(res, a.as_str(), f);
        self.map_res(x)
    }

    /// Sets `res` with `f` applied to the next argument, unless it is set.
    pub fn try_set_next_with<T, F: FnOnce(&str) -> Result<T, ArgError>>(&mut self, res: &mut Option<T>, f: F) -> (r: Result<(), ArgError>)
        requires
            old(self).well_formed(),
            forall|s: &str| f.requires((s,)),
        ensures
            final(self).well_formed(),
            final(self).args == old(self).args,
            (*old(res)) is Some && old(self).cur < old(self).args@.len() ==> (r matches Err(e) && e.ctx().kind
                == ArgErrKind::TooManyArguments),
    {
        let a = match self.next_text() {
            Ok(a) => a,
            Err(e) => return Err(e),
        };
        let x = try_set_arg_with(res, a.as_str(), f);
        self.map_res(x)
    }

    /// Sets `res` to the value of the current argument, unless it is set.
    pub fn try_set_cur<T: FromArg>(&self, res: &mut Option<T>) -> (r: Result<(), ArgError>)
        requires
            self.well_formed(),
        ensures
            (*old(res)) is Some && self.cur > 0 ==> (r matches Err(e) && e.ctx().kind == ArgErrKind::TooManyArguments),
    {
        let a = match self.cur_text() {
            Ok(a) => a,
            Err(e) => return Err(e),
        };
        let x = try_set_arg(res, a.as_str());
        self.map_res(x)
    }

    /// Sets `res` to the value of the next argument, unless it is set.
    pub fn try_set_next<T: FromArg>(&mut self, res: &mut Option<T>) -> (r: Result<(), ArgError>)
        requires
            old(self).well_formed(),
        ensures
            final(self).well_formed(),
            final(self).args == old(self).args,
            (*old(res)) is Some && old(self).cur < old(self).args@.len() ==> (r matches Err(e) && e.ctx().kind
                == ArgErrKind::TooManyArguments),
    {
        let a = match self.next_text() {
            Ok(a) => a,
            Err(e) => return Err(e),
        };
        let x = try_set_arg(res, a.as_str());
        self.map_res(x)
    }
}

} // verus!
