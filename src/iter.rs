//! A plain iterator over arguments that parses them one after another.

use vstd::prelude::*;

use crate::err::{ArgErrKind, ArgError};
use crate::from_arg::FromArg;
use crate::parsers::{bool_arg, key_arg, key_mval_arg, key_val_arg, mval_arg, opt_bool_arg, val_arg};
use crate::text::{owned, push_str};

verus! {

/// Parses arguments one after another, without keeping them for messages.
#[derive(Debug, Clone)]
pub struct ArgIterator {
    pub args: Vec<String>,
    /// Index of the next argument.
    pub idx: usize,
}

impl ArgIterator {
    /// An iterator before the first of `args`.
    pub fn new(args: Vec<String>) -> (r: Self)
        ensures
            r.args == args,
            r.idx == 0,
            r.well_formed(),
    {
        ArgIterator { args, idx: 0 }
    }

    /// Whether the position lies within the arguments.
    pub open spec fn well_formed(&self) -> bool {
        self.idx <= self.args@.len()
    }

    /// Gets the next argument.
    pub fn next(&mut self) -> (r: Option<&str>)
        ensures
            final(self).args == old(self).args,
            old(self).idx < old(self).args@.len() ==> final(self).idx == old(self).idx + 1 && (r matches Some(s)
                && s@ == old(self).args@[old(self).idx as int]@),
            old(self).idx >= old(self).args@.len() ==> final(self).idx == old(self).idx && r is None,
    {
        if self.idx < self.args.len() {
            self.idx = self.idx + 1;
            Some(self.args[self.idx - 1].as_str())
        } else {
            None
        }
    }

    /// The error that there are no more arguments, after the last one if
    /// there was one.
    fn no_more(&self) -> (r: ArgError)
        requires
            self.well_formed(),
        ensures
            r.ctx().kind == ArgErrKind::NoMoreArguments,
    {
        if self.idx > 0 {
            let last = self.args[self.idx - 1].as_str();
            let mut msg = owned("Expected more arguments after the argument `");
            push_str(&mut msg, last);
            push_str(&mut msg, "`.");
            ArgError::from_msg(ArgErrKind::NoMoreArguments, msg, owned(last))
        } else {
            ArgError::from_kind(ArgErrKind::NoMoreArguments)
        }
    }

    fn next_text(&mut self) -> (r: Result<String, ArgError>)
        requires
            old(self).well_formed(),
        ensures
            final(self).well_formed(),
            final(self).args == old(self).args,
            old(self).idx < old(self).args@.len() ==> final(self).idx == old(self).idx + 1 && (r matches Ok(s)
                && s@ == old(self).args@[old(self).idx as int]@),
            old(self).idx >= old(self).args@.len() ==> final(self).idx == old(self).idx && (r matches Err(e)
                && e.ctx().kind == ArgErrKind::NoMoreArguments),
    {
        if self.idx < self.args.len() {
            self.idx = self.idx + 1;
            Ok(self.args[self.idx - 1].clone())
        } else {
            Err(self.no_more())
        }
    }

    fn cur_text(&self) -> (r: Result<String, ArgError>)
        requires
            self.well_formed(),
        ensures
            self.idx > 0 ==> (r matches Ok(s) && s@ == self.args@[self.idx - 1]@),
            self.idx == 0 ==> (r matches Err(e) && e.ctx().kind == ArgErrKind::NoLastArgument),
    {
        if self.idx > 0 {
            Ok(self.args[self.idx - 1].clone())
        } else {
            Err(ArgError::from_kind(ArgErrKind::NoLastArgument))
        }
    }

    /// Parses the next argument.
    pub fn next_arg<T: FromArg>(&mut self) -> (r: Result<T, ArgError>)
        requires
            old(self).well_formed(),
        ensures
            final(self).well_formed(),
            final(self).args == old(self).args,
            old(self).idx < old(self).args@.len() ==> final(self).idx == old(self).idx + 1,
            old(self).idx >= old(self).args@.len() ==> (r matches Err(e) && e.ctx().kind == ArgErrKind::NoMoreArguments),
    {
        if self.idx < self.args.len() {
            self.idx = self.idx + 1;
            T::from_arg(self.args[self.idx - 1].as_str())
        } else {
            Err(self.no_more())
        }
    }

    /// Parses the current argument.
    pub fn cur_arg<T: FromArg>(&self) -> (r: Result<T, ArgError>)
        requires
            self.well_formed(),
        ensures
            self.idx == 0 ==> (r matches Err(e) && e.ctx().kind == ArgErrKind::NoLastArgument),
    {
        if self.idx > 0 {
            T::from_arg(self.args[self.idx - 1].as_str())
        } else {
            Err(ArgError::from_kind(ArgErrKind::NoLastArgument))
        }
    }

    /// Parses the next argument as `key<sep>value`, the value being optional.
    pub fn next_key_mval<K: FromArg, V: FromArg>(&mut self, sep: char) -> (r: Result<(K, Option<V>), ArgError>)
        requires
            old(self).well_formed(),
        ensures
            final(self).well_formed(),
            final(self).args == old(self).args,
            old(self).idx < old(self).args@.len() ==> final(self).idx == old(self).idx + 1,
            old(self).idx >= old(self).args@.len() ==> (r matches Err(e) && e.ctx().kind == ArgErrKind::NoMoreArguments),
    {
        let a = match self.next_text() {
            Ok(a) => a,
            Err(e) => return Err(e),
        };
        key_mval_arg::<K, V>(a.as_str(), sep)
    }

    /// Parses the current argument as `key<sep>value`, the value being optional.
    pub fn cur_key_mval<K: FromArg, V: FromArg>(&self, sep: char) -> (r: Result<(K, Option<V>), ArgError>)
        requires
            self.well_formed(),
        ensures
            self.idx == 0 ==> (r matches Err(e) && e.ctx().kind == ArgErrKind::NoLastArgument),
    {
        let a = match self.cur_text() {
            Ok(a) => a,
            Err(e) => return Err(e),
        };
        key_mval_arg::<K, V>(a.as_str(), sep)
    }

    /// Parses the next argument as `key<sep>value`.
    pub fn next_key_val<K: FromArg, V: FromArg>(&mut self, sep: char) -> (r: Result<(K, V), ArgError>)
        requires
            old(self).well_formed(),
        ensures
            final(self).well_formed(),
            final(self).args == old(self).args,
            old(self).idx < old(self).args@.len() ==> final(self).idx == old(self).idx + 1,
            old(self).idx >= old(self).args@.len() ==> (r matches Err(e) && e.ctx().kind == ArgErrKind::NoMoreArguments),
    {
        let a = match self.next_text() {
            Ok(a) => a,
            Err(e) => return Err(e),
        };
        key_val_arg::<K, V>(a.as_str(), sep)
    }

    /// Parses the current argument as `key<sep>value`.
    pub fn cur_key_val<K: FromArg, V: FromArg>(&self, sep: char) -> (r: Result<(K, V), ArgError>)
        requires
            self.well_formed(),
        ensures
            self.idx == 0 ==> (r matches Err(e) && e.ctx().kind == ArgErrKind::NoLastArgument),
    {
        let a = match self.cur_text() {
            Ok(a) => a,
            Err(e) => return Err(e),
        };
        key_val_arg::<K, V>(a.as_str(), sep)
    }

    /// Parses the next argument as a boolean: `t` is true, `f` is false, in any case.
    pub fn next_bool(&mut self, t: &str, f: &str) -> (r: Result<bool, ArgError>)
        requires
            old(self).well_formed(),
        ensures
            final(self).well_formed(),
            final(self).args == old(self).args,
            old(self).idx < old(self).args@.len() ==> final(self).idx == old(self).idx + 1,
            old(self).idx >= old(self).args@.len() ==> (r matches Err(e) && e.ctx().kind == ArgErrKind::NoMoreArguments),
    {
        let a = match self.next_text() {
            Ok(a) => a,
            Err(e) => return Err(e),
        };
        bool_arg(t, f, a.as_str())
    }

    /// Parses the current argument as a boolean: `t` is true, `f` is false, in any case.
    pub fn cur_bool(&self, t: &str, f: &str) -> (r: Result<bool, ArgError>)
        requires
            self.well_formed(),
        ensures
            self.idx == 0 ==> (r matches Err(e) && e.ctx().kind == ArgErrKind::NoLastArgument),
    {
        let a = match self.cur_text() {
            Ok(a) => a,
            Err(e) => return Err(e),
        };
        bool_arg(t, f, a.as_str())
    }

    /// Parses the next argument as an optional boolean: `t`, `f` or `n`, in any case.
    pub fn next_opt_bool(&mut self, t: &str, f: &str, n: &str) -> (r: Result<Option<bool>, ArgError>)
        requires
            old(self).well_formed(),
        ensures
            final(self).well_formed(),
            final(self).args == old(self).args,
            old(self).idx < old(self).args@.len() ==> final(self).idx == old(self).idx + 1,
            old(self).idx >= old(self).args@.len() ==> (r matches Err(e) && e.ctx().kind == ArgErrKind::NoMoreArguments),
    {
        let a = match self.next_text() {
            Ok(a) => a,
            Err(e) => return Err(e),
        };
        opt_bool_arg(t, f, n, a.as_str())
    }

    /// Parses the current argument as an optional boolean: `t`, `f` or `n`, in any case.
    pub fn cur_opt_bool(&self, t: &str, f: &str, n: &str) -> (r: Result<Option<bool>, ArgError>)
        requires
            self.well_formed(),
        ensures
            self.idx == 0 ==> (r matches Err(e) && e.ctx().kind == ArgErrKind::NoLastArgument),
    {
        let a = match self.cur_text() {
            Ok(a) => a,
            Err(e) => return Err(e),
        };
        opt_bool_arg(t, f, n, a.as_str())
    }

    /// Parses the key of the next argument, `key<sep>value`.
    pub fn next_key<T: FromArg>(&mut self, sep: char) -> (r: Result<T, ArgError>)
        requires
            old(self).well_formed(),
        ensures
            final(self).well_formed(),
            final(self).args == old(self).args,
            old(self).idx < old(self).args@.len() ==> final(self).idx == old(self).idx + 1,
            old(self).idx >= old(self).args@.len() ==> (r matches Err(e) && e.ctx().kind == ArgErrKind::NoMoreArguments),
    {
        let a = match self.next_text() {
            Ok(a) => a,
            Err(e) => return Err(e),
        };
        key_arg::<T>(a.as_str(), sep)
    }

    /// Parses the key of the current argument, `key<sep>value`.
    pub fn cur_key<T: FromArg>(&self, sep: char) -> (r: Result<T, ArgError>)
        requires
            self.well_formed(),
        ensures
            self.idx == 0 ==> (r matches Err(e) && e.ctx().kind == ArgErrKind::NoLastArgument),
    {
        let a = match self.cur_text() {
            Ok(a) => a,
            Err(e) => return Err(e),
        };
        key_arg::<T>(a.as_str(), sep)
    }

    /// Parses the value of the next argument, `key<sep>value`.
    pub fn next_val<T: FromArg>(&mut self, sep: char) -> (r: Result<T, ArgError>)
        requires
            old(self).well_formed(),
        ensures
            final(self).well_formed(),
            final(self).args == old(self).args,
            old(self).idx < old(self).args@.len() ==> final(self).idx == old(self).idx + 1,
            old(self).idx >= old(self).args@.len() ==> (r matches Err(e) && e.ctx().kind == ArgErrKind::NoMoreArguments),
    {
        let a = match self.next_text() {
            Ok(a) => a,
            Err(e) => return Err(e),
        };
        val_arg::<T>(a.as_str(), sep)
    }

    /// Parses the value of the current argument, `key<sep>value`.
    pub fn cur_val<T: FromArg>(&self, sep: char) -> (r: Result<T, ArgError>)
        requires
            self.well_formed(),
        ensures
            self.idx == 0 ==> (r matches Err(e) && e.ctx().kind == ArgErrKind::NoLastArgument),
    {
        let a = match self.cur_text() {
            Ok(a) => a,
            Err(e) => return Err(e),
        };
        val_arg::<T>(a.as_str(), sep)
    }

    /// Parses the value of the next argument, `key<sep>value`, if there is a separator.
    pub fn next_mval<T: FromArg>(&mut self, sep: char) -> (r: Result<Option<T>, ArgError>)
        requires
            old(self).well_formed(),
        ensures
            final(self).well_formed(),
            final(self).args == old(self).args,
            old(self).idx < old(self).args@.len() ==> final(self).idx == old(self).idx + 1,
            old(self).idx >= old(self).args@.len() ==> (r matches Err(e) && e.ctx().kind == ArgErrKind::NoMoreArguments),
    {
        let a = match self.next_text() {
            Ok(a) => a,
            Err(e) => return Err(e),
        };
        mval_arg::<T>(a.as_str(), sep)
    }

    /// Parses the value of the current argument, `key<sep>value`, if there is a separator.
    pub fn cur_mval<T: FromArg>(&self, sep: char) -> (r: Result<Option<T>, ArgError>)
        requires
            self.well_formed(),
        ensures
            self.idx == 0 ==> (r matches Err(e) && e.ctx().kind == ArgErrKind::NoLastArgument),
    {
        let a = match self.cur_text() {
            Ok(a) => a,
            Err(e) => return Err(e),
        };
        mval_arg::<T>(a.as_str(), sep)
    }
}

} // verus!
