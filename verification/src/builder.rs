use vstd::prelude::*;

use crate::argument::legacy_argument::{ArgType, ArgView, Argument};

verus! {

/// A fluent helper for constructing owned arguments: accumulate an arity and
/// a short or long name, then build, surfacing the constructor's demand that
/// at least one name be given.
pub struct ArgBuilder {
    pub arg_type: ArgType,
    pub short_name: Option<char>,
    pub long_name: Option<String>,
}

impl ArgBuilder {
    /// Start building an argument of the given arity, with no names yet.
    pub fn new(arg_type: ArgType) -> (r: ArgBuilder)
        ensures
            r.arg_type == arg_type,
            r.short_name is None,
            r.long_name is None,
    {
        ArgBuilder { arg_type, short_name: None, long_name: None }
    }

    /// Set the short name.
    pub fn set_short_name(self, short_name: char) -> (r: ArgBuilder)
        ensures
            r.arg_type == self.arg_type,
            r.short_name == Some(short_name),
            r.long_name == self.long_name,
    {
        ArgBuilder { short_name: Some(short_name), ..self }
    }

    /// Set the long name.
    pub fn set_long_name(self, long_name: &str) -> (r: ArgBuilder)
        ensures
            r.arg_type == self.arg_type,
            r.short_name == self.short_name,
            match r.long_name {
                Some(s) => s@ == long_name@,
                None => false,
            },
    {
        ArgBuilder { long_name: Some(long_name.to_owned()), ..self }
    }

    /// Replace the arity.
    pub fn set_type(self, new_type: ArgType) -> (r: ArgBuilder)
        ensures
            r.arg_type == new_type,
            r.short_name == self.short_name,
            r.long_name == self.long_name,
    {
        ArgBuilder { arg_type: new_type, ..self }
    }

    /// Build the argument: rejected exactly when neither name was set.
    pub fn build(&self) -> (r: Result<Argument, String>)
        ensures
            match r {
                Ok(a) => (self.short_name is Some || self.long_name is Some) && a@ == (ArgView {
                    short: self.short_name,
                    long: match self.long_name {
                        Some(ref s) => Some(s@),
                        None => None,
                    },
                    arg_type: self.arg_type,
                    result: None,
                }),
                Err(e) => self.short_name is None && self.long_name is None && e@
                    == "At least one name of argument must be specified (short or long or both)"@,
            },
    {
        let long: Option<&str> = match &self.long_name {
            Some(l) => Some(l.as_str()),
            None => None,
        };
        Argument::new(self.short_name, long, self.arg_type)
    }
}

} // verus!
