use vstd::prelude::*;

use crate::cursor::TokenCursor;

verus! {

/// The arity of an owned argument: no trailing token, exactly one, or one per
/// occurrence, accumulating.
#[derive(Debug, Clone, Copy, PartialEq, Eq, Structural)]
pub enum ArgType {
    Flag,
    Value,
    ValueList,
}

/// The data an owned argument has accumulated through parsing.
#[derive(Debug, PartialEq)]
pub enum ArgResult {
    Flag,
    Value(String),
    ValueList(Vec<String>),
}

/// Mathematical model of an argument's accumulated result.
pub enum ResultView {
    Flag,
    Value(Seq<char>),
    ValueList(Seq<Seq<char>>),
}

impl View for ArgResult {
    type V = ResultView;

    open spec fn view(&self) -> ResultView {
        match self {
            ArgResult::Flag => ResultView::Flag,
            ArgResult::Value(s) => ResultView::Value(s@),
            ArgResult::ValueList(l) => ResultView::ValueList(l@.map_values(|s: String| s@)),
        }
    }
}

/// Mathematical model of an owned argument.
pub struct ArgView {
    pub short: Option<char>,
    pub long: Option<Seq<char>>,
    pub arg_type: ArgType,
    pub result: Option<ResultView>,
}

/// An owned argument: a short or long name (at least one), an arity, and the
/// result slot the dispatch loop fills.
#[derive(Debug)]
pub struct Argument {
    pub short: Option<char>,
    pub long: Option<String>,
    pub arg_type: ArgType,
    pub arg_result: Option<ArgResult>,
}

impl View for Argument {
    type V = ArgView;

    open spec fn view(&self) -> ArgView {
        ArgView {
            short: self.short,
            long: match self.long {
                Some(ref s) => Some(s@),
                None => None,
            },
            arg_type: self.arg_type,
            result: match self.arg_result {
                Some(ref r) => Some(r@),
                None => None,
            },
        }
    }
}

impl ArgView {
    /// Whether this argument answers to the given short name.
    pub open spec fn matches_short(self, name: char) -> bool {
        self.short == Some(name)
    }

    /// Whether this argument answers to the given long name.
    pub open spec fn matches_long(self, name: Seq<char>) -> bool {
        self.long == Some(name)
    }
}

/// What one occurrence of an owned argument does, given the next token of the
/// stream: the updated argument, whether that token was consumed, and the
/// error if the occurrence is rejected.
pub open spec fn add_value_step(a: ArgView, next: Option<Seq<char>>) -> (ArgView, bool, Option<
    Seq<char>,
>) {
    match a.arg_type {
        ArgType::Flag => {
            if a.result is Some {
                (a, false, Some("Flag already set"@))
            } else {
                (ArgView { result: Some(ResultView::Flag), ..a }, false, None)
            }
        },
        ArgType::Value => {
            if a.result is Some {
                (a, false, Some("Value already assigned"@))
            } else {
                match next {
                    Some(t) => (ArgView { result: Some(ResultView::Value(t)), ..a }, true, None),
                    None => (a, false, Some("Expected value"@)),
                }
            }
        },
        ArgType::ValueList => {
            let a1 = if a.result is None {
                ArgView { result: Some(ResultView::ValueList(Seq::empty())), ..a }
            } else {
                a
            };
            match next {
                Some(t) => {
                    match a1.result {
                        Some(ResultView::ValueList(l)) => (
                            ArgView { result: Some(ResultView::ValueList(l.push(t))), ..a1 },
                            true,
                            None,
                        ),
                        _ => (a1, true, Some("WTF"@)),
                    }
                },
                None => (a1, false, Some("Expected value"@)),
            }
        },
    }
}

impl Argument {
    /// Create a new owned argument. At least one name, short or long, must be
    /// given; with none to answer to, construction is rejected.
    pub fn new(short: Option<char>, long: Option<&str>, arg_type: ArgType) -> (r: Result<
        Argument,
        String,
    >)
        ensures
            match r {
                Ok(a) => (short is Some || long is Some) && a@ == (ArgView {
                    short,
                    long: match long {
                        Some(s) => Some(s@),
                        None => None,
                    },
                    arg_type,
                    result: None,
                }),
                Err(e) => short is None && long is None && e@
                    == "At least one name of argument must be specified (short or long or both)"@,
            },
    {
        if short.is_none() && long.is_none() {
            return Err(
                "At least one name of argument must be specified (short or long or both)".to_owned(),
            );
        }

        let long_owned: Option<String> = match long {
            Some(text) => Some(text.to_owned()),
            None => None,
        };

        Ok(Argument { short, long: long_owned, arg_type, arg_result: None })
    }

    /// Create an argument identified by a short name alone.
    pub fn new_short(name: char, arg_type: ArgType) -> (r: Argument)
        ensures
            r@ == (ArgView { short: Some(name), long: None, arg_type, result: None }),
    {
        match Argument::new(Some(name), None, arg_type) {
            Ok(a) => a,
            Err(_) => vstd::pervasive::unreached(),
        }
    }

    /// Create an argument identified by a long name alone.
    pub fn new_long(name: &str, arg_type: ArgType) -> (r: Argument)
        ensures
            r@ == (ArgView { short: None, long: Some(name@), arg_type, result: None }),
    {
        match Argument::new(None, Some(name), arg_type) {
            Ok(a) => a,
            Err(_) => vstd::pervasive::unreached(),
        }
    }

    /// Read the single value bound to a Value-arity argument. Rejected when
    /// the argument has another arity or no value has been bound yet.
    pub fn get_value(&self) -> (r: Result<&str, &'static str>)
        ensures
            match r {
                Ok(v) => self@.arg_type == ArgType::Value && self@.result == Some(
                    ResultView::Value(v@),
                ),
                Err(e) => match self@.arg_type {
                    ArgType::Value => match self@.result {
                        Some(ResultView::Value(_)) => false,
                        Some(_) => e@
                            == "Wrong type of result. Something really bad has happened"@,
                        None => e@ == "No value assigned to result"@,
                    },
                    _ => e@ == "This argument is not an value"@,
                },
            },
    {
        match self.arg_type {
            ArgType::Value => {
                match &self.arg_result {
                    Some(ArgResult::Value(value)) => Ok(value.as_str()),
                    Some(_) => Err("Wrong type of result. Something really bad has happened"),
                    None => Err("No value assigned to result"),
                }
            },
            _ => Err("This argument is not an value"),
        }
    }

    /// Read the value list bound to a ValueList-arity argument. Rejected when
    /// the argument has another arity or no value has been bound yet.
    pub fn get_values(&self) -> (r: Result<&Vec<String>, &'static str>)
        ensures
            match r {
                Ok(l) => self@.arg_type == ArgType::ValueList && self@.result == Some(
                    ResultView::ValueList(l@.map_values(|s: String| s@)),
                ),
                Err(e) => match self@.arg_type {
                    ArgType::ValueList => match self@.result {
                        Some(ResultView::ValueList(_)) => false,
                        Some(_) => e@ == "Wrong type of result. Something really bad happened"@,
                        None => e@ == "No result specified"@,
                    },
                    _ => e@ == "This argument is not an value list"@,
                },
            },
    {
        match self.arg_type {
            ArgType::ValueList => {
                match &self.arg_result {
                    Some(ArgResult::ValueList(list)) => Ok(list),
                    Some(_) => Err("Wrong type of result. Something really bad happened"),
                    None => Err("No result specified"),
                }
            },
            _ => Err("This argument is not an value list"),
        }
    }

    /// Read a Flag-arity argument: true when the flag was seen. Rejected on
    /// any other arity; an unseen flag reads as false, never as an error.
    pub fn get_flag(&self) -> (r: Result<bool, &'static str>)
        ensures
            match r {
                Ok(b) => self@.arg_type == ArgType::Flag && b == (self@.result is Some),
                Err(e) => self@.arg_type != ArgType::Flag && e@
                    == "Argument is not an flag type"@,
            },
    {
        match self.arg_type {
            ArgType::Flag => Ok(self.arg_result.is_some()),
            _ => Err("Argument is not an flag type"),
        }
    }

    /// Record one occurrence of this argument, consuming a trailing value
    /// token from the cursor where the arity calls for one. The effect is
    /// exactly `add_value_step` on the argument's model and the next token.
    pub fn add_value(&mut self, cursor: &mut TokenCursor) -> (r: Result<(), String>)
        ensures
            ({
                let (av, consumed, err) = add_value_step(old(self)@, old(cursor).peek_spec());
                &&& final(self)@ == av
                &&& *final(cursor) == if consumed {
                    old(cursor).advanced()
                } else {
                    *old(cursor)
                }
                &&& match r {
                    Ok(()) => err is None,
                    Err(e) => err == Some(e@),
                }
            }),
    {
        match self.arg_type {
            ArgType::Flag => {
                if self.arg_result.is_some() {
                    return Err("Flag already set".to_owned());
                }
                self.arg_result = Some(ArgResult::Flag);
            },
            ArgType::Value => {
                if self.arg_result.is_some() {
                    return Err("Value already assigned".to_owned());
                }
                match cursor.next() {
                    Some(word) => {
                        self.arg_result = Some(ArgResult::Value(word));
                    },
                    None => {
                        return Err("Expected value".to_owned());
                    },
                }
            },
            ArgType::ValueList => {
                if self.arg_result.is_none() {
                    self.arg_result = Some(ArgResult::ValueList(Vec::new()));
                    proof {
                        assert(match self.arg_result {
                            Some(ArgResult::ValueList(v)) => v@.map_values(|s: String| s@)
                                =~= Seq::<Seq<char>>::empty(),
                            _ => false,
                        });
                    }
                }
                let ghost mid = *self;
                match cursor.next() {
                    Some(word) => {
                        let ghost w = word@;
                        match &mut self.arg_result {
                            Some(ArgResult::ValueList(values)) => {
                                let ghost vals0 = values@;
                                values.push(word);
                                proof {
                                    assert(values@.map_values(|s: String| s@)
                                        =~= vals0.map_values(|s: String| s@).push(w));
                                }
                            },
                            _ => {
                                return Err("WTF".to_owned());
                            },
                        }
                    },
                    None => {
                        return Err("Expected value".to_owned());
                    },
                }
            },
        }

        Ok(())
    }

    /// The short name, if any.
    pub fn short(&self) -> (r: &Option<char>)
        ensures
            *r == self@.short,
    {
        &self.short
    }

    /// The long name, if any.
    pub fn long(&self) -> (r: &Option<String>)
        ensures
            match r {
                Some(s) => self@.long == Some(s@),
                None => self@.long is None,
            },
    {
        &self.long
    }

    /// The arity this argument was created with.
    pub fn arg_type(&self) -> (r: &ArgType)
        ensures
            *r == self@.arg_type,
    {
        &self.arg_type
    }
}

} // verus!
