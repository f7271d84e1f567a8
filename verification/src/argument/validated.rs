use vstd::prelude::*;

use crate::argument::ArgumentIdentification;
use crate::numeric::{integer_format_ok, parse_i64, parse_i64_spec};
use crate::text::{all_digits, is_digit_char, spec_is_digit};

verus! {

/// An argument definition that validates and converts one token per
/// occurrence through a pair of caller-supplied closures: a validator that
/// rejects malformed text, and a handler that turns accepted text into a
/// typed value. Accepted values accumulate across occurrences.
#[verifier::reject_recursive_types(V)]
pub struct ParsableValueArgument<V, F, C> where
    F: Fn(&str) -> Option<String>,
    C: Fn(&str) -> Result<V, String>,
 {
    pub identification: ArgumentIdentification,
    pub validator: F,
    pub handler: C,
    pub values: Vec<V>,
}

impl<V, F, C> ParsableValueArgument<V, F, C> where
    F: Fn(&str) -> Option<String>,
    C: Fn(&str) -> Result<V, String>,
 {
    /// Create a definition from an identification, a validator and a
    /// handler.
    pub fn new(identification: ArgumentIdentification, validator: F, handler: C) -> (r:
        ParsableValueArgument<V, F, C>)
        ensures
            r.identification@ == identification@,
            r.validator == validator,
            r.handler == handler,
            r.values@.len() == 0,
    {
        ParsableValueArgument { identification, validator, handler, values: Vec::new() }
    }

    /// Run the validator alone.
    fn validate(&self, value: &str) -> (r: Option<String>)
        requires
            call_requires(self.validator, (value,)),
        ensures
            call_ensures(self.validator, (value,), r),
    {
        (self.validator)(value)
    }

    /// Handle one occurrence: validate the token, rejecting it with the
    /// validator's error, then convert it, appending the converted value and
    /// propagating any conversion error verbatim.
    pub fn handle(&mut self, value: &str) -> (r: Result<(), String>)
        requires
            call_requires(old(self).validator, (value,)),
            forall|o: Option<String>|
                call_ensures(old(self).validator, (value,), o) && o is None ==> call_requires(
                    old(self).handler,
                    (value,),
                ),
        ensures
            final(self).identification@ == old(self).identification@,
            final(self).validator == old(self).validator,
            final(self).handler == old(self).handler,
            match r {
                Ok(()) => exists|v: V|
                    call_ensures(old(self).validator, (value,), None::<String>) && call_ensures(
                        old(self).handler,
                        (value,),
                        Ok(v),
                    ) && final(self).values@ == old(self).values@.push(v),
                Err(e) => final(self).values@ == old(self).values@ && (call_ensures(
                    old(self).validator,
                    (value,),
                    Some(e),
                ) || (call_ensures(old(self).validator, (value,), None::<String>) && call_ensures(
                    old(self).handler,
                    (value,),
                    Err(e),
                ))),
            },
    {
        match self.validate(value) {
            Some(err) => Err(err),
            None => {
                match (self.handler)(value) {
                    Ok(v) => {
                        let ghost gv = v;
                        self.values.push(v);
                        proof {
                            assert(self.values@ == old(self).values@.push(gv));
                        }
                        Ok(())
                    },
                    Err(e) => Err(e),
                }
            },
        }
    }

    /// True exactly when this definition answers to the given short name.
    pub fn is_by_short(&self, name: char) -> (r: bool)
        ensures
            r == self.identification@.matches_short(name),
    {
        self.identification.is_by_short(name)
    }

    /// True exactly when this definition answers to the given long name.
    pub fn is_by_long(&self, name: &str) -> (r: bool)
        ensures
            r == self.identification@.matches_long(name@),
    {
        self.identification.is_by_long(name)
    }
}

/// Reject a token holding anything but decimal digits.
fn check_digits(v: &str) -> (r: Option<String>)
    ensures
        r is None <==> all_digits(v@),
        match r {
            Some(e) => e@ == "Input is not a number"@,
            None => true,
        },
{
    let n = v.unicode_len();
    let mut i: usize = 0;
    while i < n
        invariant
            0 <= i <= n,
            n == v@.len(),
            forall|j: int| 0 <= j < i ==> spec_is_digit(v@[j]),
        decreases n - i,
    {
        if !is_digit_char(v.get_char(i)) {
            return Some("Input is not a number".to_owned());
        }
        i = i + 1;
    }
    None
}

/// A definition with the default digits-only integer validator and a handler
/// that parses the validated token as a signed 64-bit integer.
pub fn new_integer(identification: ArgumentIdentification) -> (r: ParsableValueArgument<
    i64,
    impl Fn(&str) -> Option<String>,
    impl Fn(&str) -> Result<i64, String>,
>)
    ensures
        r.identification@ == identification@,
        r.values@.len() == 0,
        forall|s: &str| #[trigger] call_requires(r.validator, (s,)),
        forall|s: &str, o: Option<String>| #[trigger]
            call_ensures(r.validator, (s,), o) ==> (o is None <==> all_digits(s@)) && (match o {
                Some(e) => e@ == "Input is not a number"@,
                None => true,
            }),
        forall|s: &str| all_digits(s@) ==> #[trigger] call_requires(r.handler, (s,)),
        forall|s: &str, o: Result<i64, String>| #[trigger]
            call_ensures(r.handler, (s,), o) ==> match (o, parse_i64_spec(s@)) {
                (Ok(a), Ok(b)) => a == b,
                (Err(e), Err(m)) => e@ == m,
                _ => false,
            },
{
    let validator = |v: &str| -> (o: Option<String>)
        ensures
            o is None <==> all_digits(v@),
            match o {
                Some(e) => e@ == "Input is not a number"@,
                None => true,
            },
        { check_digits(v) };
    let handler = |val: &str| -> (o: Result<i64, String>)
        requires
            all_digits(val@),
        ensures
            match (o, parse_i64_spec(val@)) {
                (Ok(a), Ok(b)) => a == b,
                (Err(e), Err(m)) => e@ == m,
                _ => false,
            },
        {
            proof {
                if val@.len() > 0 {
                    assert(spec_is_digit(val@[0]));
                    assert forall|j: int| 0 <= j < val@.skip(1).len() implies spec_is_digit(
                        val@.skip(1)[j],
                    ) by {
                        assert(val@.skip(1)[j] == val@[j + 1]);
                    }
                }
                assert(integer_format_ok(val@));
            }
            parse_i64(val)
        };
    ParsableValueArgument::new(identification, validator, handler)
}

} // verus!
