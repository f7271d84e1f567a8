use vstd::prelude::*;

use crate::argument::{ArgumentIdentification, IdView};
use crate::cursor::TokenCursor;
use crate::numeric::{integer_format_ok, parse_i64, parse_i64_spec};
use crate::text::all_digits;

verus! {

/// A handler decides how many tokens one occurrence of an argument consumes
/// from the cursor and how the consumed text becomes a typed value. The two
/// provided handlers consume exactly one token; a caller may supply another
/// type with its own contract.
pub trait TokenHandler<V>: Sized {
    /// What the handler asks of the cursor it is run on.
    spec fn pre(&self, cursor: TokenCursor) -> bool;

    /// How the produced value and the cursor movement relate to the cursor
    /// the handler was run on.
    spec fn post(&self, pre_cursor: TokenCursor, post_cursor: TokenCursor, r: Result<
        V,
        String,
    >) -> bool;

    /// Consume whatever tokens this occurrence needs and yield the value.
    fn run(&self, cursor: &mut TokenCursor) -> (r: Result<V, String>)
        requires
            self.pre(*old(cursor)),
        ensures
            self.post(*old(cursor), *final(cursor), r),
    ;
}

/// What the integer handler yields from the next token of the stream.
pub open spec fn integer_step(next: Option<Seq<char>>) -> Result<i64, Seq<char>> {
    match next {
        None => Err("No remaining input values."@),
        Some(t) => if !integer_format_ok(t) {
            Err("Input is not a number"@)
        } else {
            parse_i64_spec(t)
        },
    }
}

/// What the string handler yields from the next token of the stream.
pub open spec fn text_step(next: Option<Seq<char>>) -> Result<Seq<char>, Seq<char>> {
    match next {
        None => Err("No remaining input values."@),
        Some(t) => Ok(t),
    }
}

/// The default integer handler: consumes one token, accepts only an optional
/// leading minus followed by decimal digits, and parses it as a signed
/// 64-bit integer.
pub struct IntegerHandler;

/// The default string handler: consumes one token unconditionally.
pub struct TextHandler;

impl TokenHandler<i64> for IntegerHandler {
    open spec fn pre(&self, cursor: TokenCursor) -> bool {
        true
    }

    open spec fn post(&self, pre_cursor: TokenCursor, post_cursor: TokenCursor, r: Result<
        i64,
        String,
    >) -> bool {
        &&& post_cursor == pre_cursor.advanced()
        &&& match (r, integer_step(pre_cursor.peek_spec())) {
            (Ok(a), Ok(b)) => a == b,
            (Err(e), Err(m)) => e@ == m,
            _ => false,
        }
    }

    fn run(&self, cursor: &mut TokenCursor) -> (r: Result<i64, String>) {
        match cursor.next() {
            Some(v) => {
                match validate_integer(v.as_str()) {
                    Some(err) => Err(err),
                    None => parse_i64(v.as_str()),
                }
            },
            None => Err("No remaining input values.".to_owned()),
        }
    }
}

impl TokenHandler<String> for TextHandler {
    open spec fn pre(&self, cursor: TokenCursor) -> bool {
        true
    }

    open spec fn post(&self, pre_cursor: TokenCursor, post_cursor: TokenCursor, r: Result<
        String,
        String,
    >) -> bool {
        &&& post_cursor == pre_cursor.advanced()
        &&& match (r, text_step(pre_cursor.peek_spec())) {
            (Ok(a), Ok(b)) => a@ == b,
            (Err(e), Err(m)) => e@ == m,
            _ => false,
        }
    }

    fn run(&self, cursor: &mut TokenCursor) -> (r: Result<String, String>) {
        match cursor.next() {
            Some(v) => Ok(v),
            None => Err("No remaining input values.".to_owned()),
        }
    }
}

/// An argument definition whose occurrences are handled by a typed handler:
/// an identification, the handler, and the sequence of values accumulated
/// across occurrences. Repetition never fails here; every occurrence appends.
///
/// The registry never owns such a definition: it is registered by exclusive
/// borrow, and its accumulated values are read by the owner once the registry
/// holding the borrow is gone.
#[verifier::reject_recursive_types(V)]
pub struct ParsableValueArgument<V, H: TokenHandler<V>> {
    pub identification: ArgumentIdentification,
    pub handler: H,
    pub values: Vec<V>,
}

/// Unifies how argument definitions take part in the dispatch loop: matching
/// by short or long name, and consuming from the shared cursor.
pub trait HandleableArgument: Sized {
    /// The identification this argument answers to.
    spec fn id(&self) -> IdView;

    /// What this argument asks of the cursor it is handled on.
    spec fn handle_req(&self, cursor: TokenCursor) -> bool;

    /// How one handled occurrence changes the argument and the cursor.
    spec fn handle_post(
        old_self: Self,
        new_self: Self,
        pre_cursor: TokenCursor,
        post_cursor: TokenCursor,
        r: Result<(), String>,
    ) -> bool;

    /// Handle one occurrence: take whatever value tokens it needs from the
    /// cursor and record the result.
    fn handle(&mut self, cursor: &mut TokenCursor) -> (r: Result<(), String>)
        requires
            old(self).handle_req(*old(cursor)),
        ensures
            Self::handle_post(*old(self), *final(self), *old(cursor), *final(cursor), r),
            final(self).id() == old(self).id(),
    ;

    /// Whether this argument answers to the given short name.
    fn is_by_short(&self, name: char) -> (r: bool)
        ensures
            r == self.id().matches_short(name),
    ;

    /// Whether this argument answers to the given long name.
    fn is_by_long(&self, name: &str) -> (r: bool)
        ensures
            r == self.id().matches_long(name@),
    ;

    /// This argument's identification.
    fn identification(&self) -> (r: &ArgumentIdentification)
        ensures
            r@ == self.id(),
    ;
}

impl<V, H: TokenHandler<V>> ParsableValueArgument<V, H> {
    /// Create a definition from an identification and the handler that will
    /// take its trailing tokens.
    pub fn new(identification: ArgumentIdentification, handler: H) -> (r: ParsableValueArgument<
        V,
        H,
    >)
        ensures
            r.identification@ == identification@,
            r.handler == handler,
            r.values@.len() == 0,
    {
        ParsableValueArgument { identification, handler, values: Vec::new() }
    }

    /// The first accumulated value, if any occurrence has been handled.
    pub fn first_value(&self) -> (r: Option<&V>)
        ensures
            match r {
                Some(v) => self.values@.len() > 0 && *v == self.values@[0],
                None => self.values@.len() == 0,
            },
    {
        if self.values.len() > 0 {
            Some(&self.values[0])
        } else {
            None
        }
    }

    /// All accumulated values, in the order they were supplied.
    pub fn values(&self) -> (r: &Vec<V>)
        ensures
            r == &self.values,
    {
        &self.values
    }
}

impl ParsableValueArgument<i64, IntegerHandler> {
    /// A definition with the default integer handler.
    pub fn new_integer(identification: ArgumentIdentification) -> (r: ParsableValueArgument<
        i64,
        IntegerHandler,
    >)
        ensures
            r.identification@ == identification@,
            r.values@.len() == 0,
    {
        ParsableValueArgument::new(identification, IntegerHandler)
    }
}

impl ParsableValueArgument<String, TextHandler> {
    /// A definition with the default string handler.
    pub fn new_string(identification: ArgumentIdentification) -> (r: ParsableValueArgument<
        String,
        TextHandler,
    >)
        ensures
            r.identification@ == identification@,
            r.values@.len() == 0,
    {
        ParsableValueArgument::new(identification, TextHandler)
    }
}

impl<V, H: TokenHandler<V>> HandleableArgument for ParsableValueArgument<V, H> {
    open spec fn id(&self) -> IdView {
        self.identification@
    }

    open spec fn handle_req(&self, cursor: TokenCursor) -> bool {
        self.handler.pre(cursor)
    }

    open spec fn handle_post(
        old_self: Self,
        new_self: Self,
        pre_cursor: TokenCursor,
        post_cursor: TokenCursor,
        r: Result<(), String>,
    ) -> bool {
        &&& new_self.identification@ == old_self.identification@
        &&& new_self.handler == old_self.handler
        &&& match r {
            Ok(()) => exists|v: V|
                old_self.handler.post(pre_cursor, post_cursor, Ok(v)) && new_self.values@
                    == old_self.values@.push(v),
            Err(e) => old_self.handler.post(pre_cursor, post_cursor, Err(e))
                && new_self.values@ == old_self.values@,
        }
    }

    fn handle(&mut self, cursor: &mut TokenCursor) -> (r: Result<(), String>) {
        match self.handler.run(cursor) {
            Ok(v) => {
                let ghost gv = v;
                self.values.push(v);
                proof {
                    assert(self.values@ == old(self).values@.push(gv));
                }
                Ok(())
            },
            Err(e) => Err(e),
        }
    }

    fn is_by_short(&self, name: char) -> (r: bool) {
        self.identification.is_by_short(name)
    }

    fn is_by_long(&self, name: &str) -> (r: bool) {
        self.identification.is_by_long(name)
    }

    fn identification(&self) -> (r: &ArgumentIdentification) {
        &self.identification
    }
}

/// Check that a token has the shape the integer handler accepts: an optional
/// leading minus that must be followed by something, then decimal digits.
pub fn validate_integer(v: &str) -> (r: Option<String>)
    ensures
        match r {
            None => integer_format_ok(v@),
            Some(e) => !integer_format_ok(v@) && e@ == "Input is not a number"@,
        },
{
    let n = v.unicode_len();
    if n == 0 {
        return None;
    }
    let first = v.get_char(0);
    let minus_ok = first == '-' && n >= 2;
    if !minus_ok && !crate::text::is_digit_char(first) {
        return Some("Input is not a number".to_owned());
    }
    let mut i: usize = 1;
    while i < n
        invariant
            1 <= i <= n,
            n == v@.len(),
            forall|j: int| 1 <= j < i ==> crate::text::spec_is_digit(v@[j]),
        decreases n - i,
    {
        if !crate::text::is_digit_char(v.get_char(i)) {
            proof {
                assert(v@.skip(1)[i - 1] == v@[i as int]);
                assert(!all_digits(v@.skip(1)));
            }
            return Some("Input is not a number".to_owned());
        }
        i = i + 1;
    }
    proof {
        assert forall|j: int| 0 <= j < v@.skip(1).len() implies crate::text::spec_is_digit(
            v@.skip(1)[j],
        ) by {
            assert(v@.skip(1)[j] == v@[j + 1]);
        }
        assert(all_digits(v@.skip(1)));
    }
    None
}

} // verus!
