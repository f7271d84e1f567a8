pub mod argument;
pub mod builder;
pub mod laws;
pub mod cursor;
pub mod numeric;
pub mod text;

use vstd::prelude::*;

use crate::argument::legacy_argument::{add_value_step, ArgView, Argument};
use crate::argument::parsable_argument::{
    integer_step, text_step, HandleableArgument, IntegerHandler, ParsableValueArgument,
    TextHandler, TokenHandler,
};
use crate::argument::IdView;
use crate::cursor::TokenCursor;
use crate::text::alphabetic;

verus! {

/// An exclusive borrow of a caller-owned argument definition, registered for
/// the duration of a parse. The registry dispatches into the borrowed
/// definition; once the registry is gone the owner reads the accumulated
/// values.
pub enum ParsableHandle<'a> {
    Integer(&'a mut ParsableValueArgument<i64, IntegerHandler>),
    Text(&'a mut ParsableValueArgument<String, TextHandler>),
}

/// Mathematical model of a registered definition: its identification and the
/// values accumulated so far.
pub enum ParsableView {
    Integer(IdView, Seq<i64>),
    Text(IdView, Seq<Seq<char>>),
}

impl ParsableView {
    /// The identification of the modelled definition.
    pub open spec fn id(self) -> IdView {
        match self {
            ParsableView::Integer(id, _) => id,
            ParsableView::Text(id, _) => id,
        }
    }
}

/// The token sequence as character sequences.
pub open spec fn tokens_view(input: Seq<String>) -> Seq<Seq<char>> {
    input.map_values(|s: String| s@)
}

/// The current state of the definition behind a registered handle.
pub open spec fn pview<'a>(h: ParsableHandle<'a>) -> ParsableView {
    match h {
        ParsableHandle::Integer(p) => ParsableView::Integer((*p).identification@, (*p).values@),
        ParsableHandle::Text(p) => ParsableView::Text(
            (*p).identification@,
            (*p).values@.map_values(|s: String| s@),
        ),
    }
}

/// Mathematical model of a whole registry.
pub struct ListModel {
    pub dangling: Seq<Seq<char>>,
    pub arguments: Seq<ArgView>,
    pub parsables: Seq<ParsableView>,
}

/// Accumulates argument definitions, then parses a token sequence against
/// them; afterwards it holds the owned results and the dangling values.
pub struct ArgumentList<'a> {
    pub dangling_values: Vec<String>,
    pub arguments: Vec<Argument>,
    pub parsable_arguments: Vec<ParsableHandle<'a>>,
}

impl<'a> ArgumentList<'a> {
    /// The model of the registry's current state.
    pub open spec fn model(&self) -> ListModel {
        ListModel {
            dangling: self.dangling_values@.map_values(|s: String| s@),
            arguments: self.arguments@.map_values(|a: Argument| a@),
            parsables: self.parsable_arguments@.map_values(|h: ParsableHandle<'a>| pview(h)),
        }
    }

    /// The owned argument definitions, with their results.
    pub fn arguments(&self) -> (r: &Vec<Argument>)
        ensures
            r == &self.arguments,
    {
        &self.arguments
    }

    /// Create a registry with no definitions and no dangling values.
    pub fn new() -> (r: ArgumentList<'a>)
        ensures
            r.model() == (ListModel {
                dangling: Seq::<Seq<char>>::empty(),
                arguments: Seq::<ArgView>::empty(),
                parsables: Seq::<ParsableView>::empty(),
            }),
            r.dangling_values@.len() == 0,
            r.arguments@.len() == 0,
            r.parsable_arguments@.len() == 0,
    {
        let r = ArgumentList {
            dangling_values: Vec::new(),
            arguments: Vec::new(),
            parsable_arguments: Vec::new(),
        };
        proof {
            assert(r.model().dangling =~= Seq::<Seq<char>>::empty());
            assert(r.model().arguments =~= Seq::<ArgView>::empty());
            assert(r.model().parsables =~= Seq::<ParsableView>::empty());
        }
        r
    }

    /// Append an owned argument definition to the end of the list.
    pub fn append_arg(&mut self, argument: Argument)
        ensures
            final(self).arguments@ == old(self).arguments@.push(argument),
            final(self).dangling_values == old(self).dangling_values,
            final(self).parsable_arguments@ == old(self).parsable_arguments@,
    {
        self.arguments.push(argument);
    }

    /// Record a token that no definition claimed.
    pub fn append_dangling_value(&mut self, value: &str)
        ensures
            final(self).dangling_values@.map_values(|s: String| s@) == old(
                self,
            ).dangling_values@.map_values(|s: String| s@).push(value@),
            final(self).arguments == old(self).arguments,
            final(self).parsable_arguments@ == old(self).parsable_arguments@,
    {
        let owned = value.to_owned();
        self.dangling_values.push(owned);
        proof {
            assert(self.dangling_values@.map_values(|s: String| s@) =~= old(
                self,
            ).dangling_values@.map_values(|s: String| s@).push(value@));
        }
    }

    /// Register a caller-owned definition, by exclusive borrow, to take part
    /// in parsing.
    pub fn register_parsable(&mut self, arg: ParsableHandle<'a>)
        ensures
            final(self).parsable_arguments@ == old(self).parsable_arguments@.push(arg),
            final(self).dangling_values == old(self).dangling_values,
            final(self).arguments == old(self).arguments,
    {
        self.parsable_arguments.push(arg);
    }

    /// All tokens that matched no definition, in encounter order.
    pub fn get_dangling_values(&self) -> (r: &Vec<String>)
        ensures
            r == &self.dangling_values,
    {
        &self.dangling_values
    }

    /// The position of the owned argument the given short name resolves to,
    /// if any: the first one, in registration order, that answers to it.
    fn find_arg_short(&self, name: char) -> (r: Option<usize>)
        ensures
            match r {
                Some(i) => is_first_arg_short(self.model().arguments, name, i as int),
                None => !has_arg_short(self.model().arguments, name),
            },
    {
        let n = self.arguments.len();
        let mut i: usize = 0;
        while i < n
            invariant
                0 <= i <= n,
                n == self.arguments@.len(),
                forall|j: int|
                    0 <= j < i ==> !self.model().arguments[j].matches_short(name),
            decreases n - i,
        {
            let matched = match self.arguments[i].short() {
                Some(symbol) => *symbol == name,
                None => false,
            };
            if matched {
                return Some(i);
            }
            i = i + 1;
        }
        None
    }

    /// The position of the owned argument the given long name resolves to,
    /// if any: the first one, in registration order, that answers to it.
    fn find_arg_long(&self, name: &str) -> (r: Option<usize>)
        ensures
            match r {
                Some(i) => is_first_arg_long(self.model().arguments, name@, i as int),
                None => !has_arg_long(self.model().arguments, name@),
            },
    {
        let n = self.arguments.len();
        let mut i: usize = 0;
        while i < n
            invariant
                0 <= i <= n,
                n == self.arguments@.len(),
                forall|j: int|
                    0 <= j < i ==> !self.model().arguments[j].matches_long(name@),
            decreases n - i,
        {
            let matched = match self.arguments[i].long() {
                Some(long_name) => *long_name == name.to_owned(),
                None => false,
            };
            if matched {
                return Some(i);
            }
            i = i + 1;
        }
        None
    }

    /// Let the owned argument at position `i` record one occurrence,
    /// consuming a trailing value token from the cursor where its arity
    /// calls for one.
    fn handle_arg_at(&mut self, i: usize, cursor: &mut TokenCursor) -> (r: Result<(), String>)
        requires
            i < old(self).arguments@.len(),
        ensures
            final(self).dangling_values == old(self).dangling_values,
            final(self).parsable_arguments@ == old(self).parsable_arguments@,
            ({
                let (av, consumed, err) = add_value_step(
                    old(self).model().arguments[i as int],
                    old(cursor).peek_spec(),
                );
                &&& final(self).model().arguments == old(self).model().arguments.update(
                    i as int,
                    av,
                )
                &&& *final(cursor) == if consumed {
                    old(cursor).advanced()
                } else {
                    *old(cursor)
                }
                &&& match r {
                    Ok(()) => err is None,
                    Err(e) => err == Some(e@),
                }
            }),
    {
        let a = &mut self.arguments[i];
        let r = a.add_value(cursor);
        proof {
            let (av, consumed, err) = add_value_step(
                old(self).model().arguments[i as int],
                old(cursor).peek_spec(),
            );
            assert forall|k: int|
                0 <= k < old(self).arguments@.len() implies #[trigger] self.model().arguments[k]
                == old(self).model().arguments.update(i as int, av)[k] by {
                if k != i {
                    assert(self.arguments@[k] == old(self).arguments@[k]);
                }
            }
            assert(self.model().arguments =~= old(self).model().arguments.update(i as int, av));
        }
        r
    }

    /// Let the registered definition at position `i` handle one occurrence,
    /// consuming its value token from the cursor.
    fn handle_parsable_at(&mut self, i: usize, cursor: &mut TokenCursor) -> (r: Result<(), String>)
        requires
            i < old(self).parsable_arguments@.len(),
        ensures
            final(self).arguments == old(self).arguments,
            final(self).dangling_values == old(self).dangling_values,
            final(self).parsable_arguments@.len() == old(self).parsable_arguments@.len(),
            forall|k: int|
                0 <= k < old(self).parsable_arguments@.len() && k != i
                    ==> #[trigger] final(self).parsable_arguments@[k] == old(
                    self,
                ).parsable_arguments@[k],
            forall|k: int|
                0 <= k < old(self).parsable_arguments@.len() ==> match (
                    #[trigger] final(self).parsable_arguments@[k],
                    old(self).parsable_arguments@[k],
                ) {
                    (ParsableHandle::Integer(p), ParsableHandle::Integer(q)) => *final(p)
                        == *final(q),
                    (ParsableHandle::Text(p), ParsableHandle::Text(q)) => *final(p) == *final(q),
                    _ => false,
                },
            ({
                let ps = old(self).model().parsables;
                let (pv, consumed, err) = parsable_step(ps[i as int], old(cursor).peek_spec());
                &&& final(self).model().parsables == ps.update(i as int, pv)
                &&& *final(cursor) == if consumed {
                    old(cursor).advanced()
                } else {
                    *old(cursor)
                }
                &&& match r {
                    Ok(()) => err is None,
                    Err(e) => err == Some(e@),
                }
            }),
    {
        let ghost c0 = *cursor;
        let ghost pv0 = old(self).model().parsables[i as int];
        let res = match &mut self.parsable_arguments[i] {
            ParsableHandle::Integer(p) => {
                let ghost h0 = **p;
                proof {
                    assert(pv0 == ParsableView::Integer(h0.identification@, h0.values@));
                }
                let r0 = p.handle(cursor);
                proof {
                    let (pv, consumed, err) = parsable_step(pv0, c0.peek_spec());
                    match r0 {
                        Ok(()) => {
                            let v = choose|v: i64|
                                h0.handler.post(c0, *cursor, Ok(v)) && (**p).values@
                                    == h0.values@.push(v);
                            assert(h0.handler.post(c0, *cursor, Ok(v)));
                            assert(ParsableView::Integer((**p).identification@, (**p).values@)
                                == pv);
                        },
                        Err(ref e) => {
                            assert(h0.handler.post(c0, *cursor, Err(*e)));
                            assert(ParsableView::Integer((**p).identification@, (**p).values@)
                                == pv);
                        },
                    }
                }
                r0
            },
            ParsableHandle::Text(p) => {
                let ghost h0 = **p;
                proof {
                    assert(pv0 == ParsableView::Text(
                        h0.identification@,
                        h0.values@.map_values(|s: String| s@),
                    ));
                }
                let r0 = p.handle(cursor);
                proof {
                    let (pv, consumed, err) = parsable_step(pv0, c0.peek_spec());
                    match r0 {
                        Ok(()) => {
                            let v = choose|v: String|
                                h0.handler.post(c0, *cursor, Ok(v)) && (**p).values@
                                    == h0.values@.push(v);
                            assert(h0.handler.post(c0, *cursor, Ok(v)));
                            assert((**p).values@.map_values(|s: String| s@)
                                =~= h0.values@.map_values(|s: String| s@).push(v@));
                            assert(ParsableView::Text(
                                (**p).identification@,
                                (**p).values@.map_values(|s: String| s@),
                            ) == pv);
                        },
                        Err(ref e) => {
                            assert(h0.handler.post(c0, *cursor, Err(*e)));
                            assert(ParsableView::Text(
                                (**p).identification@,
                                (**p).values@.map_values(|s: String| s@),
                            ) == pv);
                        },
                    }
                }
                r0
            },
        };
        proof {
            let ps = old(self).model().parsables;
            let (pv, consumed, err) = parsable_step(ps[i as int], c0.peek_spec());
            assert(pview(self.parsable_arguments@[i as int]) == pv);
            assert forall|k: int| 0 <= k < ps.len() implies #[trigger] self.model().parsables[k]
                == ps.update(i as int, pv)[k] by {
                if k != i {
                    assert(self.parsable_arguments@[k] == old(self).parsable_arguments@[k]);
                }
            }
            assert(self.model().parsables =~= ps.update(i as int, pv));
        }
        res
    }

    /// Dispatch a short option into the registered definitions: the first
    /// one answering to the name handles it; reports whether any did.
    fn handle_parsable_short_name(&mut self, name: char, cursor: &mut TokenCursor) -> (r: Result<
        bool,
        String,
    >)
        ensures
            final(self).arguments == old(self).arguments,
            final(self).dangling_values == old(self).dangling_values,
            final(self).parsable_arguments@.len() == old(self).parsable_arguments@.len(),
            forall|k: int|
                0 <= k < old(self).parsable_arguments@.len() ==> match (
                    #[trigger] final(self).parsable_arguments@[k],
                    old(self).parsable_arguments@[k],
                ) {
                    (ParsableHandle::Integer(p), ParsableHandle::Integer(q)) => *final(p)
                        == *final(q),
                    (ParsableHandle::Text(p), ParsableHandle::Text(q)) => *final(p) == *final(q),
                    _ => false,
                },
            ({
                let ps = old(self).model().parsables;
                let i = first_parsable_short(ps, name);
                let (pv, consumed, err) = parsable_step(ps[i], old(cursor).peek_spec());
                match r {
                    Ok(b) => if b {
                        &&& has_parsable_short(ps, name)
                        &&& err is None
                        &&& final(self).model().parsables == ps.update(i, pv)
                        &&& *final(cursor) == if consumed {
                            old(cursor).advanced()
                        } else {
                            *old(cursor)
                        }
                    } else {
                        &&& !has_parsable_short(ps, name)
                        &&& final(self).parsable_arguments@ == old(self).parsable_arguments@
                        &&& *final(cursor) == *old(cursor)
                    },
                    Err(e) => {
                        &&& has_parsable_short(ps, name)
                        &&& err == Some(e@)
                        &&& final(self).model().parsables == ps.update(i, pv)
                        &&& *final(cursor) == if consumed {
                            old(cursor).advanced()
                        } else {
                            *old(cursor)
                        }
                    },
                }
            }),
    {
        let ghost ps = self.model().parsables;
        let n = self.parsable_arguments.len();
        let mut i: usize = 0;
        while i < n
            invariant
                0 <= i <= n,
                n == self.parsable_arguments@.len(),
                *self == *old(self),
                *cursor == *old(cursor),
                ps == old(self).model().parsables,
                forall|j: int| 0 <= j < i ==> !ps[j].id().matches_short(name),
            decreases n - i,
        {
            let matched = match &self.parsable_arguments[i] {
                ParsableHandle::Integer(p) => p.is_by_short(name),
                ParsableHandle::Text(p) => p.is_by_short(name),
            };
            if matched {
                proof {
                    assert(ps[i as int].id().matches_short(name));
                    lemma_first_parsable_short_unique(ps, name, i as int);
                }
                let res = self.handle_parsable_at(i, cursor);
                return match res {
                    Ok(()) => Ok(true),
                    Err(e) => Err(e),
                };
            }
            i = i + 1;
        }
        proof {
            assert forall|k: int| is_first_parsable_short(ps, name, k) implies false by {
                assert(ps[k].id().matches_short(name));
            }
        }
        Ok(false)
    }

    /// Dispatch a long option into the registered definitions: the first
    /// one answering to the name handles it; reports whether any did.
    fn handle_parsable_long_name(&mut self, name: &str, cursor: &mut TokenCursor) -> (r: Result<
        bool,
        String,
    >)
        ensures
            final(self).arguments == old(self).arguments,
            final(self).dangling_values == old(self).dangling_values,
            final(self).parsable_arguments@.len() == old(self).parsable_arguments@.len(),
            forall|k: int|
                0 <= k < old(self).parsable_arguments@.len() ==> match (
                    #[trigger] final(self).parsable_arguments@[k],
                    old(self).parsable_arguments@[k],
                ) {
                    (ParsableHandle::Integer(p), ParsableHandle::Integer(q)) => *final(p)
                        == *final(q),
                    (ParsableHandle::Text(p), ParsableHandle::Text(q)) => *final(p) == *final(q),
                    _ => false,
                },
            ({
                let ps = old(self).model().parsables;
                let i = first_parsable_long(ps, name@);
                let (pv, consumed, err) = parsable_step(ps[i], old(cursor).peek_spec());
                match r {
                    Ok(b) => if b {
                        &&& has_parsable_long(ps, name@)
                        &&& err is None
                        &&& final(self).model().parsables == ps.update(i, pv)
                        &&& *final(cursor) == if consumed {
                            old(cursor).advanced()
                        } else {
                            *old(cursor)
                        }
                    } else {
                        &&& !has_parsable_long(ps, name@)
                        &&& final(self).parsable_arguments@ == old(self).parsable_arguments@
                        &&& *final(cursor) == *old(cursor)
                    },
                    Err(e) => {
                        &&& has_parsable_long(ps, name@)
                        &&& err == Some(e@)
                        &&& final(self).model().parsables == ps.update(i, pv)
                        &&& *final(cursor) == if consumed {
                            old(cursor).advanced()
                        } else {
                            *old(cursor)
                        }
                    },
                }
            }),
    {
        let ghost ps = self.model().parsables;
        let n = self.parsable_arguments.len();
        let mut i: usize = 0;
        while i < n
            invariant
                0 <= i <= n,
                n == self.parsable_arguments@.len(),
                *self == *old(self),
                *cursor == *old(cursor),
                ps == old(self).model().parsables,
                forall|j: int| 0 <= j < i ==> !ps[j].id().matches_long(name@),
            decreases n - i,
        {
            let matched = match &self.parsable_arguments[i] {
                ParsableHandle::Integer(p) => p.is_by_long(name),
                ParsableHandle::Text(p) => p.is_by_long(name),
            };
            if matched {
                proof {
                    assert(ps[i as int].id().matches_long(name@));
                    lemma_first_parsable_long_unique(ps, name@, i as int);
                }
                let res = self.handle_parsable_at(i, cursor);
                return match res {
                    Ok(()) => Ok(true),
                    Err(e) => Err(e),
                };
            }
            i = i + 1;
        }
        proof {
            assert forall|k: int| is_first_parsable_long(ps, name@, k) implies false by {
                assert(ps[k].id().matches_long(name@));
            }
        }
        Ok(false)
    }

    /// Parse the given tokens against the accumulated definitions: the whole
    /// dispatch loop of `parse_run`, executed. Owned arguments are filled in
    /// place, registered definitions through their borrowed handles, and
    /// unclaimed tokens are collected as dangling values; the first error
    /// aborts the parse and is returned.
    ///
    /// Whatever was parsed into a registered definition is readable by its
    /// owner once the registry holding the borrow is gone.
    pub fn parse_args(&mut self, input: Vec<String>) -> (r: Result<(), String>)
        ensures
            final(self).parsable_arguments@.len() == old(self).parsable_arguments@.len(),
            forall|k: int|
                0 <= k < old(self).parsable_arguments@.len() ==> match (
                    #[trigger] final(self).parsable_arguments@[k],
                    old(self).parsable_arguments@[k],
                ) {
                    (ParsableHandle::Integer(p), ParsableHandle::Integer(q)) => *final(p)
                        == *final(q),
                    (ParsableHandle::Text(p), ParsableHandle::Text(q)) => *final(p) == *final(q),
                    _ => false,
                },
            ({
                let (m2, res) = parse_run(old(self).model(), tokens_view(input@), 0);
                &&& final(self).model() == m2
                &&& match (r, res) {
                    (Ok(()), Ok(())) => true,
                    (Err(e), Err(m)) => e@ == m,
                    _ => false,
                }
            }),
    {
        let ghost t = tokens_view(input@);
        let ghost m0 = self.model();
        let mut cursor = TokenCursor::new(input);
        while cursor.pos < cursor.tokens.len()
            invariant
                t == tokens_view(input@),
                m0 == old(self).model(),
                tokens_view(cursor.tokens@) == t,
                cursor.pos <= cursor.tokens@.len(),
                self.parsable_arguments@.len() == old(self).parsable_arguments@.len(),
                forall|k: int|
                    0 <= k < old(self).parsable_arguments@.len() ==> match (
                        #[trigger] self.parsable_arguments@[k],
                        old(self).parsable_arguments@[k],
                    ) {
                        (ParsableHandle::Integer(p), ParsableHandle::Integer(q)) => *final(p)
                            == *final(q),
                        (ParsableHandle::Text(p), ParsableHandle::Text(q)) => *final(p)
                            == *final(q),
                        _ => false,
                    },
                parse_run(self.model(), t, cursor.pos as int) == parse_run(m0, t, 0),
            decreases cursor.tokens@.len() - cursor.pos,
        {
            let ghost m_head = self.model();
            let ghost pos_head = cursor.pos as int;
            let word = match cursor.next() {
                Some(w) => w,
                None => vstd::pervasive::unreached(),
            };
            proof {
                assert(t[pos_head] == word@);
            }
            let word_length = word.unicode_len();
            if word_length == 2 {
                let first = word.get_char(0);
                let second = word.get_char(1);
                if first == '-' && crate::text::is_alphabetic_char(second) {
                    proof {
                        assert(classify(word@) == TokenClass::ShortOption(second));
                    }
                    match self.find_arg_short(second) {
                        Some(idx) => {
                            proof {
                                lemma_first_arg_short_unique(m_head.arguments, second, idx as int);
                            }
                            let ghost cursor_mid = cursor;
                            let resa = self.handle_arg_at(idx, &mut cursor);
                            proof {
                                assert(cursor_mid.peek_spec() == next_token(t, pos_head + 1));
                                let (m2, pos2, err) = dispatch_arg(
                                    m_head,
                                    idx as int,
                                    t,
                                    pos_head + 1,
                                );
                                assert(m2 == self.model());
                                match resa {
                                    Ok(()) => {
                                        assert(cursor.pos == pos2);
                                        assert(parse_run(m_head, t, pos_head) == parse_run(
                                            m2,
                                            t,
                                            pos2,
                                        ));
                                    },
                                    Err(ref e) => {
                                        assert(parse_run(m_head, t, pos_head) == (
                                            m2,
                                            Err::<(), Seq<char>>(e@),
                                        ));
                                    },
                                }
                            }
                            match resa {
                                Ok(()) => (),
                                Err(e) => {
                                    return Err(e);
                                },
                            }
                        },
                        None => {
                            let ghost cursor_mid = cursor;
                            let res_p = self.handle_parsable_short_name(second, &mut cursor);
                            proof {
                                let ps = m_head.parsables;
                                let i = first_parsable_short(ps, second);
                                let (m2, pos2, err) = dispatch_parsable(
                                    m_head,
                                    i,
                                    t,
                                    pos_head + 1,
                                );
                                assert(cursor_mid.peek_spec() == next_token(t, pos_head + 1));
                                match res_p {
                                    Ok(b) => if b {
                                        assert(m2 == self.model());
                                        assert(cursor.pos == pos2);
                                        assert(parse_run(m_head, t, pos_head) == parse_run(
                                            m2,
                                            t,
                                            pos2,
                                        ));
                                    } else {
                                        assert(self.model() == m_head);
                                        assert(parse_run(m_head, t, pos_head) == (
                                            m_head,
                                            Err::<(), Seq<char>>(unknown_msg(word@)),
                                        ));
                                    },
                                    Err(ref e) => {
                                        assert(m2 == self.model());
                                        assert(parse_run(m_head, t, pos_head) == (
                                            m2,
                                            Err::<(), Seq<char>>(e@),
                                        ));
                                    },
                                }
                            }
                            let handled = match res_p {
                                Ok(b) => b,
                                Err(e) => {
                                    return Err(e);
                                },
                            };
                            if !handled {
                                let msg = "Could not find argument identified by ".to_owned();
                                let msg = msg.concat(word.as_str());
                                let msg = msg.concat(".");
                                proof {
                                    assert(msg@ == unknown_msg(word@));
                                }
                                return Err(msg);
                            }
                        },
                    }
                } else {
                    self.append_dangling_value(word.as_str());
                    proof {
                        assert(classify(word@) is Positional);
                        assert(self.model() == (ListModel {
                            dangling: m_head.dangling.push(word@),
                            ..m_head
                        }));
                    }
                }
            } else if word_length > 2 {
                let first = word.get_char(0);
                let second = word.get_char(1);
                let third = word.get_char(2);
                if first == '-' && second == '-' && crate::text::is_alphabetic_char(third) {
                    let name = word.substring_char(2, word_length);
                    proof {
                        assert(name@ =~= word@.skip(2));
                        assert(classify(word@) == TokenClass::LongOption(name@));
                    }
                    match self.find_arg_long(name) {
                        Some(idx) => {
                            proof {
                                lemma_first_arg_long_unique(m_head.arguments, name@, idx as int);
                            }
                            let ghost cursor_mid = cursor;
                            let resa = self.handle_arg_at(idx, &mut cursor);
                            proof {
                                assert(cursor_mid.peek_spec() == next_token(t, pos_head + 1));
                                let (m2, pos2, err) = dispatch_arg(
                                    m_head,
                                    idx as int,
                                    t,
                                    pos_head + 1,
                                );
                                assert(m2 == self.model());
                                match resa {
                                    Ok(()) => {
                                        assert(cursor.pos == pos2);
                                        assert(parse_run(m_head, t, pos_head) == parse_run(
                                            m2,
                                            t,
                                            pos2,
                                        ));
                                    },
                                    Err(ref e) => {
                                        assert(parse_run(m_head, t, pos_head) == (
                                            m2,
                                            Err::<(), Seq<char>>(e@),
                                        ));
                                    },
                                }
                            }
                            match resa {
                                Ok(()) => (),
                                Err(e) => {
                                    return Err(e);
                                },
                            }
                        },
                        None => {
                            let ghost cursor_mid = cursor;
                            let res_p = self.handle_parsable_long_name(name, &mut cursor);
                            proof {
                                let ps = m_head.parsables;
                                let i = first_parsable_long(ps, name@);
                                let (m2, pos2, err) = dispatch_parsable(
                                    m_head,
                                    i,
                                    t,
                                    pos_head + 1,
                                );
                                assert(cursor_mid.peek_spec() == next_token(t, pos_head + 1));
                                match res_p {
                                    Ok(b) => if b {
                                        assert(m2 == self.model());
                                        assert(cursor.pos == pos2);
                                        assert(parse_run(m_head, t, pos_head) == parse_run(
                                            m2,
                                            t,
                                            pos2,
                                        ));
                                    } else {
                                        assert(self.model() == m_head);
                                        assert(parse_run(m_head, t, pos_head) == (
                                            m_head,
                                            Err::<(), Seq<char>>(unknown_msg(word@)),
                                        ));
                                    },
                                    Err(ref e) => {
                                        assert(m2 == self.model());
                                        assert(parse_run(m_head, t, pos_head) == (
                                            m2,
                                            Err::<(), Seq<char>>(e@),
                                        ));
                                    },
                                }
                            }
                            let handled = match res_p {
                                Ok(b) => b,
                                Err(e) => {
                                    return Err(e);
                                },
                            };
                            if !handled {
                                let msg = "Could not find argument identified by ".to_owned();
                                let msg = msg.concat(word.as_str());
                                let msg = msg.concat(".");
                                proof {
                                    assert(msg@ == unknown_msg(word@));
                                }
                                return Err(msg);
                            }
                        },
                    }
                } else {
                    self.append_dangling_value(word.as_str());
                    proof {
                        assert(classify(word@) is Positional);
                        assert(self.model() == (ListModel {
                            dangling: m_head.dangling.push(word@),
                            ..m_head
                        }));
                    }
                }
            } else {
                self.append_dangling_value(word.as_str());
                proof {
                    assert(classify(word@) is Positional);
                    assert(self.model() == (ListModel {
                        dangling: m_head.dangling.push(word@),
                        ..m_head
                    }));
                }
            }
        }

        Ok(())
    }

    /// Search the owned arguments by short name: the first one, in
    /// registration order, that answers to it.
    pub fn search_by_short_name(&self, name: char) -> (r: Option<&Argument>)
        ensures
            match r {
                Some(a) => is_first_arg_short(
                    self.model().arguments,
                    name,
                    first_arg_short(self.model().arguments, name),
                ) && a@ == self.model().arguments[first_arg_short(
                    self.model().arguments,
                    name,
                )],
                None => !has_arg_short(self.model().arguments, name),
            },
    {
        match self.find_arg_short(name) {
            Some(i) => {
                proof {
                    lemma_first_arg_short_unique(self.model().arguments, name, i as int);
                }
                Some(&self.arguments[i])
            },
            None => None,
        }
    }

    /// Search the owned arguments by short name, for writing: the first one,
    /// in registration order, that answers to it.
    pub fn search_by_short_name_mut(&mut self, name: char) -> (r: Option<&mut Argument>)
        ensures
            match r {
                Some(a) => {
                    let i = first_arg_short(old(self).model().arguments, name);
                    &&& is_first_arg_short(old(self).model().arguments, name, i)
                    &&& (*a)@ == old(self).model().arguments[i]
                    &&& final(self).arguments@ == old(self).arguments@.update(i, *final(a))
                    &&& final(self).dangling_values == old(self).dangling_values
                    &&& final(self).parsable_arguments@ == old(self).parsable_arguments@
                },
                None => {
                    &&& !has_arg_short(old(self).model().arguments, name)
                    &&& *final(self) == *old(self)
                },
            },
    {
        match self.find_arg_short(name) {
            Some(i) => {
                proof {
                    lemma_first_arg_short_unique(self.model().arguments, name, i as int);
                }
                Some(&mut self.arguments[i])
            },
            None => None,
        }
    }

    /// Search the owned arguments by long name, for writing: the first one,
    /// in registration order, that answers to it.
    pub fn search_by_long_name(&mut self, name: &str) -> (r: Option<&mut Argument>)
        ensures
            match r {
                Some(a) => {
                    let i = first_arg_long(old(self).model().arguments, name@);
                    &&& is_first_arg_long(old(self).model().arguments, name@, i)
                    &&& (*a)@ == old(self).model().arguments[i]
                    &&& final(self).arguments@ == old(self).arguments@.update(i, *final(a))
                    &&& final(self).dangling_values == old(self).dangling_values
                    &&& final(self).parsable_arguments@ == old(self).parsable_arguments@
                },
                None => {
                    &&& !has_arg_long(old(self).model().arguments, name@)
                    &&& *final(self) == *old(self)
                },
            },
    {
        match self.find_arg_long(name) {
            Some(i) => {
                proof {
                    lemma_first_arg_long_unique(self.model().arguments, name@, i as int);
                }
                Some(&mut self.arguments[i])
            },
            None => None,
        }
    }
}

/// `i` is the position the short name resolves to among the owned arguments:
/// the first, in registration order, that answers to it.
pub open spec fn is_first_arg_short(args: Seq<ArgView>, name: char, i: int) -> bool {
    &&& 0 <= i < args.len()
    &&& args[i].matches_short(name)
    &&& forall|j: int| 0 <= j < i ==> !args[j].matches_short(name)
}

/// Some owned argument answers to the short name.
pub open spec fn has_arg_short(args: Seq<ArgView>, name: char) -> bool {
    exists|i: int| is_first_arg_short(args, name, i)
}

/// The position the short name resolves to, when one exists.
pub open spec fn first_arg_short(args: Seq<ArgView>, name: char) -> int {
    choose|i: int| is_first_arg_short(args, name, i)
}

/// `i` is the position the long name resolves to among the owned arguments.
pub open spec fn is_first_arg_long(args: Seq<ArgView>, name: Seq<char>, i: int) -> bool {
    &&& 0 <= i < args.len()
    &&& args[i].matches_long(name)
    &&& forall|j: int| 0 <= j < i ==> !args[j].matches_long(name)
}

/// Some owned argument answers to the long name.
pub open spec fn has_arg_long(args: Seq<ArgView>, name: Seq<char>) -> bool {
    exists|i: int| is_first_arg_long(args, name, i)
}

/// The position the long name resolves to, when one exists.
pub open spec fn first_arg_long(args: Seq<ArgView>, name: Seq<char>) -> int {
    choose|i: int| is_first_arg_long(args, name, i)
}

pub proof fn lemma_first_arg_short_unique(args: Seq<ArgView>, name: char, i: int)
    requires
        is_first_arg_short(args, name, i),
    ensures
        has_arg_short(args, name),
        first_arg_short(args, name) == i,
{
    let c = first_arg_short(args, name);
    assert(is_first_arg_short(args, name, c));
    if c < i {
        assert(args[c].matches_short(name));
    }
    if i < c {
        assert(args[i].matches_short(name));
    }
}

/// `i` is the position the short name resolves to among the registered
/// definitions: the first, in registration order, that answers to it.
pub open spec fn is_first_parsable_short(ps: Seq<ParsableView>, name: char, i: int) -> bool {
    &&& 0 <= i < ps.len()
    &&& ps[i].id().matches_short(name)
    &&& forall|j: int| 0 <= j < i ==> !ps[j].id().matches_short(name)
}

/// Some registered definition answers to the short name.
pub open spec fn has_parsable_short(ps: Seq<ParsableView>, name: char) -> bool {
    exists|i: int| is_first_parsable_short(ps, name, i)
}

/// The position the short name resolves to, when one exists.
pub open spec fn first_parsable_short(ps: Seq<ParsableView>, name: char) -> int {
    choose|i: int| is_first_parsable_short(ps, name, i)
}

/// `i` is the position the long name resolves to among the registered
/// definitions.
pub open spec fn is_first_parsable_long(ps: Seq<ParsableView>, name: Seq<char>, i: int) -> bool {
    &&& 0 <= i < ps.len()
    &&& ps[i].id().matches_long(name)
    &&& forall|j: int| 0 <= j < i ==> !ps[j].id().matches_long(name)
}

/// Some registered definition answers to the long name.
pub open spec fn has_parsable_long(ps: Seq<ParsableView>, name: Seq<char>) -> bool {
    exists|i: int| is_first_parsable_long(ps, name, i)
}

/// The position the long name resolves to, when one exists.
pub open spec fn first_parsable_long(ps: Seq<ParsableView>, name: Seq<char>) -> int {
    choose|i: int| is_first_parsable_long(ps, name, i)
}

proof fn lemma_first_parsable_short_unique(ps: Seq<ParsableView>, name: char, i: int)
    requires
        is_first_parsable_short(ps, name, i),
    ensures
        has_parsable_short(ps, name),
        first_parsable_short(ps, name) == i,
{
    let c = first_parsable_short(ps, name);
    assert(is_first_parsable_short(ps, name, c));
    if c < i {
        assert(ps[c].id().matches_short(name));
    }
    if i < c {
        assert(ps[i].id().matches_short(name));
    }
}

proof fn lemma_first_parsable_long_unique(ps: Seq<ParsableView>, name: Seq<char>, i: int)
    requires
        is_first_parsable_long(ps, name, i),
    ensures
        has_parsable_long(ps, name),
        first_parsable_long(ps, name) == i,
{
    let c = first_parsable_long(ps, name);
    assert(is_first_parsable_long(ps, name, c));
    if c < i {
        assert(ps[c].id().matches_long(name));
    }
    if i < c {
        assert(ps[i].id().matches_long(name));
    }
}

/// How the dispatch loop reads one token.
pub enum TokenClass {
    ShortOption(char),
    LongOption(Seq<char>),
    Positional,
}

/// The token-classification grammar: exactly two characters, a dash then an
/// alphabetic character, name a short option; more than two characters, two
/// dashes then an alphabetic character, name a long option (the name is
/// everything after the dashes); every other token is positional.
pub open spec fn classify(t: Seq<char>) -> TokenClass {
    if t.len() == 2 && t[0] == '-' && alphabetic(t[1]) {
        TokenClass::ShortOption(t[1])
    } else if t.len() > 2 && t[0] == '-' && t[1] == '-' && alphabetic(t[2]) {
        TokenClass::LongOption(t.skip(2))
    } else {
        TokenClass::Positional
    }
}

/// The error reported for a well-formed option token that no definition,
/// owned or registered, answers to.
pub open spec fn unknown_msg(word: Seq<char>) -> Seq<char> {
    "Could not find argument identified by "@ + word + "."@
}

/// The token at the given position, if it exists.
pub open spec fn next_token(tokens: Seq<Seq<char>>, pos: int) -> Option<Seq<char>> {
    if 0 <= pos < tokens.len() {
        Some(tokens[pos])
    } else {
        None
    }
}

/// What one handled occurrence of a registered definition does, given the
/// next token of the stream: the updated definition, whether that token was
/// consumed, and the error if the occurrence is rejected.
pub open spec fn parsable_step(v: ParsableView, next: Option<Seq<char>>) -> (
    ParsableView,
    bool,
    Option<Seq<char>>,
) {
    match v {
        ParsableView::Integer(id, vals) => match integer_step(next) {
            Ok(n) => (ParsableView::Integer(id, vals.push(n)), next is Some, None),
            Err(e) => (ParsableView::Integer(id, vals), next is Some, Some(e)),
        },
        ParsableView::Text(id, vals) => match text_step(next) {
            Ok(t) => (ParsableView::Text(id, vals.push(t)), next is Some, None),
            Err(e) => (ParsableView::Text(id, vals), next is Some, Some(e)),
        },
    }
}

/// Dispatch one occurrence into the owned argument at position `i`; `pos` is
/// the position just after the option token. Yields the new model, the new
/// position, and the error if the occurrence was rejected.
pub open spec fn dispatch_arg(m: ListModel, i: int, tokens: Seq<Seq<char>>, pos: int) -> (
    ListModel,
    int,
    Option<Seq<char>>,
) {
    let (av, consumed, err) = add_value_step(m.arguments[i], next_token(tokens, pos));
    let m2 = ListModel { arguments: m.arguments.update(i, av), ..m };
    let pos2 = if consumed {
        pos + 1
    } else {
        pos
    };
    (m2, pos2, err)
}

/// Dispatch one occurrence into the registered definition at position `i`.
pub open spec fn dispatch_parsable(m: ListModel, i: int, tokens: Seq<Seq<char>>, pos: int) -> (
    ListModel,
    int,
    Option<Seq<char>>,
) {
    let (pv, consumed, err) = parsable_step(m.parsables[i], next_token(tokens, pos));
    let m2 = ListModel { parsables: m.parsables.update(i, pv), ..m };
    let pos2 = if consumed {
        pos + 1
    } else {
        pos
    };
    (m2, pos2, err)
}

/// The whole dispatch loop, one token per step: classify the token at `pos`,
/// resolve an option against the owned arguments first and the registered
/// definitions second, let the match consume its trailing value token, and
/// stop at the first error. Positional tokens are collected as dangling
/// values. This is the reference semantics `parse_args` is proved against.
pub open spec fn parse_run(m: ListModel, tokens: Seq<Seq<char>>, pos: int) -> (
    ListModel,
    Result<(), Seq<char>>,
)
    decreases tokens.len() - pos,
{
    if pos < 0 || pos >= tokens.len() {
        (m, Ok(()))
    } else {
        let word = tokens[pos];
        match classify(word) {
            TokenClass::ShortOption(name) => {
                if has_arg_short(m.arguments, name) {
                    let (m2, pos2, err) = dispatch_arg(
                        m,
                        first_arg_short(m.arguments, name),
                        tokens,
                        pos + 1,
                    );
                    match err {
                        Some(e) => (m2, Err(e)),
                        None => parse_run(m2, tokens, pos2),
                    }
                } else if has_parsable_short(m.parsables, name) {
                    let (m2, pos2, err) = dispatch_parsable(
                        m,
                        first_parsable_short(m.parsables, name),
                        tokens,
                        pos + 1,
                    );
                    match err {
                        Some(e) => (m2, Err(e)),
                        None => parse_run(m2, tokens, pos2),
                    }
                } else {
                    (m, Err(unknown_msg(word)))
                }
            },
            TokenClass::LongOption(name) => {
                if has_arg_long(m.arguments, name) {
                    let (m2, pos2, err) = dispatch_arg(
                        m,
                        first_arg_long(m.arguments, name),
                        tokens,
                        pos + 1,
                    );
                    match err {
                        Some(e) => (m2, Err(e)),
                        None => parse_run(m2, tokens, pos2),
                    }
                } else if has_parsable_long(m.parsables, name) {
                    let (m2, pos2, err) = dispatch_parsable(
                        m,
                        first_parsable_long(m.parsables, name),
                        tokens,
                        pos + 1,
                    );
                    match err {
                        Some(e) => (m2, Err(e)),
                        None => parse_run(m2, tokens, pos2),
                    }
                } else {
                    (m, Err(unknown_msg(word)))
                }
            },
            TokenClass::Positional => parse_run(
                ListModel { dangling: m.dangling.push(word), ..m },
                tokens,
                pos + 1,
            ),
        }
    }
}

pub proof fn lemma_first_arg_long_unique(args: Seq<ArgView>, name: Seq<char>, i: int)
    requires
        is_first_arg_long(args, name, i),
    ensures
        has_arg_long(args, name),
        first_arg_long(args, name) == i,
{
    let c = first_arg_long(args, name);
    assert(is_first_arg_long(args, name, c));
    if c < i {
        assert(args[c].matches_long(name));
    }
    if i < c {
        assert(args[i].matches_long(name));
    }
}

} // verus!
