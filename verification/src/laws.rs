use vstd::prelude::*;

use crate::argument::legacy_argument::{add_value_step, ArgType, ArgView, ResultView};
use crate::classify;
use crate::dispatch_arg;
use crate::has_arg_long;
use crate::has_arg_short;
use crate::has_parsable_long;
use crate::has_parsable_short;
use crate::is_first_arg_long;
use crate::is_first_arg_short;
use crate::parse_run;
use crate::text::alphabetic;
use crate::unknown_msg;
use crate::ListModel;
use crate::TokenClass;

verus! {

/// A Flag argument set once more after it has been set is rejected with the
/// arity-violation error, whatever token follows; the argument is unchanged.
pub proof fn lemma_flag_arity_violation(a: ArgView, next: Option<Seq<char>>)
    requires
        a.arg_type == ArgType::Flag,
        a.result is Some,
    ensures
        add_value_step(a, next) == (a, false, Some("Flag already set"@)),
{
}

/// A Value argument set once more after it has been assigned is rejected
/// with the arity-violation error, whatever token follows; the argument is
/// unchanged and the following token is not consumed.
pub proof fn lemma_value_arity_violation(a: ArgView, next: Option<Seq<char>>)
    requires
        a.arg_type == ArgType::Value,
        a.result is Some,
    ensures
        add_value_step(a, next) == (a, false, Some("Value already assigned"@)),
{
}

/// The result of applying one occurrence per supplied value to an argument,
/// in order, stopping at the first rejection.
pub open spec fn add_values_in_turn(a: ArgView, vals: Seq<Seq<char>>) -> (ArgView, Option<
    Seq<char>,
>)
    decreases vals.len(),
{
    if vals.len() == 0 {
        (a, None)
    } else {
        let (a1, consumed, err) = add_value_step(a, Some(vals[0]));
        match err {
            Some(e) => (a1, Some(e)),
            None => add_values_in_turn(a1, vals.skip(1)),
        }
    }
}

/// A ValueList argument never rejects repetition: occurrences with values
/// supplied accumulate exactly those values, appended in supply order to
/// whatever the argument already held.
pub proof fn lemma_value_list_accumulates(a: ArgView, vals: Seq<Seq<char>>)
    requires
        a.arg_type == ArgType::ValueList,
        a.result is None || a.result matches Some(ResultView::ValueList(_)),
    ensures
        ({
            let base = match a.result {
                Some(ResultView::ValueList(l)) => l,
                _ => Seq::<Seq<char>>::empty(),
            };
            let (a2, err) = add_values_in_turn(a, vals);
            &&& err is None
            &&& vals.len() > 0 ==> a2 == (ArgView {
                result: Some(ResultView::ValueList(base + vals)),
                ..a
            })
            &&& vals.len() == 0 ==> a2 == a
        }),
    decreases vals.len(),
{
    let base = match a.result {
        Some(ResultView::ValueList(l)) => l,
        _ => Seq::<Seq<char>>::empty(),
    };
    if vals.len() > 0 {
        let (a1, consumed, err) = add_value_step(a, Some(vals[0]));
        assert(err is None);
        assert(a1 == (ArgView { result: Some(ResultView::ValueList(base.push(vals[0]))), ..a }));
        lemma_value_list_accumulates(a1, vals.skip(1));
        let (a2, err2) = add_values_in_turn(a1, vals.skip(1));
        if vals.len() == 1 {
            assert(base + vals =~= base.push(vals[0]));
        } else {
            assert(base.push(vals[0]) + vals.skip(1) =~= base + vals);
        }
    }
}

/// A well-formed option token that no definition, owned or registered,
/// answers to aborts the parse at once with the unknown-option error: no
/// later token is processed and the state stays as it stood.
pub proof fn lemma_unknown_option_halts(m: ListModel, tokens: Seq<Seq<char>>, pos: int)
    requires
        0 <= pos < tokens.len(),
        match classify(tokens[pos]) {
            TokenClass::ShortOption(c) => !has_arg_short(m.arguments, c) && !has_parsable_short(
                m.parsables,
                c,
            ),
            TokenClass::LongOption(nm) => !has_arg_long(m.arguments, nm) && !has_parsable_long(
                m.parsables,
                nm,
            ),
            TokenClass::Positional => false,
        },
    ensures
        parse_run(m, tokens, pos) == (m, Err::<(), Seq<char>>(unknown_msg(tokens[pos]))),
{
}

/// A token the option grammar does not claim is appended verbatim to the
/// dangling values, in encounter order, and parsing continues with the next
/// token.
pub proof fn lemma_positional_collected(m: ListModel, tokens: Seq<Seq<char>>, pos: int)
    requires
        0 <= pos < tokens.len(),
        classify(tokens[pos]) is Positional,
    ensures
        parse_run(m, tokens, pos) == parse_run(
            ListModel { dangling: m.dangling.push(tokens[pos]), ..m },
            tokens,
            pos + 1,
        ),
{
}

/// A token of at most two characters is an option exactly when it is a dash
/// followed by an alphabetic character; every other such token — among them
/// a lone dash, two dashes, a dash before a digit, and any token without a
/// leading dash — is positional.
pub proof fn lemma_short_token_classification(t: Seq<char>)
    requires
        t.len() <= 2,
    ensures
        classify(t) is Positional <==> !(t.len() == 2 && t[0] == '-' && alphabetic(t[1])),
{
}

/// The tokens named by the grammar's edge cases are positional: a dash
/// before a digit, a bare double dash, and a plain word.
pub proof fn lemma_dangling_shapes()
    ensures
        classify("-1"@) is Positional,
        classify("--"@) is Positional,
        classify("x"@) is Positional,
{
    reveal_strlit("-1");
    reveal_strlit("--");
    reveal_strlit("x");
    assert(!alphabetic('1'));
    assert(!alphabetic('-'));
    assert("x"@.len() == 1);
}

/// Parsing tokens that alternate one known ValueList option with a value for
/// it succeeds, whatever the values, and binds exactly those values to that
/// argument, in supply order; nothing else changes.
pub proof fn lemma_repeated_option_round_trip(
    m: ListModel,
    tokens: Seq<Seq<char>>,
    pos: int,
    opt: Seq<char>,
    c: char,
    i: int,
    vals: Seq<Seq<char>>,
)
    requires
        0 <= pos <= tokens.len(),
        tokens.skip(pos) == interleave(opt, vals),
        classify(opt) == TokenClass::ShortOption(c),
        is_first_arg_short(m.arguments, c, i),
        m.arguments[i].arg_type == ArgType::ValueList,
        m.arguments[i].result is None || m.arguments[i].result matches Some(
            ResultView::ValueList(_),
        ),
    ensures
        ({
            let base = match m.arguments[i].result {
                Some(ResultView::ValueList(l)) => l,
                _ => Seq::<Seq<char>>::empty(),
            };
            let (m2, res) = parse_run(m, tokens, pos);
            &&& res is Ok
            &&& vals.len() > 0 ==> m2.arguments == m.arguments.update(
                i,
                ArgView {
                    result: Some(ResultView::ValueList(base + vals)),
                    ..m.arguments[i]
                },
            )
            &&& vals.len() == 0 ==> m2 == m
            &&& m2.dangling == m.dangling
            &&& m2.parsables == m.parsables
        }),
    decreases vals.len(),
{
    let base = match m.arguments[i].result {
        Some(ResultView::ValueList(l)) => l,
        _ => Seq::<Seq<char>>::empty(),
    };
    if vals.len() == 0 {
        assert(tokens.skip(pos).len() == 0);
        assert(pos == tokens.len());
    } else {
        assert(tokens.skip(pos).len() == 2 + interleave(opt, vals.skip(1)).len());
        assert(tokens[pos] == tokens.skip(pos)[0]);
        assert(tokens[pos] == opt);
        assert(tokens[pos + 1] == tokens.skip(pos)[1]);
        assert(tokens[pos + 1] == vals[0]);
        crate::lemma_first_arg_short_unique(m.arguments, c, i);
        let (m2, pos2, err) = dispatch_arg(m, i, tokens, pos + 1);
        assert(err is None);
        assert(pos2 == pos + 2);
        let a1 = ArgView {
            result: Some(ResultView::ValueList(base.push(vals[0]))),
            ..m.arguments[i]
        };
        assert(m2.arguments == m.arguments.update(i, a1));
        assert(is_first_arg_short(m2.arguments, c, i)) by {
            assert(m2.arguments[i].matches_short(c));
            assert forall|j: int| 0 <= j < i implies !m2.arguments[j].matches_short(c) by {
                assert(m2.arguments[j] == m.arguments[j]);
            }
        }
        assert(tokens.skip(pos + 2) =~= interleave(opt, vals.skip(1))) by {
            assert forall|k: int| 0 <= k < tokens.skip(pos + 2).len() implies tokens.skip(pos + 2)[k]
                == interleave(opt, vals.skip(1))[k] by {
                assert(tokens.skip(pos + 2)[k] == tokens.skip(pos)[k + 2]);
                assert(tokens.skip(pos)[k + 2] == interleave(opt, vals)[k + 2]);
            }
        }
        lemma_repeated_option_round_trip(m2, tokens, pos + 2, opt, c, i, vals.skip(1));
        let (m3, res3) = parse_run(m2, tokens, pos + 2);
        assert(parse_run(m, tokens, pos) == (m3, res3));
        assert(base.push(vals[0]) + vals.skip(1) =~= base + vals);
        if vals.skip(1).len() == 0 {
            assert(m3 == m2);
            assert(base + vals =~= base.push(vals[0]));
        } else {
            assert(m3.arguments == m2.arguments.update(
                i,
                ArgView {
                    result: Some(ResultView::ValueList(base.push(vals[0]) + vals.skip(1))),
                    ..a1
                },
            ));
        }
        assert(m3.arguments =~= m.arguments.update(
            i,
            ArgView { result: Some(ResultView::ValueList(base + vals)), ..m.arguments[i] },
        ));
    }
}

/// Parsing tokens that alternate one known long ValueList option with a
/// value for it succeeds, whatever the values, and binds exactly those
/// values to that argument, in supply order; nothing else changes.
pub proof fn lemma_repeated_long_option_round_trip(
    m: ListModel,
    tokens: Seq<Seq<char>>,
    pos: int,
    opt: Seq<char>,
    name: Seq<char>,
    i: int,
    vals: Seq<Seq<char>>,
)
    requires
        0 <= pos <= tokens.len(),
        tokens.skip(pos) == interleave(opt, vals),
        classify(opt) == TokenClass::LongOption(name),
        is_first_arg_long(m.arguments, name, i),
        m.arguments[i].arg_type == ArgType::ValueList,
        m.arguments[i].result is None || m.arguments[i].result matches Some(
            ResultView::ValueList(_),
        ),
    ensures
        ({
            let base = match m.arguments[i].result {
                Some(ResultView::ValueList(l)) => l,
                _ => Seq::<Seq<char>>::empty(),
            };
            let (m2, res) = parse_run(m, tokens, pos);
            &&& res is Ok
            &&& vals.len() > 0 ==> m2.arguments == m.arguments.update(
                i,
                ArgView {
                    result: Some(ResultView::ValueList(base + vals)),
                    ..m.arguments[i]
                },
            )
            &&& vals.len() == 0 ==> m2 == m
            &&& m2.dangling == m.dangling
            &&& m2.parsables == m.parsables
        }),
    decreases vals.len(),
{
    let base = match m.arguments[i].result {
        Some(ResultView::ValueList(l)) => l,
        _ => Seq::<Seq<char>>::empty(),
    };
    if vals.len() == 0 {
        assert(tokens.skip(pos).len() == 0);
        assert(pos == tokens.len());
    } else {
        assert(tokens.skip(pos).len() == 2 + interleave(opt, vals.skip(1)).len());
        assert(tokens[pos] == tokens.skip(pos)[0]);
        assert(tokens[pos] == opt);
        assert(tokens[pos + 1] == tokens.skip(pos)[1]);
        assert(tokens[pos + 1] == vals[0]);
        crate::lemma_first_arg_long_unique(m.arguments, name, i);
        let (m2, pos2, err) = dispatch_arg(m, i, tokens, pos + 1);
        assert(err is None);
        assert(pos2 == pos + 2);
        let a1 = ArgView {
            result: Some(ResultView::ValueList(base.push(vals[0]))),
            ..m.arguments[i]
        };
        assert(m2.arguments == m.arguments.update(i, a1));
        assert(is_first_arg_long(m2.arguments, name, i)) by {
            assert(m2.arguments[i].matches_long(name));
            assert forall|j: int| 0 <= j < i implies !m2.arguments[j].matches_long(name) by {
                assert(m2.arguments[j] == m.arguments[j]);
            }
        }
        assert(tokens.skip(pos + 2) =~= interleave(opt, vals.skip(1))) by {
            assert forall|k: int| 0 <= k < tokens.skip(pos + 2).len() implies tokens.skip(pos + 2)[k]
                == interleave(opt, vals.skip(1))[k] by {
                assert(tokens.skip(pos + 2)[k] == tokens.skip(pos)[k + 2]);
                assert(tokens.skip(pos)[k + 2] == interleave(opt, vals)[k + 2]);
            }
        }
        lemma_repeated_long_option_round_trip(m2, tokens, pos + 2, opt, name, i, vals.skip(1));
        let (m3, res3) = parse_run(m2, tokens, pos + 2);
        assert(parse_run(m, tokens, pos) == (m3, res3));
        assert(base.push(vals[0]) + vals.skip(1) =~= base + vals);
        if vals.skip(1).len() == 0 {
            assert(m3 == m2);
            assert(base + vals =~= base.push(vals[0]));
        } else {
            assert(m3.arguments == m2.arguments.update(
                i,
                ArgView {
                    result: Some(ResultView::ValueList(base.push(vals[0]) + vals.skip(1))),
                    ..a1
                },
            ));
        }
        assert(m3.arguments =~= m.arguments.update(
            i,
            ArgView { result: Some(ResultView::ValueList(base + vals)), ..m.arguments[i] },
        ));
    }
}

/// The token stream that repeats one option token, each occurrence followed
/// by one value token.
pub open spec fn interleave(opt: Seq<char>, vals: Seq<Seq<char>>) -> Seq<Seq<char>>
    decreases vals.len(),
{
    if vals.len() == 0 {
        Seq::empty()
    } else {
        seq![opt, vals[0]] + interleave(opt, vals.skip(1))
    }
}

} // verus!
