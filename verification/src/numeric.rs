use vstd::prelude::*;

use crate::text::{all_digits, spec_is_digit};

verus! {

/// Numeric value of one decimal digit.
pub open spec fn digit_val(c: char) -> int {
    (c as u32) as int - 48
}

/// Numeric value of a digit sequence, most significant first.
pub open spec fn digits_val(s: Seq<char>) -> int
    decreases s.len(),
{
    if s.len() == 0 {
        0
    } else {
        digits_val(s.drop_last()) * 10 + digit_val(s.last())
    }
}

/// The shape the integer validator accepts: empty, or an optional leading
/// minus that must be followed by at least one character, with every
/// remaining character a decimal digit.
pub open spec fn integer_format_ok(s: Seq<char>) -> bool {
    ||| s.len() == 0
    ||| (s[0] == '-' && s.len() >= 2 && all_digits(s.skip(1)))
    ||| (spec_is_digit(s[0]) && all_digits(s.skip(1)))
}

/// What parsing a validated token to an i64 yields: the signed numeric value
/// when it fits, and the reason it cannot be parsed otherwise.
pub open spec fn parse_i64_spec(s: Seq<char>) -> Result<i64, Seq<char>> {
    if s.len() == 0 {
        Err("cannot parse integer from empty string"@)
    } else {
        let negative = s[0] == '-';
        let digits = if negative {
            s.skip(1)
        } else {
            s
        };
        if digits.len() == 0 {
            Err("invalid digit found in string"@)
        } else {
            let value = digits_val(digits);
            if negative {
                if -value >= i64::MIN {
                    Ok((-value) as i64)
                } else {
                    Err("number too small to fit in target type"@)
                }
            } else {
                if value <= i64::MAX {
                    Ok(value as i64)
                } else {
                    Err("number too large to fit in target type"@)
                }
            }
        }
    }
}

proof fn lemma_digits_val_nonneg(s: Seq<char>)
    requires
        all_digits(s),
    ensures
        digits_val(s) >= 0,
    decreases s.len(),
{
    if s.len() > 0 {
        assert(all_digits(s.drop_last()));
        lemma_digits_val_nonneg(s.drop_last());
        assert(spec_is_digit(s.last()));
    }
}

proof fn lemma_digits_val_mono(s: Seq<char>, i: int, j: int)
    requires
        all_digits(s),
        0 <= i <= j <= s.len(),
    ensures
        digits_val(s.subrange(0, i)) <= digits_val(s.subrange(0, j)),
    decreases j - i,
{
    if i < j {
        lemma_digits_val_mono(s, i, j - 1);
        let sj = s.subrange(0, j);
        assert(sj.drop_last() =~= s.subrange(0, j - 1));
        assert(all_digits(s.subrange(0, j - 1)));
        lemma_digits_val_nonneg(s.subrange(0, j - 1));
        assert(spec_is_digit(sj.last()));
    }
}

/// Parse a token that passed the integer validator: an optional leading
/// minus, then decimal digits. Yields exactly `parse_i64_spec` of the token.
pub fn parse_i64(s: &str) -> (r: Result<i64, String>)
    requires
        integer_format_ok(s@),
    ensures
        match (r, parse_i64_spec(s@)) {
            (Ok(a), Ok(b)) => a == b,
            (Err(e), Err(m)) => e@ == m,
            _ => false,
        },
{
    let n = s.unicode_len();
    if n == 0 {
        return Err("cannot parse integer from empty string".to_owned());
    }
    let negative = s.get_char(0) == '-';
    let start: usize = if negative {
        1
    } else {
        0
    };
    let ghost digs = s@.skip(start as int);
    proof {
        if negative {
            assert(digs =~= s@.skip(1));
        } else {
            assert(digs =~= s@);
            assert(spec_is_digit(s@[0]));
            assert forall|k: int| 0 <= k < digs.len() implies spec_is_digit(digs[k]) by {
                if k > 0 {
                    assert(digs[k] == s@.skip(1)[k - 1]);
                }
            }
        }
        assert(all_digits(digs));
    }

    let limit: u128 = if negative {
        9223372036854775808
    } else {
        9223372036854775807
    };

    let mut acc: u128 = 0;
    let mut i: usize = start;
    while i < n
        invariant
            start <= i <= n,
            n == s@.len(),
            n > 0,
            negative == (s@[0] == '-'),
            start == if negative {
                1int
            } else {
                0int
            },
            digs == s@.skip(start as int),
            all_digits(digs),
            limit == if negative {
                9223372036854775808u128
            } else {
                9223372036854775807u128
            },
            acc == digits_val(digs.subrange(0, i - start)),
            acc <= limit,
        decreases n - i,
    {
        let c = s.get_char(i);
        proof {
            assert(s@[i as int] == digs[i - start]);
            assert(spec_is_digit(c));
        }
        let d: u128 = (c as u32 - 48) as u128;
        acc = acc * 10 + d;
        proof {
            let k = i - start;
            assert(d as int == digit_val(digs[k]));
            assert(digs.subrange(0, k + 1).drop_last() =~= digs.subrange(0, k));
            assert(digs.subrange(0, k + 1).last() == digs[k]);
            assert(acc == digits_val(digs.subrange(0, k + 1)));
        }
        if acc > limit {
            proof {
                lemma_digits_val_mono(digs, i - start + 1, digs.len() as int);
                assert(digs.subrange(0, digs.len() as int) =~= digs);
                assert(digits_val(digs) >= acc);
                assert(digs =~= if negative {
                    s@.skip(1)
                } else {
                    s@
                });
            }
            if negative {
                return Err("number too small to fit in target type".to_owned());
            } else {
                return Err("number too large to fit in target type".to_owned());
            }
        }
        i = i + 1;
    }
    proof {
        assert(digs.subrange(0, digs.len() as int) =~= digs);
    }

    if negative {
        let v: i128 = -(acc as i128);
        Ok(v as i64)
    } else {
        Ok(acc as i64)
    }
}

} // verus!
