//! Parsing of the tile-size argument, a string of the shape `"4x4"`.
//!
//! The string is split at its first `'x'`; each side must be a decimal
//! number (an optional leading `'+'` followed by one or more digits) whose
//! value fits in `usize`. Anything else is rejected with the fixed message
//! `Expects inputs like "4x4"`.

use vstd::prelude::*;
use crate::vec2::Vec2;

verus! {

/// Whether `c` is an ASCII decimal digit.
pub open spec fn is_digit(c: char) -> bool {
    48 <= c as u32 && c as u32 <= 57
}

/// The numeric value of a decimal digit.
pub open spec fn digit_val(c: char) -> int {
    c as u32 - 48
}

/// The value of a sequence of decimal digits, most significant first.
pub open spec fn digits_value(s: Seq<char>) -> int
    decreases s.len(),
{
    if s.len() == 0 {
        0
    } else {
        digits_value(s.drop_last()) * 10 + digit_val(s.last())
    }
}

/// Whether every character of `s` is a decimal digit.
pub open spec fn all_digits(s: Seq<char>) -> bool {
    forall|i: int| 0 <= i < s.len() ==> is_digit(#[trigger] s[i])
}

/// The digits of a number once an optional leading `'+'` is removed.
pub open spec fn digits_part(s: Seq<char>) -> Seq<char> {
    if s.len() > 0 && s[0] == '+' {
        s.skip(1)
    } else {
        s
    }
}

/// Whether `s` is a decimal number: an optional `'+'` then one or more digits.
pub open spec fn is_number(s: Seq<char>) -> bool {
    digits_part(s).len() > 0 && all_digits(digits_part(s))
}

/// The value of a decimal number.
pub open spec fn number_value(s: Seq<char>) -> int {
    digits_value(digits_part(s))
}

/// Whether `s` is a number whose value fits in `usize`.
pub open spec fn part_ok(s: Seq<char>) -> bool {
    is_number(s) && number_value(s) <= usize::MAX
}

/// Whether `i` is the index of the first `'x'` in `s`: the split point.
pub open spec fn is_split_index(s: Seq<char>, i: int) -> bool {
    0 <= i < s.len() && s[i] == 'x' && (forall|j: int| 0 <= j < i ==> s[j] != 'x')
}

/// Whether `s` is a well-formed tile-size string: a number, the first `'x'`,
/// and a number, both values fitting in `usize`.
pub open spec fn tile_size_ok(s: Seq<char>) -> bool {
    exists|i: int|
        is_split_index(s, i) && part_ok(#[trigger] s.take(i)) && part_ok(s.skip(i + 1))
}

/// The value of a digit sequence is never negative.
proof fn lemma_digits_value_nonneg(s: Seq<char>)
    requires
        all_digits(s),
    ensures
        digits_value(s) >= 0,
    decreases s.len(),
{
    if s.len() > 0 {
        assert(all_digits(s.drop_last()));
        lemma_digits_value_nonneg(s.drop_last());
    }
}

/// Extending a digit sequence never lowers its value: the value of a prefix
/// is a lower bound for the value of the whole.
proof fn lemma_digits_value_prefix_le(s: Seq<char>, k: int)
    requires
        all_digits(s),
        0 <= k <= s.len(),
    ensures
        digits_value(s.take(k)) <= digits_value(s),
    decreases s.len() - k,
{
    if k == s.len() {
        assert(s.take(k) =~= s);
    } else {
        assert(all_digits(s.drop_last()));
        assert(s.take(k) =~= s.drop_last().take(k));
        lemma_digits_value_prefix_le(s.drop_last(), k);
        lemma_digits_value_nonneg(s.drop_last());
    }
}

/// Parses the characters of `s` from `from` (inclusive) to `to` (exclusive)
/// as a decimal number fitting in `usize`.
fn parse_part(s: &str, from: usize, to: usize) -> (r: Option<usize>)
    requires
        from <= to <= s@.len(),
    ensures
        match r {
            Some(v) => part_ok(s@.subrange(from as int, to as int)) && v == number_value(
                s@.subrange(from as int, to as int),
            ),
            None => !part_ok(s@.subrange(from as int, to as int)),
        },
{
    let ghost sub = s@.subrange(from as int, to as int);
    let mut i = from;
    if i < to && s.get_char(i) == '+' {
        i = i + 1;
    }
    let ghost start = i as int;
    let ghost dp = s@.subrange(start, to as int);
    proof {
        assert(dp =~= digits_part(sub));
    }
    if i == to {
        return None;
    }
    let mut acc: usize = 0;
    while i < to
        invariant
            from <= start <= i <= to <= s@.len(),
            dp == digits_part(sub),
            dp == s@.subrange(start, to as int),
            sub == s@.subrange(from as int, to as int),
            all_digits(dp.take(i - start)),
            acc == digits_value(dp.take(i - start)),
        decreases to - i,
    {
        let c = s.get_char(i);
        let d = c as u32;
        proof {
            assert(dp[i - start] == c);
        }
        if d < 48 || d > 57 {
            proof {
                assert(!is_digit(dp[i - start]));
                assert(!all_digits(dp));
            }
            return None;
        }
        let dv = (d - 48) as usize;
        let ghost pref = dp.take(i - start);
        proof {
            assert(dp.take(i - start + 1).drop_last() =~= pref);
            assert(dp.take(i - start + 1).last() == c);
        }
        let next = match acc.checked_mul(10) {
            Some(t) => t.checked_add(dv),
            None => None,
        };
        match next {
            Some(v) => {
                acc = v;
            },
            None => {
                proof {
                    assert(digits_value(dp.take(i - start + 1)) == acc * 10 + digit_val(c));
                    assert(digits_value(dp.take(i - start + 1)) > usize::MAX);
                    if all_digits(dp) {
                        lemma_digits_value_prefix_le(dp, i - start + 1);
                        assert(number_value(sub) > usize::MAX);
                    }
                }
                return None;
            },
        }
        i = i + 1;
    }
    proof {
        assert(dp.take(to - start) =~= dp);
    }
    Some(acc)
}

/// Parses a tile-size string such as `"4x4"` into a pair.
///
/// The result is `Ok` exactly when the string is a number, its first `'x'`,
/// and a number, both values fitting in `usize`; the pair then carries those
/// two values. Any other string yields the fixed error message.
pub fn parse_vec2(s: &str) -> (r: Result<Vec2<usize>, String>)
    ensures
        match r {
            Ok(v) => tile_size_ok(s@) && (forall|i: int|
                is_split_index(s@, i) ==> v.x == number_value(#[trigger] s@.take(i)) && v.y
                    == number_value(s@.skip(i + 1))),
            Err(e) => !tile_size_ok(s@) && e@ == "Expects inputs like \"4x4\""@,
        },
{
    let n = s.unicode_len();
    let mut i: usize = 0;
    let mut found = false;
    while i < n && !found
        invariant
            0 <= i <= n == s@.len(),
            forall|j: int| 0 <= j < i ==> s@[j] != 'x',
            found ==> i < n && s@[i as int] == 'x',
        decreases n - i, (if found { 0int } else { 1int }),
    {
        if s.get_char(i) == 'x' {
            found = true;
        } else {
            i = i + 1;
        }
    }
    if !found {
        proof {
            assert(forall|k: int| !is_split_index(s@, k));
        }
        return Err("Expects inputs like \"4x4\"".to_owned());
    }
    proof {
        assert(is_split_index(s@, i as int));
        assert(forall|k: int| is_split_index(s@, k) ==> k == i as int) by {
            assert forall|k: int| is_split_index(s@, k) implies k == i as int by {
                if k < i {
                    assert(s@[k] == 'x');
                } else if k > i {
                    assert(s@[i as int] != 'x');
                }
            }
        }
    }
    let a = parse_part(s, 0, i);
    let b = parse_part(s, i + 1, n);
    proof {
        assert(s@.subrange(0, i as int) =~= s@.take(i as int));
        assert(s@.subrange(i + 1, n as int) =~= s@.skip(i + 1));
    }
    match (a, b) {
        (Some(x), Some(y)) => Ok(Vec2::new(x, y)),
        _ => Err("Expects inputs like \"4x4\"".to_owned()),
    }
}

} // verus!
