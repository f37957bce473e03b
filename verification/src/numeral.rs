//! Decimal numerals.

use vstd::prelude::*;

verus! {

/// Whether the character is one of the ten ASCII digits.
pub open spec fn is_digit(c: char) -> bool {
    '0' <= c && c <= '9'
}

/// Whether the text holds digits only.
pub open spec fn all_digits(s: Seq<char>) -> bool {
    forall|i: int| 0 <= i < s.len() ==> is_digit(#[trigger] s[i])
}

/// The number that a text of digits writes; leading zeros do not count.
pub open spec fn digits_value(s: Seq<char>) -> int
    decreases s.len(),
{
    if s.len() == 0 {
        0
    } else {
        digits_value(s.drop_last()) * 10 + (s.last() as int - 0x30)
    }
}

/// The number that the text writes, where the text is one digit or more and the number
/// is at most `limit`.
pub open spec fn numeral(s: Seq<char>, limit: int) -> Option<int> {
    if s.len() > 0 && all_digits(s) && digits_value(s) <= limit {
        Some(digits_value(s))
    } else {
        None
    }
}

/// The number that a numeral with an optional sign writes, where it is within `i64`.
pub open spec fn signed_numeral(s: Seq<char>) -> Option<int> {
    if s.len() > 0 && s[0] == '-' {
        match numeral(s.drop_first(), -(i64::MIN as int)) {
            Some(v) => Some(-v),
            None => None,
        }
    } else if s.len() > 0 && s[0] == '+' {
        numeral(s.drop_first(), i64::MAX as int)
    } else {
        numeral(s, i64::MAX as int)
    }
}

/// A text of digits writes no less than any of its beginnings.
pub proof fn lemma_digits_value_grows(s: Seq<char>, k: int)
    requires
        all_digits(s),
        0 <= k <= s.len(),
    ensures
        0 <= digits_value(s.take(k)) <= digits_value(s),
    decreases s.len() - k,
{
    if k == s.len() {
        assert(s.take(k) =~= s);
        lemma_digits_value_nonnegative(s);
    } else {
        lemma_digits_value_grows(s, k + 1);
        let longer = s.take(k + 1);
        assert(longer.drop_last() =~= s.take(k));
        assert(is_digit(s[k]));
        assert(longer.last() == s[k]);
        lemma_digits_value_nonnegative(s.take(k));
    }
}

/// A text of digits writes no negative number.
pub proof fn lemma_digits_value_nonnegative(s: Seq<char>)
    requires
        all_digits(s),
    ensures
        0 <= digits_value(s),
    decreases s.len(),
{
    if s.len() > 0 {
        assert(is_digit(s[s.len() - 1]));
        assert forall|i: int| 0 <= i < s.drop_last().len() implies is_digit(
            #[trigger] s.drop_last()[i],
        ) by {
            assert(is_digit(s[i]));
        }
        lemma_digits_value_nonnegative(s.drop_last());
    }
}

/// Whether the character is one of the ten ASCII digits.
pub fn is_ascii_digit(c: char) -> (r: bool)
    ensures
        r == is_digit(c),
{
    c >= '0' && c <= '9'
}

/// Reads the characters of `v` from `from` up to `to` as a numeral of at most `limit`.
pub fn parse_numeral(v: &Vec<char>, from: usize, to: usize, limit: u64) -> (r: Option<u64>)
    requires
        from <= to <= v.len(),
    ensures
        match r {
            Some(n) => numeral(v@.subrange(from as int, to as int), limit as int) == Some(
                n as int,
            ),
            None => numeral(v@.subrange(from as int, to as int), limit as int) is None,
        },
{
    let ghost s = v@.subrange(from as int, to as int);
    if from == to {
        return None;
    }
    let mut value: u64 = 0;
    let mut i: usize = from;
    while i < to
        invariant
            from <= i <= to <= v.len(),
            s == v@.subrange(from as int, to as int),
            all_digits(s.take(i - from)),
            value == digits_value(s.take(i - from)),
            value <= limit,
        decreases to - i,
    {
        let c = v[i];
        proof {
            assert(s[i - from] == c);
        }
        if !is_ascii_digit(c) {
            return None;
        }
        let d: u64 = (c as u32 - 0x30) as u64;
        proof {
            let longer = s.take(i - from + 1);
            assert(longer.drop_last() =~= s.take(i - from));
            assert(longer.last() == c);
            assert forall|k: int| 0 <= k < longer.len() implies is_digit(#[trigger] longer[k]) by {
                if k < i - from {
                    assert(is_digit(s.take(i - from)[k]));
                }
            }
            assert(digits_value(longer) == value * 10 + d);
        }
        if d > limit || value > (limit - d) / 10 {
            proof {
                let longer = s.take(i - from + 1);
                assert(digits_value(longer) > limit);
                if all_digits(s) {
                    lemma_digits_value_grows(s, i - from + 1);
                }
            }
            return None;
        }
        value = value * 10 + d;
        i += 1;
    }
    proof {
        assert(s.take(to - from) =~= s);
    }
    Some(value)
}

/// Reads the text as a numeral with an optional sign.
pub fn parse_signed(v: &Vec<char>) -> (r: Option<i64>)
    ensures
        match r {
            Some(n) => signed_numeral(v@) == Some(n as int),
            None => signed_numeral(v@) is None,
        },
{
    let n = v.len();
    if n > 0 && v[0] == '-' {
        proof {
            assert(v@.subrange(1, n as int) =~= v@.drop_first());
        }
        match parse_numeral(v, 1, n, 0x8000_0000_0000_0000u64) {
            Some(m) => if m == 0x8000_0000_0000_0000u64 {
                Some(i64::MIN)
            } else {
                Some(-(m as i64))
            },
            None => None,
        }
    } else if n > 0 && v[0] == '+' {
        proof {
            assert(v@.subrange(1, n as int) =~= v@.drop_first());
        }
        match parse_numeral(v, 1, n, 0x7FFF_FFFF_FFFF_FFFFu64) {
            Some(m) => Some(m as i64),
            None => None,
        }
    } else {
        proof {
            assert(v@.subrange(0, n as int) =~= v@);
        }
        match parse_numeral(v, 0, n, 0x7FFF_FFFF_FFFF_FFFFu64) {
            Some(m) => Some(m as i64),
            None => None,
        }
    }
}

} // verus!
