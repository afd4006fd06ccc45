//! Parsing of the decimal numbers that the input fields accept: a run of
//! digits with an optional leading sign, valued in the usual base-ten way.

use vstd::prelude::*;
use vstd::string::StrSliceExecFns;

verus! {

pub open spec fn is_digit(c: char) -> bool {
    '0' <= c && c <= '9'
}

pub open spec fn digit_value(c: char) -> int {
    c as int - '0' as int
}

pub open spec fn all_digits(s: Seq<char>) -> bool {
    forall|i: int| 0 <= i < s.len() ==> is_digit(#[trigger] s[i])
}

/// The base-ten value of a digit string.
pub open spec fn dec_value(s: Seq<char>) -> int
    decreases s.len(),
{
    if s.len() == 0 {
        0
    } else {
        dec_value(s.drop_last()) * 10 + digit_value(s.last())
    }
}

/// A number may be written with one leading `+`, which changes nothing.
pub open spec fn strip_plus(s: Seq<char>) -> Seq<char> {
    if s.len() > 0 && s[0] == '+' {
        s.skip(1)
    } else {
        s
    }
}

/// What parsing an unsigned number means: an optional `+`, then at least one
/// digit, valued in base ten, fitting the type.
pub open spec fn parse_u32_spec(s: Seq<char>) -> Option<u32> {
    let t = strip_plus(s);
    if t.len() > 0 && all_digits(t) && dec_value(t) <= u32::MAX {
        Some(dec_value(t) as u32)
    } else {
        None
    }
}

/// What parsing a signed number means: an optional sign, then at least one
/// digit, the magnitude fitting the type.
pub open spec fn parse_i32_spec(s: Seq<char>) -> Option<i32> {
    if s.len() > 0 && s[0] == '-' {
        let t = s.skip(1);
        if t.len() > 0 && all_digits(t) && dec_value(t) <= 0x8000_0000 {
            Some((-dec_value(t)) as i32)
        } else {
            None
        }
    } else {
        let t = strip_plus(s);
        if t.len() > 0 && all_digits(t) && dec_value(t) <= i32::MAX {
            Some(dec_value(t) as i32)
        } else {
            None
        }
    }
}

pub proof fn lemma_dec_value_nonneg(s: Seq<char>)
    requires
        all_digits(s),
    ensures
        dec_value(s) >= 0,
    decreases s.len(),
{
    if s.len() > 0 {
        assert(all_digits(s.drop_last())) by {
            assert(forall|i: int|
                0 <= i < s.drop_last().len() ==> s.drop_last()[i] == s[i]);
        }
        lemma_dec_value_nonneg(s.drop_last());
    }
}

/// Reading one more digit multiplies the prefix value by ten and adds it.
pub proof fn lemma_dec_value_step(s: Seq<char>, k: int)
    requires
        0 <= k < s.len(),
    ensures
        dec_value(s.take(k + 1)) == dec_value(s.take(k)) * 10 + digit_value(s[k]),
{
    assert(s.take(k + 1).drop_last() =~= s.take(k));
    assert(s.take(k + 1).last() == s[k]);
}

/// A digit string is worth at least any of its prefixes.
pub proof fn lemma_dec_value_prefix_le(s: Seq<char>, k: int)
    requires
        all_digits(s),
        0 <= k <= s.len(),
    ensures
        dec_value(s.take(k)) <= dec_value(s),
    decreases s.len() - k,
{
    if k == s.len() {
        assert(s.take(k) =~= s);
    } else {
        lemma_dec_value_step(s, k);
        assert(all_digits(s.take(k))) by {
            assert(forall|i: int| 0 <= i < k ==> s.take(k)[i] == s[i]);
        }
        lemma_dec_value_nonneg(s.take(k));
        lemma_dec_value_prefix_le(s, k + 1);
    }
}

/// Reads the digit run `s[start..]`, accepting values up to `limit`.
fn parse_digits(s: &str, start: usize, limit: u32) -> (r: Option<u32>)
    requires
        start <= s@.len(),
    ensures
        ({
            let t = s@.skip(start as int);
            match r {
                Some(v) => t.len() > 0 && all_digits(t) && dec_value(t) == v && v <= limit,
                None => !(t.len() > 0 && all_digits(t) && dec_value(t) <= limit),
            }
        }),
{
    let ghost t = s@.skip(start as int);
    let len = s.unicode_len();
    if start == len {
        return None;
    }
    let mut i = start;
    let mut acc: u32 = 0;
    while i < len
        invariant
            start <= i <= len,
            len == s@.len(),
            t == s@.skip(start as int),
            t.len() == len - start,
            all_digits(t.take(i - start)),
            acc == dec_value(t.take(i - start)),
            acc <= limit,
        decreases len - i,
    {
        let c = s.get_char(i);
        proof {
            assert(t[i - start] == s@[i as int]);
        }
        if c < '0' || c > '9' {
            proof {
                assert(!is_digit(t[i - start]));
            }
            return None;
        }
        let d: u32 = (c as u32) - 48;
        proof {
            assert(d == digit_value(t[i - start]));
        }
        let next: u64 = acc as u64 * 10 + d as u64;
        proof {
            lemma_dec_value_step(t, i - start);
        }
        if next > limit as u64 {
            proof {
                if all_digits(t) && dec_value(t) <= limit {
                    lemma_dec_value_prefix_le(t, i - start + 1);
                }
            }
            return None;
        }
        acc = next as u32;
        i += 1;
        proof {
            assert(all_digits(t.take(i - start))) by {
                assert(forall|j: int|
                    0 <= j < i - start ==> t.take((i - start) as int)[j] == t[j]);
            }
        }
    }
    proof {
        assert(t.take((i - start) as int) =~= t);
    }
    Some(acc)
}

/// Parses an unsigned decimal number, an optional leading `+` allowed.
pub fn parse_u32(s: &str) -> (r: Option<u32>)
    ensures
        r == parse_u32_spec(s@),
{
    let len = s.unicode_len();
    let start: usize = if len > 0 && s.get_char(0) == '+' {
        1
    } else {
        0
    };
    proof {
        assert(strip_plus(s@) == s@.skip(start as int));
    }
    parse_digits(s, start, u32::MAX)
}

/// Parses a signed decimal number, an optional leading `+` or `-` allowed.
pub fn parse_i32(s: &str) -> (r: Option<i32>)
    ensures
        r == parse_i32_spec(s@),
{
    let len = s.unicode_len();
    if len > 0 && s.get_char(0) == '-' {
        match parse_digits(s, 1, 0x8000_0000) {
            None => None,
            Some(mag) => {
                if mag == 0x8000_0000 {
                    Some(i32::MIN)
                } else {
                    Some(-(mag as i32))
                }
            }
        }
    } else {
        let start: usize = if len > 0 && s.get_char(0) == '+' {
            1
        } else {
            0
        };
        proof {
            assert(strip_plus(s@) == s@.skip(start as int));
        }
        match parse_digits(s, start, i32::MAX as u32) {
            None => None,
            Some(mag) => Some(mag as i32),
        }
    }
}

} // verus!
