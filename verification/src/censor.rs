//! Name censoring for player-visible mode: every word of a hidden name is
//! replaced by a nonsense word of random lowercase letters and nearly the
//! same length, so the table keeps its shape without giving the name away.

use vstd::prelude::*;
use vstd::string::{StrSliceExecFns, StringExecFns};

use crate::dice::{is_space, is_space_exec, lemma_ltrim_chars, ltrim};
use crate::rng::random_below;
use crate::utils::push_char;

verus! {

/// First whitespace index in `s`, or the length when there is none.
pub open spec fn find_space(s: Seq<char>) -> int
    decreases s.len(),
{
    if s.len() == 0 {
        0
    } else if is_space(s[0]) {
        0
    } else {
        1 + find_space(s.skip(1))
    }
}

proof fn lemma_find_space_props(s: Seq<char>)
    ensures
        0 <= find_space(s) <= s.len(),
        forall|j: int| 0 <= j < find_space(s) ==> !is_space(#[trigger] s[j]),
        find_space(s) < s.len() ==> is_space(s[find_space(s)]),
    decreases s.len(),
{
    if s.len() == 0 {
    } else if is_space(s[0]) {
    } else {
        lemma_find_space_props(s.skip(1));
        assert forall|j: int| 0 <= j < find_space(s) implies !is_space(#[trigger] s[j]) by {
            if j > 0 {
                assert(s.skip(1)[j - 1] == s[j]);
            }
        }
        if find_space(s) < s.len() {
            assert(s.skip(1)[find_space(s.skip(1))] == s[find_space(s)]);
        }
    }
}

proof fn lemma_find_space_unique(s: Seq<char>, p: int)
    requires
        0 <= p <= s.len(),
        forall|j: int| 0 <= j < p ==> !is_space(#[trigger] s[j]),
        p < s.len() ==> is_space(s[p]),
    ensures
        p == find_space(s),
{
    lemma_find_space_props(s);
    let f = find_space(s);
    if p < f {
        assert(!is_space(s[p]));
    } else if f < p {
        assert(!is_space(s[f]));
    }
}

proof fn lemma_ltrim_len(s: Seq<char>)
    ensures
        ltrim(s).len() <= s.len(),
    decreases s.len(),
{
    if s.len() > 0 && is_space(s[0]) {
        lemma_ltrim_len(s.skip(1));
    }
}

/// The words of `s`: the pieces between the maximal whitespace runs, the
/// empty edge pieces of leading or trailing whitespace included.
pub open spec fn split_words(s: Seq<char>) -> Seq<Seq<char>>
    decreases s.len(),
    via split_words_decreases
{
    let wi = find_space(s);
    if wi == s.len() {
        seq![s]
    } else {
        seq![s.take(wi)] + split_words(ltrim(s.skip(wi + 1)))
    }
}

#[via_fn]
proof fn split_words_decreases(s: Seq<char>) {
    lemma_find_space_props(s);
    if find_space(s) < s.len() {
        lemma_ltrim_len(s.skip(find_space(s) + 1));
    }
}

/// Nothing but lowercase letters.
pub open spec fn all_lower(w: Seq<char>) -> bool {
    forall|i: int| 0 <= i < w.len() ==> 'a' <= #[trigger] w[i] <= 'z'
}

/// The words joined back together with single spaces.
pub open spec fn joined_words(ws: Seq<Seq<char>>) -> Seq<char>
    decreases ws.len(),
{
    if ws.len() == 0 {
        Seq::empty()
    } else if ws.len() == 1 {
        ws[0]
    } else {
        ws[0] + seq![' '] + joined_words(ws.skip(1))
    }
}

/// What a censored name looks like: one nonsense word per original word,
/// each of the original's length or one longer, all lowercase letters,
/// joined with single spaces.
pub open spec fn censored_shape(orig: Seq<Seq<char>>, ws: Seq<Seq<char>>, out: Seq<char>) -> bool {
    &&& ws.len() == orig.len()
    &&& forall|i: int|
        0 <= i < ws.len() ==> ((#[trigger] ws[i]).len() == orig[i].len() || ws[i].len() == orig[
            i
        ].len() + 1)
    &&& forall|i: int| 0 <= i < ws.len() ==> all_lower(#[trigger] ws[i])
    &&& out == joined_words(ws)
}

/// A nonsense word of random lowercase letters, as long as the original
/// word or one letter longer.
fn censored_word(len: usize) -> (w: String)
    requires
        len < usize::MAX,
    ensures
        w@.len() == len || w@.len() == len + 1,
        all_lower(w@),
{
    let extra = random_below(2);
    let target: usize = if extra == 1 {
        len
    } else {
        len + 1
    };
    let mut out = String::new();
    let mut i: usize = 0;
    while i < target
        invariant
            0 <= i <= target,
            out@.len() == i,
            all_lower(out@),
        decreases target - i,
    {
        let k = random_below(26);
        let c = (97 + k as u8) as char;
        proof {
            assert('a' <= c && c <= 'z');
        }
        push_char(&mut out, c);
        i += 1;
    }
    out
}

/// Replaces every word of `name` with a nonsense word of random lowercase
/// letters and nearly the same length, keeping the word layout.
pub fn censor_name(name: &str) -> (r: String)
    requires
        name@.len() < usize::MAX,
    ensures
        exists|ws: Seq<Seq<char>>| censored_shape(split_words(name@), ws, r@),
    decreases name@.len(),
{
    let ghost orig = split_words(name@);
    let len = name.unicode_len();
    let mut wi: usize = 0;
    while wi < len && !is_space_exec(name.get_char(wi))
        invariant
            0 <= wi <= len,
            len == name@.len(),
            forall|j: int| 0 <= j < wi ==> !is_space(#[trigger] name@[j]),
        decreases len - wi,
    {
        wi += 1;
    }
    proof {
        lemma_find_space_unique(name@, wi as int);
    }
    let word = censored_word(wi);
    if wi == len {
        proof {
            let ws = seq![word@];
            assert(orig =~= seq![name@]);
            assert(ws[0] == word@);
            assert(joined_words(ws) == word@);
            assert(censored_shape(orig, ws, word@));
        }
        word
    } else {
        let mut j: usize = wi + 1;
        while j < len && is_space_exec(name.get_char(j))
            invariant
                wi + 1 <= j <= len,
                len == name@.len(),
                forall|k: int| wi + 1 <= k < j ==> is_space(#[trigger] name@[k]),
            decreases len - j,
        {
            j += 1;
        }
        let rest = name.substring_char(j, len);
        proof {
            assert(rest@ =~= name@.skip(j as int));
            let tail = name@.skip(wi as int + 1);
            assert(forall|k: int|
                0 <= k < j - wi - 1 ==> tail[k] == name@[wi + 1 + k] && is_space(
                    #[trigger] tail[k],
                ));
            if (j as int) - (wi as int) - 1 < tail.len() {
                assert(tail[j - wi - 1] == name@[j as int]);
            }
            lemma_ltrim_chars(tail, j as int - wi as int - 1);
            assert(tail.skip(j as int - wi as int - 1) =~= name@.skip(j as int));
            assert(orig == seq![name@.take(wi as int)] + split_words(rest@));
        }
        let rest_censored = censor_name(rest);
        let mut out = word;
        push_char(&mut out, ' ');
        out.append(rest_censored.as_str());
        proof {
            let tail_orig = split_words(rest@);
            let tail_ws = choose|ws: Seq<Seq<char>>| censored_shape(tail_orig, ws, rest_censored@);
            let ws = seq![word@] + tail_ws;
            assert forall|i: int|
                0 <= i < ws.len() implies ((#[trigger] ws[i]).len() == orig[i].len() || ws[i].len()
                == orig[i].len() + 1) && all_lower(ws[i]) by {
                if i == 0 {
                    assert(ws[0] == word@);
                    assert(orig[0] == name@.take(wi as int));
                } else {
                    assert(ws[i] == tail_ws[i - 1]);
                    assert(orig[i] == tail_orig[i - 1]);
                }
            }
            assert(ws.len() >= 2);
            assert(ws[0] == word@);
            assert(ws.skip(1) =~= tail_ws);
            assert(out@ == word@ + seq![' '] + rest_censored@);
            assert(joined_words(ws) == ws[0] + seq![' '] + joined_words(ws.skip(1)));
            assert(censored_shape(orig, ws, out@));
        }
        out
    }
}

} // verus!
