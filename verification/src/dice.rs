//! The hit-point and initiative expression language. A hit-point entry is a
//! `+`-separated sum of parts, each part a plain number `N` or a dice roll
//! `NdM`; a part whose die size is still being typed (`Nd`) parses to a
//! distinct in-progress state rather than an error, so the input layer can
//! tell "invalid" from "not finished typing". An initiative entry is either
//! a plain number or a `+`/`-` modifier applied to a fresh twenty-sided
//! roll. Resolving a roll draws fresh randomness on purpose: resolving the
//! same expression twice need not agree, but always lands inside the
//! expression's range.

use vstd::prelude::*;
use vstd::string::StrSliceExecFns;

use crate::numbers::{parse_i32, parse_i32_spec, parse_u32, parse_u32_spec};
use crate::rng::roll_die;

verus! {

/// One summand of a hit-point expression.
#[derive(Debug, Clone, Copy, PartialEq, Eq, Structural)]
pub enum HpPart {
    /// A plain number.
    Number(u32),
    /// `n` dice of `d` sides each.
    Roll { n: u32, d: u32 },
    /// `Nd` typed so far: the die size has not been entered yet.
    RollInProgress { n: u32 },
}

/// First index of `c` in `s`, or the length when `c` does not occur.
pub open spec fn find_char(s: Seq<char>, c: char) -> int
    decreases s.len(),
{
    if s.len() == 0 {
        0
    } else if s[0] == c {
        0
    } else {
        1 + find_char(s.skip(1), c)
    }
}

pub proof fn lemma_find_char_props(s: Seq<char>, c: char)
    ensures
        0 <= find_char(s, c) <= s.len(),
        forall|j: int| 0 <= j < find_char(s, c) ==> s[j] != c,
        find_char(s, c) < s.len() ==> s[find_char(s, c)] == c,
    decreases s.len(),
{
    if s.len() == 0 {
    } else if s[0] == c {
    } else {
        lemma_find_char_props(s.skip(1), c);
        assert forall|j: int| 0 <= j < find_char(s, c) implies s[j] != c by {
            if j > 0 {
                assert(s.skip(1)[j - 1] == s[j]);
            }
        }
        if find_char(s, c) < s.len() {
            assert(s.skip(1)[find_char(s.skip(1), c)] == s[find_char(s, c)]);
        }
    }
}

proof fn lemma_find_char_unique(s: Seq<char>, c: char, p: int)
    requires
        0 <= p <= s.len(),
        forall|j: int| 0 <= j < p ==> s[j] != c,
        p < s.len() ==> s[p] == c,
    ensures
        p == find_char(s, c),
{
    lemma_find_char_props(s, c);
    let f = find_char(s, c);
    if p < f {
        assert(s[p] != c);
    } else if f < p {
        assert(s[f] != c);
    }
}

/// Index of the first `c` in `s`, or the length when absent.
fn find_char_exec(s: &str, c: char) -> (r: usize)
    ensures
        r as int == find_char(s@, c),
{
    let len = s.unicode_len();
    let mut i: usize = 0;
    while i < len
        invariant
            0 <= i <= len,
            len == s@.len(),
            forall|j: int| 0 <= j < i ==> s@[j] != c,
        decreases len - i,
    {
        if s.get_char(i) == c {
            proof {
                lemma_find_char_unique(s@, c, i as int);
            }
            return i;
        }
        i += 1;
    }
    proof {
        lemma_find_char_unique(s@, c, len as int);
    }
    len
}

/// What parsing one hit-point part means. The empty entry counts as zero;
/// otherwise the text is split at the first `d`: no `d` is a plain number,
/// a trailing `d` is a roll in progress, anything after it is the die size;
/// a second `d` or an unparsable number is an error.
pub open spec fn hp_part_spec(s: Seq<char>) -> Result<HpPart, ()> {
    if s.len() == 0 {
        Ok(HpPart::Number(0))
    } else {
        let di = find_char(s, 'd');
        if di == s.len() {
            match parse_u32_spec(s) {
                Some(n) => Ok(HpPart::Number(n)),
                None => Err(()),
            }
        } else {
            let head = s.take(di);
            let tail = s.skip(di + 1);
            match parse_u32_spec(head) {
                None => Err(()),
                Some(n) => {
                    if find_char(tail, 'd') != tail.len() {
                        Err(())
                    } else if tail.len() == 0 {
                        Ok(HpPart::RollInProgress { n })
                    } else {
                        match parse_u32_spec(tail) {
                            Some(d) => Ok(HpPart::Roll { n, d }),
                            None => Err(()),
                        }
                    }
                }
            }
        }
    }
}

/// The least value a part can resolve to.
pub open spec fn part_min(p: HpPart) -> int {
    match p {
        HpPart::Number(k) => k as int,
        HpPart::Roll { n, d } => n as int,
        HpPart::RollInProgress { .. } => 0,
    }
}

/// The greatest value a part can resolve to.
pub open spec fn part_max(p: HpPart) -> int {
    match p {
        HpPart::Number(k) => k as int,
        HpPart::Roll { n, d } => n as int * d as int,
        HpPart::RollInProgress { .. } => 0,
    }
}

/// Whether the part is finished (not still being typed).
pub open spec fn part_complete(p: HpPart) -> bool {
    !(p is RollInProgress)
}

/// Whether the part can be rolled without asking for a die of no sides.
pub open spec fn part_rollable(p: HpPart) -> bool {
    match p {
        HpPart::Roll { n, d } => d >= 1 || n == 0,
        _ => true,
    }
}

impl HpPart {
    /// Parses one hit-point part.
    pub fn from_str(s: &str) -> (r: Result<HpPart, ()>)
        ensures
            r == hp_part_spec(s@),
    {
        let len = s.unicode_len();
        if len == 0 {
            return Ok(HpPart::Number(0));
        }
        let di = find_char_exec(s, 'd');
        if di == len {
            match parse_u32(s) {
                Some(n) => Ok(HpPart::Number(n)),
                None => Err(()),
            }
        } else {
            proof {
                lemma_find_char_props(s@, 'd');
            }
            let head = s.substring_char(0, di);
            let tail = s.substring_char(di + 1, len);
            proof {
                assert(head@ =~= s@.take(di as int));
                assert(tail@ =~= s@.skip(di as int + 1));
            }
            match parse_u32(head) {
                None => Err(()),
                Some(n) => {
                    let dd = find_char_exec(tail, 'd');
                    let tail_len = len - (di + 1);
                    if dd != tail_len {
                        Err(())
                    } else if tail_len == 0 {
                        Ok(HpPart::RollInProgress { n })
                    } else {
                        match parse_u32(tail) {
                            Some(d) => Ok(HpPart::Roll { n, d }),
                            None => Err(()),
                        }
                    }
                }
            }
        }
    }

    /// Resolves the part to a number, drawing one fresh roll per die. An
    /// in-progress part has no value yet.
    pub fn into_number(self) -> (r: Option<u32>)
        requires
            part_rollable(self),
            part_max(self) <= u32::MAX,
        ensures
            (r is Some) == part_complete(self),
            r matches Some(v) ==> part_min(self) <= v <= part_max(self),
    {
        match self {
            HpPart::Number(k) => Some(k),
            HpPart::Roll { n, d } => {
                let mut sum: u32 = 0;
                let mut i: u32 = 0;
                while i < n
                    invariant
                        0 <= i <= n,
                        d >= 1 || n == 0,
                        i as int <= sum as int,
                        sum as int <= i as int * d as int,
                        n as int * d as int <= u32::MAX,
                    decreases n - i,
                {
                    let roll = roll_die(d);
                    proof {
                        assert((i as int + 1) * d as int == i as int * d as int + d as int)
                            by (nonlinear_arith);
                        assert((i as int + 1) * d as int <= n as int * d as int)
                            by (nonlinear_arith)
                            requires
                                i as int + 1 <= n as int,
                                d as int >= 0,
                        ;
                    }
                    sum = sum + roll;
                    i = i + 1;
                }
                Some(sum)
            }
            HpPart::RollInProgress { .. } => None,
        }
    }
}

/// The whitespace that may surround a `+` between parts.
pub open spec fn is_space(c: char) -> bool {
    c == ' ' || c == '\t' || c == '\n' || c == '\r' || c == '\u{b}' || c == '\u{c}'
}

/// `s` without its leading whitespace.
pub open spec fn ltrim(s: Seq<char>) -> Seq<char>
    decreases s.len(),
{
    if s.len() > 0 && is_space(s[0]) {
        ltrim(s.skip(1))
    } else {
        s
    }
}

/// `s` without its trailing whitespace.
pub open spec fn rtrim(s: Seq<char>) -> Seq<char>
    decreases s.len(),
{
    if s.len() > 0 && is_space(s.last()) {
        rtrim(s.drop_last())
    } else {
        s
    }
}

pub(crate) proof fn lemma_ltrim_chars(s: Seq<char>, k: int)
    requires
        0 <= k <= s.len(),
        forall|j: int| 0 <= j < k ==> is_space(#[trigger] s[j]),
        k < s.len() ==> !is_space(s[k]),
    ensures
        ltrim(s) == s.skip(k),
    decreases k,
{
    if k == 0 {
        assert(s.skip(0) =~= s);
    } else {
        lemma_ltrim_chars(s.skip(1), k - 1);
        assert(forall|j: int| 0 <= j < k - 1 ==> s.skip(1)[j] == s[j + 1]);
        if k - 1 < s.skip(1).len() {
            assert(s.skip(1)[k - 1] == s[k]);
        }
        assert(s.skip(1).skip(k - 1) =~= s.skip(k));
    }
}

proof fn lemma_rtrim_chars(s: Seq<char>, k: int)
    requires
        0 <= k <= s.len(),
        forall|j: int| k <= j < s.len() ==> is_space(#[trigger] s[j]),
        k > 0 ==> !is_space(s[k - 1]),
    ensures
        rtrim(s) == s.take(k),
    decreases s.len(),
{
    if k == s.len() {
        assert(s.take(k) =~= s);
    } else {
        assert(is_space(s.last()));
        lemma_rtrim_chars(s.drop_last(), k);
        assert(forall|j: int| 0 <= j < s.len() - 1 ==> s.drop_last()[j] == s[j]);
        assert(s.drop_last().take(k) =~= s.take(k));
    }
}

/// The pieces of a hit-point entry: the text split at every `+`, with the
/// whitespace around each `+` discarded. `after_plus` says whether the text
/// follows a `+` already, so that its leading whitespace goes too.
pub open spec fn plus_pieces(s: Seq<char>, after_plus: bool) -> Seq<Seq<char>>
    decreases s.len(),
    via plus_pieces_decreases
{
    let pi = find_char(s, '+');
    let head = if after_plus {
        ltrim(s.take(pi))
    } else {
        s.take(pi)
    };
    if pi == s.len() {
        seq![head]
    } else {
        seq![rtrim(head)] + plus_pieces(s.skip(pi + 1), true)
    }
}

#[via_fn]
proof fn plus_pieces_decreases(s: Seq<char>, after_plus: bool) {
    lemma_find_char_props(s, '+');
}

/// The pieces of a whole hit-point entry.
pub open spec fn hp_pieces(s: Seq<char>) -> Seq<Seq<char>> {
    plus_pieces(s, false)
}

/// Parses every piece of the remainder `s`; `after_plus` as in
/// `plus_pieces`.
fn parse_pieces(s: &str, after_plus: bool) -> (r: Result<Vec<HpPart>, ()>)
    ensures
        ({
            let ps = plus_pieces(s@, after_plus);
            match r {
                Ok(v) => {
                    &&& v@.len() == ps.len()
                    &&& forall|i: int|
                        0 <= i < ps.len() ==> hp_part_spec(#[trigger] ps[i]) == Ok::<
                            HpPart,
                            (),
                        >(v@[i])
                },
                Err(()) => exists|i: int|
                    0 <= i < ps.len() && hp_part_spec(#[trigger] ps[i]) is Err,
            }
        }),
    decreases s@.len(),
{
    let ghost ps = plus_pieces(s@, after_plus);
    let len = s.unicode_len();
    let pi = find_char_exec(s, '+');
    proof {
        lemma_find_char_props(s@, '+');
    }
    let mut a: usize = 0;
    if after_plus {
        while a < pi && is_space_exec(s.get_char(a))
            invariant
                0 <= a <= pi,
                pi as int == find_char(s@, '+'),
                pi <= len,
                len == s@.len(),
                forall|j: int| 0 <= j < a ==> is_space(#[trigger] s@[j]),
            decreases pi - a,
        {
            a += 1;
        }
    }
    proof {
        if after_plus {
            lemma_ltrim_chars(s@.take(pi as int), a as int);
        }
        assert(s@.take(pi as int).skip(a as int) =~= s@.subrange(a as int, pi as int));
    }
    let ghost head_untrimmed: Seq<char> = if after_plus {
        ltrim(s@.take(pi as int))
    } else {
        s@.take(pi as int)
    };
    let mut b: usize = pi;
    if pi < len {
        while b > a && is_space_exec(s.get_char(b - 1))
            invariant
                a <= b <= pi,
                pi <= len,
                len == s@.len(),
                forall|j: int| b <= j < pi ==> is_space(#[trigger] s@[j]),
            decreases b,
        {
            b -= 1;
        }
        proof {
            let t1 = s@.subrange(a as int, pi as int);
            assert(forall|j: int|
                b - a <= j < t1.len() ==> t1[j] == s@[a + j] && is_space(#[trigger] t1[j]));
            lemma_rtrim_chars(t1, b as int - a as int);
            assert(t1.take(b as int - a as int) =~= s@.subrange(a as int, b as int));
        }
    }
    let head = s.substring_char(a, b);
    proof {
        assert(head@ =~= s@.subrange(a as int, b as int));
        if pi < len {
            assert(head@ == rtrim(head_untrimmed));
        } else {
            assert(b == pi);
            assert(head@ == head_untrimmed);
        }
    }
    let part = match HpPart::from_str(head) {
        Ok(p) => p,
        Err(()) => {
            proof {
                assert(hp_part_spec(ps[0]) is Err);
            }
            return Err(());
        }
    };
    if pi == len {
        let mut v: Vec<HpPart> = Vec::new();
        v.push(part);
        proof {
            assert(ps =~= seq![head_untrimmed]);
            assert(v@ =~= seq![part]);
        }
        Ok(v)
    } else {
        let rest = s.substring_char(pi + 1, len);
        proof {
            assert(rest@ =~= s@.skip(pi as int + 1));
        }
        match parse_pieces(rest, true) {
            Ok(mut tail_parts) => {
                tail_parts.insert(0, part);
                proof {
                    let tail_ps = plus_pieces(s@.skip(pi as int + 1), true);
                    assert(ps =~= seq![rtrim(head_untrimmed)] + tail_ps);
                    assert forall|i: int|
                        0 <= i < ps.len() implies hp_part_spec(#[trigger] ps[i]) == Ok::<
                        HpPart,
                        (),
                    >(tail_parts@[i]) by {
                        if i == 0 {
                            assert(ps[0] == rtrim(head_untrimmed));
                            assert(tail_parts@[0] == part);
                        } else {
                            assert(ps[i] == tail_ps[i - 1]);
                            assert(tail_parts@[i] == tail_parts@.subrange(
                                1,
                                tail_parts@.len() as int,
                            )[i - 1]);
                        }
                    }
                }
                Ok(tail_parts)
            }
            Err(()) => {
                proof {
                    let tail_ps = plus_pieces(s@.skip(pi as int + 1), true);
                    assert(ps =~= seq![rtrim(head_untrimmed)] + tail_ps);
                    let i = choose|i: int|
                        0 <= i < tail_ps.len() && hp_part_spec(#[trigger] tail_ps[i]) is Err;
                    assert(ps[i + 1] == tail_ps[i]);
                }
                Err(())
            }
        }
    }
}

/// Whether `c` is whitespace.
pub(crate) fn is_space_exec(c: char) -> (b: bool)
    ensures
        b == is_space(c),
{
    c == ' ' || c == '\t' || c == '\n' || c == '\r' || c == '\u{b}' || c == '\u{c}'
}

/// The least value the whole expression can resolve to.
pub open spec fn parts_min(ps: Seq<HpPart>) -> int
    decreases ps.len(),
{
    if ps.len() == 0 {
        0
    } else {
        parts_min(ps.drop_last()) + part_min(ps.last())
    }
}

/// The greatest value the whole expression can resolve to.
pub open spec fn parts_max(ps: Seq<HpPart>) -> int
    decreases ps.len(),
{
    if ps.len() == 0 {
        0
    } else {
        parts_max(ps.drop_last()) + part_max(ps.last())
    }
}

/// Whether every part is finished.
pub open spec fn parts_complete(ps: Seq<HpPart>) -> bool {
    forall|i: int| 0 <= i < ps.len() ==> part_complete(#[trigger] ps[i])
}

/// Whether every part can be rolled.
pub open spec fn parts_rollable(ps: Seq<HpPart>) -> bool {
    forall|i: int| 0 <= i < ps.len() ==> part_rollable(#[trigger] ps[i])
}

pub proof fn lemma_part_bounds(p: HpPart)
    ensures
        part_min(p) >= 0,
        part_max(p) >= 0,
        part_rollable(p) ==> part_min(p) <= part_max(p),
{
    match p {
        HpPart::Roll { n, d } => {
            assert(n as int * d as int >= 0) by (nonlinear_arith);
            if d >= 1 {
                assert(n as int * d as int >= n as int * 1) by (nonlinear_arith)
                    requires
                        d as int >= 1,
                        n as int >= 0,
                ;
            }
        }
        _ => {}
    }
}

proof fn lemma_parts_prefix_step(ps: Seq<HpPart>, k: int)
    requires
        0 <= k < ps.len(),
    ensures
        parts_min(ps.take(k + 1)) == parts_min(ps.take(k)) + part_min(ps[k]),
        parts_max(ps.take(k + 1)) == parts_max(ps.take(k)) + part_max(ps[k]),
{
    assert(ps.take(k + 1).drop_last() =~= ps.take(k));
    assert(ps.take(k + 1).last() == ps[k]);
}

proof fn lemma_parts_max_prefix_le(ps: Seq<HpPart>, k: int)
    requires
        0 <= k <= ps.len(),
    ensures
        parts_max(ps.take(k)) <= parts_max(ps),
        parts_min(ps.take(k)) >= 0,
    decreases ps.len() - k,
{
    if k == ps.len() {
        assert(ps.take(k) =~= ps);
        lemma_parts_min_nonneg(ps);
    } else {
        lemma_parts_prefix_step(ps, k);
        lemma_part_bounds(ps[k]);
        lemma_parts_max_prefix_le(ps, k + 1);
        lemma_parts_min_nonneg(ps.take(k));
    }
}

proof fn lemma_parts_min_nonneg(ps: Seq<HpPart>)
    ensures
        parts_min(ps) >= 0,
    decreases ps.len(),
{
    if ps.len() > 0 {
        lemma_parts_min_nonneg(ps.drop_last());
        lemma_part_bounds(ps.last());
    }
}

/// A whole hit-point expression: the sum of its parts.
#[derive(Debug)]
pub struct Hp(Vec<HpPart>);

impl Hp {
    /// The summands, in writing order.
    pub closed spec fn parts(&self) -> Seq<HpPart> {
        self.0@
    }

    /// The expression that is just the plain number `hp`.
    pub fn new(hp: u32) -> (r: Self)
        ensures
            r.parts() == seq![HpPart::Number(hp)],
    {
        let mut v: Vec<HpPart> = Vec::new();
        v.push(HpPart::Number(hp));
        let r = Hp(v);
        proof {
            assert(r.parts() =~= seq![HpPart::Number(hp)]);
        }
        r
    }

    /// Parses a whole hit-point entry: every `+`-separated piece must parse
    /// as a part.
    pub fn from_str(s: &str) -> (r: Result<Self, ()>)
        ensures
            (r is Ok) == (forall|i: int|
                0 <= i < hp_pieces(s@).len() ==> hp_part_spec(#[trigger] hp_pieces(s@)[i]) is Ok),
            r matches Ok(h) ==> {
                &&& h.parts().len() == hp_pieces(s@).len()
                &&& forall|i: int|
                    0 <= i < hp_pieces(s@).len() ==> hp_part_spec(#[trigger] hp_pieces(s@)[i])
                        == Ok::<HpPart, ()>(h.parts()[i])
            },
    {
        match parse_pieces(s, false) {
            Ok(v) => Ok(Hp(v)),
            Err(()) => Err(()),
        }
    }

    /// How many parts the expression has.
    pub fn part_count(&self) -> (n: usize)
        ensures
            n == self.parts().len(),
    {
        self.0.len()
    }

    /// The part at `index`.
    pub fn part(&self, index: usize) -> (p: HpPart)
        requires
            index < self.parts().len(),
        ensures
            p == self.parts()[index as int],
    {
        self.0[index]
    }

    /// Whether every part is finished, so the expression can resolve.
    pub fn is_complete(&self) -> (b: bool)
        ensures
            b == parts_complete(self.parts()),
    {
        let n = self.0.len();
        let mut i: usize = 0;
        while i < n
            invariant
                0 <= i <= n,
                n == self.parts().len(),
                forall|j: int| 0 <= j < i ==> part_complete(#[trigger] self.parts()[j]),
            decreases n - i,
        {
            if matches!(self.0[i], HpPart::RollInProgress { .. }) {
                return false;
            }
            i += 1;
        }
        true
    }

    /// Whether every part can be rolled: no part asks for dice of no sides.
    pub fn rollable(&self) -> (b: bool)
        ensures
            b == parts_rollable(self.parts()),
    {
        let n = self.0.len();
        let mut i: usize = 0;
        while i < n
            invariant
                0 <= i <= n,
                n == self.parts().len(),
                forall|j: int| 0 <= j < i ==> part_rollable(#[trigger] self.parts()[j]),
            decreases n - i,
        {
            match self.0[i] {
                HpPart::Roll { n: dice, d } => {
                    if d == 0 && dice != 0 {
                        return false;
                    }
                }
                _ => {}
            }
            i += 1;
        }
        true
    }

    /// The greatest value the expression can resolve to, or nothing when it
    /// does not fit the hit-point type.
    pub fn max_total(&self) -> (r: Option<u32>)
        ensures
            r matches Some(v) ==> v == parts_max(self.parts()),
            (r is Some) == (parts_max(self.parts()) <= u32::MAX),
    {
        let ghost ps = self.parts();
        let n = self.0.len();
        let mut acc: u64 = 0;
        let mut i: usize = 0;
        while i < n
            invariant
                0 <= i <= n,
                n == ps.len(),
                self.parts() == ps,
                acc == parts_max(ps.take(i as int)),
                acc <= u32::MAX,
            decreases n - i,
        {
            let p = self.0[i];
            proof {
                lemma_parts_prefix_step(ps, i as int);
                lemma_part_bounds(ps[i as int]);
                match p {
                    HpPart::Roll { n: dice, d } => {
                        assert(dice as int * d as int <= u64::MAX as int) by (nonlinear_arith)
                            requires
                                dice as int <= 0xFFFF_FFFF,
                                d as int <= 0xFFFF_FFFF,
                        ;
                    }
                    _ => {}
                }
            }
            let pm: u64 = match p {
                HpPart::Number(k) => k as u64,
                HpPart::Roll { n: dice, d } => dice as u64 * d as u64,
                HpPart::RollInProgress { .. } => 0,
            };
            if pm > u32::MAX as u64 || acc + pm > u32::MAX as u64 {
                proof {
                    lemma_parts_max_prefix_le(ps, i as int + 1);
                }
                return None;
            }
            acc = acc + pm;
            i += 1;
        }
        proof {
            assert(ps.take(n as int) =~= ps);
        }
        Some(acc as u32)
    }

    /// Resolves the expression, drawing fresh rolls. Nothing comes back for
    /// an expression still being typed; a finished one resolves to a value
    /// inside its range.
    pub fn into_number(self) -> (r: Option<u32>)
        requires
            parts_rollable(self.parts()),
            parts_max(self.parts()) <= u32::MAX,
        ensures
            (r is Some) == parts_complete(self.parts()),
            r matches Some(v) ==> parts_min(self.parts()) <= v <= parts_max(self.parts()),
    {
        let ghost ps = self.parts();
        let n = self.0.len();
        let mut sum: u32 = 0;
        let mut i: usize = 0;
        while i < n
            invariant
                0 <= i <= n,
                n == ps.len(),
                self.parts() == ps,
                parts_rollable(ps),
                parts_max(ps) <= u32::MAX,
                forall|j: int| 0 <= j < i ==> part_complete(#[trigger] ps[j]),
                parts_min(ps.take(i as int)) <= sum,
                sum <= parts_max(ps.take(i as int)),
            decreases n - i,
        {
            let p = self.0[i];
            proof {
                lemma_parts_prefix_step(ps, i as int);
                lemma_parts_max_prefix_le(ps, i as int + 1);
                lemma_part_bounds(ps[i as int]);
                lemma_parts_min_nonneg(ps.take(i as int));
            }
            match p.into_number() {
                None => {
                    return None;
                }
                Some(v) => {
                    sum = sum + v;
                }
            }
            i += 1;
        }
        proof {
            assert(ps.take(n as int) =~= ps);
        }
        Some(sum)
    }
}

/// Whether a hit-point entry is ready to submit: empty, or parsed in full
/// with no part still being typed.
pub open spec fn hp_entry_ready(s: Seq<char>) -> bool {
    s.len() == 0 || {
        &&& forall|i: int|
            0 <= i < hp_pieces(s).len() ==> hp_part_spec(#[trigger] hp_pieces(s)[i]) is Ok
        &&& forall|i: int|
            0 <= i < hp_pieces(s).len() ==> part_complete(
                hp_part_spec(#[trigger] hp_pieces(s)[i])->Ok_0,
            )
    }
}

/// Whether a hit-point entry may be submitted: empty counts as ready, and
/// otherwise every part must parse and be finished.
pub fn hp_input_ready(s: &str) -> (b: bool)
    ensures
        b == hp_entry_ready(s@),
{
    if s.unicode_len() == 0 {
        return true;
    }
    match Hp::from_str(s) {
        Ok(h) => {
            let complete = h.is_complete();
            proof {
                let ps = hp_pieces(s@);
                assert forall|i: int|
                    0 <= i < ps.len() implies (part_complete(
                    hp_part_spec(#[trigger] ps[i])->Ok_0,
                ) == part_complete(h.parts()[i])) by {
                    assert(hp_part_spec(ps[i]) == Ok::<HpPart, ()>(h.parts()[i]));
                }
                if complete {
                    assert forall|i: int|
                        0 <= i < ps.len() implies part_complete(
                        hp_part_spec(#[trigger] ps[i])->Ok_0,
                    ) by {
                        assert(part_complete(h.parts()[i]));
                    }
                } else {
                    let i = choose|i: int|
                        0 <= i < h.parts().len() && !part_complete(#[trigger] h.parts()[i]);
                    assert(!part_complete(hp_part_spec(ps[i])->Ok_0));
                }
            }
            complete
        }
        Err(()) => false,
    }
}

/// Whether an initiative entry is acceptable while being typed: empty, a
/// bare sign, or a signed number.
pub fn initiative_input_valid(s: &str) -> (b: bool)
    ensures
        b == (s@.len() == 0 || s@ == seq!['-'] || s@ == seq!['+'] || parse_i32_spec(s@) is Some),
{
    let len = s.unicode_len();
    if len == 0 {
        return true;
    }
    if len == 1 {
        let c = s.get_char(0);
        if c == '-' || c == '+' {
            proof {
                if c == '-' {
                    assert(s@ =~= seq!['-']);
                } else {
                    assert(s@ =~= seq!['+']);
                }
            }
            return true;
        }
    }
    proof {
        assert(s@ != seq!['-'] && s@ != seq!['+']) by {
            if s@ == seq!['-'] || s@ == seq!['+'] {
                assert(s@.len() == 1);
            }
        }
    }
    parse_i32(s).is_some()
}

/// The modifier an initiative entry applies to a fresh roll: its signed
/// value, or zero when it is empty or a bare sign.
pub fn initiative_modifier(s: &str) -> (m: i32)
    ensures
        m == match parse_i32_spec(s@) {
            Some(v) => v,
            None => 0,
        },
{
    match parse_i32(s) {
        Some(v) => v,
        None => 0,
    }
}

/// The initiative score a given twenty-sided roll and modifier produce:
/// their sum, floored at zero.
pub fn initiative_from_roll(roll: u32, modifier: i32) -> (r: u32)
    requires
        roll <= 20,
    ensures
        r as int == if roll + modifier < 0 {
            0
        } else {
            roll + modifier
        },
{
    let v: i64 = roll as i64 + modifier as i64;
    if v < 0 {
        0
    } else {
        v as u32
    }
}

/// Rolls a fresh twenty-sided die and applies the modifier, flooring at
/// zero: the result always lies in the range the modifier allows.
pub fn roll_initiative(modifier: i32) -> (r: u32)
    ensures
        r as int >= if 1 + modifier < 0 {
            0
        } else {
            1 + modifier
        },
        r as int <= if 20 + modifier < 0 {
            0
        } else {
            20 + modifier
        },
{
    let roll = roll_die(20);
    initiative_from_roll(roll, modifier)
}

} // verus!
