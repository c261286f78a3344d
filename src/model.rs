use vstd::prelude::*;
use crate::alphabet::{is_alpha, alpha_index, index_of, lemma_alpha_injective, ALPHABET_LEN};

verus! {

/// Score added to the expected character on a mistake.
pub const ERROR_SCORE_INCR: u32 = 10;
/// Score removed from a character (and its confusion pairs) on a correct keystroke.
pub const ERROR_SCORE_DECAY: u32 = 1;
/// Score added to the typed (wrong) character on a mistake.
pub const TYPED_SCORE_INCR: u32 = 1;
/// Count added to an (expected, typed) confusion pair on a mistake.
pub const STAT_SCORE_INCR: u32 = 50;

/// `a + b`, held at `u32::MAX`.
pub open spec fn sat_add(a: nat, b: nat) -> nat {
    if a + b > u32::MAX { u32::MAX as nat } else { a + b }
}

/// `a - b`, held at 0.
pub open spec fn sat_sub(a: nat, b: nat) -> nat {
    if a >= b { (a - b) as nat } else { 0 }
}

/// Running count of one confusion: `expected` was due, `typed` was pressed.
#[derive(Clone, Copy, Debug, PartialEq, Eq)]
pub struct PairStat {
    pub expected: char,
    pub typed: char,
    pub count: u32,
}

/// Whether entry `i` of `s` is the counter of (`e`, `t`).
pub open spec fn is_key(s: Seq<PairStat>, i: int, e: char, t: char) -> bool {
    0 <= i < s.len() && s[i].expected == e && s[i].typed == t
}

/// Whether `s` holds a counter of (`e`, `t`).
pub open spec fn holds_key(s: Seq<PairStat>, e: char, t: char) -> bool {
    exists|i: int| is_key(s, i, e, t)
}

/// The count of (`e`, `t`) in `s`, 0 where there is no counter.
pub open spec fn count_in(s: Seq<PairStat>, e: char, t: char) -> nat {
    if holds_key(s, e, t) {
        s[choose|i: int| is_key(s, i, e, t)].count as nat
    } else {
        0
    }
}

/// No two entries of `s` count the same pair.
pub open spec fn keys_unique(s: Seq<PairStat>) -> bool {
    forall|i: int, j: int|
        0 <= i < s.len() && 0 <= j < s.len() && s[i].expected == s[j].expected
            && s[i].typed == s[j].typed ==> i == j
}

proof fn lemma_count_at(s: Seq<PairStat>, i: int)
    requires
        keys_unique(s),
        0 <= i < s.len(),
    ensures
        count_in(s, s[i].expected, s[i].typed) == s[i].count,
{
    let (e, t) = (s[i].expected, s[i].typed);
    assert(is_key(s, i, e, t));
    let j = choose|j: int| is_key(s, j, e, t);
    assert(i == j);
}

proof fn lemma_count_absent(s: Seq<PairStat>, e: char, t: char)
    requires
        forall|i: int| 0 <= i < s.len() ==> !is_key(s, i, e, t),
    ensures
        !holds_key(s, e, t),
        count_in(s, e, t) == 0,
{
}

/// Entry-wise rewriting that keeps every key keeps each count at its entry.
proof fn lemma_same_keys(s: Seq<PairStat>, s2: Seq<PairStat>, e: char, t: char)
    requires
        keys_unique(s),
        s2.len() == s.len(),
        forall|i: int|
            0 <= i < s.len() ==> (#[trigger] s2[i]).expected == s[i].expected && s2[i].typed
                == s[i].typed,
    ensures
        keys_unique(s2),
        holds_key(s2, e, t) == holds_key(s, e, t),
        holds_key(s, e, t) ==> exists|i: int|
            is_key(s, i, e, t) && count_in(s, e, t) == s[i].count && count_in(s2, e, t)
                == s2[i].count,
{
    assert(forall|i: int| is_key(s, i, e, t) <==> is_key(s2, i, e, t));
    if holds_key(s, e, t) {
        let i = choose|i: int| is_key(s, i, e, t);
        lemma_count_at(s, i);
        lemma_count_at(s2, i);
    }
}

/// Relies on itertools' `sorted_by_key` with key `Reverse(count)`: a stable
/// sort of the entries, largest count first.
#[verifier::external_body]
fn sort_by_count_desc(v: &Vec<PairStat>) -> (r: Vec<PairStat>)
    ensures
        r@.to_multiset() == v@.to_multiset(),
        forall|i: int, j: int| 0 <= i < j < r@.len() ==> r@[i].count >= r@[j].count,
{
    itertools::Itertools::sorted_by_key(v.iter().copied(), |p| std::cmp::Reverse(p.count)).collect()
}

/// The text that names the confusion (`e`, `t`) in a saved record: `"e -> t"`.
pub open spec fn pair_key(e: char, t: char) -> Seq<char> {
    seq![e, ' ', '-', '>', ' ', t]
}

/// Relies on `format!`: the two characters with `" -> "` between them.
#[verifier::external_body]
fn chars_to_key(ex: char, ty: char) -> (r: String)
    ensures
        r@ == pair_key(ex, ty),
{
    format!("{ex} -> {ty}")
}

/// The confusion that a saved record's key names, if it has the form `"e -> t"`.
pub fn parse_pair_key(key: &str) -> (r: Option<(char, char)>)
    ensures
        r == (if key@.len() == 6 && key@ == pair_key(key@[0], key@[5]) {
            Some((key@[0], key@[5]))
        } else {
            None::<(char, char)>
        }),
{
    if key.unicode_len() != 6 {
        return None;
    }
    let e = key.get_char(0);
    let t = key.get_char(5);
    if key.get_char(1) == ' ' && key.get_char(2) == '-' && key.get_char(3) == '>' && key.get_char(4)
        == ' ' {
        assert(key@ =~= pair_key(e, t));
        Some((e, t))
    } else {
        None
    }
}

/// Display tier of a confusion count: the count in pair increments, rounded up.
pub fn stat_tier(count: u32) -> (r: u32)
    ensures
        r == crate::prompt::ceil_div(count as nat, STAT_SCORE_INCR as nat),
{
    crate::prompt::div_ceil(count, STAT_SCORE_INCR)
}

/// Per-character difficulty scores and per-confusion counts.
pub struct ErrorModel {
    scores: Vec<u32>,
    pairs: Vec<PairStat>,
}

impl ErrorModel {
    /// Scores are kept for each alphabet character; each confusion has at most one counter.
    pub closed spec fn wf(&self) -> bool {
        &&& self.scores@.len() == ALPHABET_LEN
        &&& keys_unique(self.pairs@)
        &&& forall|i: int| 0 <= i < self.pairs@.len() ==> is_alpha(#[trigger] self.pairs@[i].expected)
    }

    /// The difficulty score of `c`; 0 for a character outside the alphabet.
    pub closed spec fn score(&self, c: char) -> nat {
        if is_alpha(c) { self.scores@[alpha_index(c)] as nat } else { 0 }
    }

    /// Whether a counter of the confusion (`e`, `t`) exists.
    pub closed spec fn has_pair(&self, e: char, t: char) -> bool {
        holds_key(self.pairs@, e, t)
    }

    /// The count of the confusion (`e`, `t`), 0 where it never happened.
    pub closed spec fn pair(&self, e: char, t: char) -> nat {
        count_in(self.pairs@, e, t)
    }

    /// The counters in the order they were created.
    pub closed spec fn pair_seq(&self) -> Seq<PairStat> {
        self.pairs@
    }

    /// An empty model: every score 0, no confusion recorded.
    pub fn new() -> (r: ErrorModel)
        ensures
            r.wf(),
            forall|c: char| r.score(c) == 0,
            forall|e: char, t: char| !r.has_pair(e, t) && r.pair(e, t) == 0,
            r.pair_seq().len() == 0,
    {
        let mut scores: Vec<u32> = Vec::new();
        let mut i: usize = 0;
        while i < ALPHABET_LEN
            invariant
                i <= ALPHABET_LEN,
                scores@.len() == i,
                forall|j: int| 0 <= j < i ==> scores@[j] == 0,
            decreases ALPHABET_LEN - i,
        {
            scores.push(0);
            i = i + 1;
        }
        ErrorModel { scores, pairs: Vec::new() }
    }

    /// The current difficulty score of `c`.
    pub fn score_for(&self, c: char) -> (r: u32)
        requires
            self.wf(),
        ensures
            r == self.score(c),
    {
        if crate::alphabet::in_alphabet(c) {
            self.scores[index_of(c)]
        } else {
            0
        }
    }

    /// The current count of the confusion (`e`, `t`).
    pub fn pair_count(&self, e: char, t: char) -> (r: u32)
        requires
            self.wf(),
        ensures
            r == self.pair(e, t),
    {
        match self.find_pair(e, t) {
            Some(i) => self.pairs[i].count,
            None => 0,
        }
    }

    /// The counters in the order they were created.
    pub fn pair_stats(&self) -> (r: &Vec<PairStat>)
        ensures
            r@ == self.pair_seq(),
    {
        &self.pairs
    }

    /// `new` is `old` after scoring a keystroke of `typed` where `expected` was due.
    pub open spec fn accounted(old: ErrorModel, new: ErrorModel, expected: char, typed: char) -> bool {
        &&& (expected == typed ==> forall|c: char|
                #[trigger] new.score(c) == if c == expected {
                    sat_sub(old.score(c), ERROR_SCORE_DECAY as nat)
                } else {
                    old.score(c)
                })
        &&& (expected == typed ==> forall|e: char, t: char|
                #[trigger] new.has_pair(e, t) == old.has_pair(e, t))
        &&& (expected == typed ==> forall|e: char, t: char|
                #[trigger] new.pair(e, t) == if e == expected {
                    sat_sub(old.pair(e, t), ERROR_SCORE_DECAY as nat)
                } else {
                    old.pair(e, t)
                })
        &&& (expected != typed ==> forall|c: char|
                #[trigger] new.score(c) == if c == expected {
                    sat_add(old.score(c), ERROR_SCORE_INCR as nat)
                } else if c == typed {
                    sat_add(old.score(c), TYPED_SCORE_INCR as nat)
                } else {
                    old.score(c)
                })
        &&& (expected != typed ==> forall|e: char, t: char|
                #[trigger] new.has_pair(e, t) == (old.has_pair(e, t) || (e
                    == expected && t == typed)))
        &&& (expected != typed ==> forall|e: char, t: char|
                #[trigger] new.pair(e, t) == if e == expected && t == typed {
                    sat_add(old.pair(e, t), STAT_SCORE_INCR as nat)
                } else {
                    old.pair(e, t)
                })
    }

    /// Scores one keystroke: `typed` was pressed where `expected` was due.
    ///
    /// A correct keystroke lowers the score of `expected`, and the count of
    /// every confusion in which `expected` was due, by the decay (held at 0).
    /// A mistake raises the score of `expected` by the error increment, the
    /// score of `typed` by one, and the count of (`expected`, `typed`) by the
    /// pair increment (all held at `u32::MAX`).
    pub fn account(&mut self, expected: char, typed: char)
        requires
            old(self).wf(),
            is_alpha(expected),
            is_alpha(typed),
        ensures
            final(self).wf(),
            ErrorModel::accounted(*old(self), *final(self), expected, typed),
    {
        let i = index_of(expected);
        let s = self.scores[i];
        if expected == typed {
            self.scores.set(i, s.saturating_sub(ERROR_SCORE_DECAY));
            self.decay_pairs(expected);
        } else {
            self.scores.set(i, s.saturating_add(ERROR_SCORE_INCR));
            let j = index_of(typed);
            let s2 = self.scores[j];
            self.scores.set(j, s2.saturating_add(TYPED_SCORE_INCR));
            let count = self.pair_count(expected, typed).saturating_add(STAT_SCORE_INCR);
            self.set_pair(expected, typed, count);
        }
        proof {
            assert forall|c: char| is_alpha(c) && alpha_index(c) == i implies c == expected by {
                lemma_alpha_injective(c, expected);
            }
            assert forall|c: char| is_alpha(c) && alpha_index(c) == alpha_index(typed) implies c
                == typed by {
                lemma_alpha_injective(c, typed);
            }
        }
    }

    fn decay_pairs(&mut self, expected: char)
        requires
            old(self).wf(),
        ensures
            final(self).scores == old(self).scores,
            final(self).wf(),
            forall|e: char, t: char|
                #[trigger] final(self).has_pair(e, t) == old(self).has_pair(e, t),
            forall|e: char, t: char|
                #[trigger] final(self).pair(e, t) == if e == expected {
                    sat_sub(old(self).pair(e, t), ERROR_SCORE_DECAY as nat)
                } else {
                    old(self).pair(e, t)
                },
    {
        let ghost old_pairs = self.pairs@;
        let mut k: usize = 0;
        while k < self.pairs.len()
            invariant
                old(self).wf(),
                old_pairs == old(self).pairs@,
                self.scores == old(self).scores,
                k <= self.pairs@.len(),
                self.pairs@.len() == old_pairs.len(),
                forall|j: int|
                    0 <= j < old_pairs.len() ==> (#[trigger] self.pairs@[j]).expected
                        == old_pairs[j].expected && self.pairs@[j].typed == old_pairs[j].typed,
                forall|j: int|
                    0 <= j < k ==> (#[trigger] self.pairs@[j]).count == if old_pairs[j].expected
                        == expected {
                        sat_sub(old_pairs[j].count as nat, ERROR_SCORE_DECAY as nat)
                    } else {
                        old_pairs[j].count as nat
                    },
                forall|j: int| k <= j < old_pairs.len() ==> #[trigger] self.pairs@[j] == old_pairs[j],
            decreases old_pairs.len() - k,
        {
            let p = self.pairs[k];
            if p.expected == expected {
                self.pairs.set(
                    k,
                    PairStat { expected: p.expected, typed: p.typed, count: p.count.saturating_sub(ERROR_SCORE_DECAY) },
                );
            }
            k = k + 1;
        }
        proof {
            lemma_same_keys(old_pairs, self.pairs@, expected, expected);
            assert forall|e: char, t: char|
                #[trigger] self.pair(e, t) == if e == expected {
                    sat_sub(old(self).pair(e, t), ERROR_SCORE_DECAY as nat)
                } else {
                    old(self).pair(e, t)
                } by {
                lemma_same_keys(old_pairs, self.pairs@, e, t);
            }
            assert forall|e: char, t: char|
                #[trigger] self.has_pair(e, t) == old(self).has_pair(e, t) && self.pair(e, t) == if e
                    == expected {
                    sat_sub(old(self).pair(e, t), ERROR_SCORE_DECAY as nat)
                } else {
                    old(self).pair(e, t)
                } by {
                lemma_same_keys(old_pairs, self.pairs@, e, t);
            }
        }
    }

    /// Sets the count of the confusion (`expected`, `typed`) to `count`,
    /// creating its counter if there is none.
    pub fn set_pair(&mut self, expected: char, typed: char, count: u32)
        requires
            old(self).wf(),
            is_alpha(expected),
        ensures
            forall|c: char| #[trigger] final(self).score(c) == old(self).score(c),
            final(self).wf(),
            forall|e: char, t: char|
                #[trigger] final(self).has_pair(e, t) == (old(self).has_pair(e, t) || (e
                    == expected && t == typed)),
            forall|e: char, t: char|
                #[trigger] final(self).pair(e, t) == if e == expected && t == typed {
                    count as nat
                } else {
                    old(self).pair(e, t)
                },
    {
        let ghost old_pairs = self.pairs@;
        match self.find_pair(expected, typed) {
            Some(i) => {
                self.pairs.set(
                    i,
                    PairStat { expected, typed, count },
                );
                proof {
                    assert forall|e: char, t: char|
                        #![trigger self.has_pair(e, t)]
                        #![trigger self.pair(e, t)]
                        self.has_pair(e, t) == old(self).has_pair(e, t) && self.pair(e, t)
                            == if e == expected && t == typed {
                            count as nat
                        } else {
                            old(self).pair(e, t)
                        } by {
                        lemma_same_keys(old_pairs, self.pairs@, e, t);
                        if holds_key(old_pairs, e, t) {
                            let j = choose|j: int|
                                is_key(old_pairs, j, e, t) && count_in(old_pairs, e, t)
                                    == old_pairs[j].count && count_in(self.pairs@, e, t)
                                    == self.pairs@[j].count;
                            if !(e == expected && t == typed) {
                                assert(j != i);
                            }
                        }
                    }
                }
            },
            None => {
                self.pairs.push(PairStat { expected, typed, count });
                proof {
                    let s2 = self.pairs@;
                    let n = old_pairs.len() as int;
                    assert(!holds_key(old_pairs, expected, typed));
                    assert forall|a: int, b: int|
                        0 <= a < s2.len() && 0 <= b < s2.len() && s2[a].expected == s2[b].expected
                            && s2[a].typed == s2[b].typed implies a == b by {
                        if a == n && b < n {
                            assert(is_key(old_pairs, b, expected, typed));
                        } else if b == n && a < n {
                            assert(is_key(old_pairs, a, expected, typed));
                        } else if a < n && b < n {
                            assert(s2[a] == old_pairs[a] && s2[b] == old_pairs[b]);
                        }
                    }
                    assert(keys_unique(s2));
                    assert forall|e: char, t: char|
                        #![trigger self.has_pair(e, t)]
                        #![trigger self.pair(e, t)]
                        self.has_pair(e, t) == (old(self).has_pair(e, t) || (e == expected
                            && t == typed)) && self.pair(e, t) == if e == expected && t == typed {
                            count as nat
                        } else {
                            old(self).pair(e, t)
                        } by {
                        if e == expected && t == typed {
                            assert(s2[n] == PairStat { expected, typed, count });
                            assert(is_key(s2, n, e, t));
                            lemma_count_at(s2, n);
                        } else if holds_key(old_pairs, e, t) {
                            let j = choose|j: int| is_key(old_pairs, j, e, t);
                            lemma_count_at(old_pairs, j);
                            assert(s2[j] == old_pairs[j]);
                            assert(is_key(s2, j, e, t));
                            lemma_count_at(s2, j);
                        } else {
                            assert forall|j: int| 0 <= j < s2.len() implies !is_key(s2, j, e, t) by {
                                if j < n {
                                    assert(s2[j] == old_pairs[j]);
                                    assert(!is_key(old_pairs, j, e, t));
                                }
                            }
                            lemma_count_absent(s2, e, t);
                        }
                    }
                }
            },
        }
    }

    /// Sets the score of `c` to `value`; a character outside the alphabet has no score.
    pub fn set_score(&mut self, c: char, value: u32)
        requires
            old(self).wf(),
        ensures
            final(self).wf(),
            forall|x: char| #[trigger] final(self).score(x) == if x == c && is_alpha(c) {
                value as nat
            } else {
                old(self).score(x)
            },
            forall|e: char, t: char| #[trigger] final(self).pair(e, t) == old(self).pair(e, t),
            forall|e: char, t: char| #[trigger] final(self).has_pair(e, t) == old(self).has_pair(e, t),
    {
        if crate::alphabet::in_alphabet(c) {
            let i = index_of(c);
            self.scores.set(i, value);
            proof {
                assert forall|x: char| is_alpha(x) && alpha_index(x) == i implies x == c by {
                    lemma_alpha_injective(x, c);
                }
            }
        }
    }

    /// The confusion counters as a saved record holds them: `"e -> t"` and the
    /// count, in creation order.
    pub fn stored_pairs(&self) -> (r: Vec<(String, u32)>)
        ensures
            r@.len() == self.pair_seq().len(),
            forall|i: int|
                0 <= i < r@.len() ==> (#[trigger] r@[i]).0@ == pair_key(
                    self.pair_seq()[i].expected,
                    self.pair_seq()[i].typed,
                ) && r@[i].1 == self.pair_seq()[i].count,
    {
        let mut r: Vec<(String, u32)> = Vec::new();
        let mut i: usize = 0;
        while i < self.pairs.len()
            invariant
                i <= self.pairs@.len(),
                r@.len() == i,
                forall|j: int|
                    0 <= j < i ==> (#[trigger] r@[j]).0@ == pair_key(
                        self.pairs@[j].expected,
                        self.pairs@[j].typed,
                    ) && r@[j].1 == self.pairs@[j].count,
            decreases self.pairs@.len() - i,
        {
            let p = self.pairs[i];
            r.push((chars_to_key(p.expected, p.typed), p.count));
            i = i + 1;
        }
        r
    }

    /// The non-zero scores as a saved record holds them, in alphabet order.
    pub fn stored_scores(&self) -> (r: Vec<(char, u32)>)
        requires
            self.wf(),
        ensures
            forall|i: int|
                0 <= i < r@.len() ==> (#[trigger] r@[i]).1 == self.score(r@[i].0) && r@[i].1 > 0
                    && is_alpha(r@[i].0),
            forall|c: char| is_alpha(c) && self.score(c) > 0 ==> exists|i: int| 0 <= i < r@.len() && (#[trigger] r@[i]).0 == c,
    {
        let mut r: Vec<(char, u32)> = Vec::new();
        let mut k: usize = 0;
        while k < ALPHABET_LEN
            invariant
                self.wf(),
                k <= ALPHABET_LEN,
                forall|i: int|
                    0 <= i < r@.len() ==> (#[trigger] r@[i]).1 == self.score(r@[i].0) && r@[i].1 > 0
                        && is_alpha(r@[i].0) && alpha_index(r@[i].0) < k,
                forall|c: char|
                    is_alpha(c) && alpha_index(c) < k && self.score(c) > 0 ==> exists|i: int|
                        0 <= i < r@.len() && (#[trigger] r@[i]).0 == c,
            decreases ALPHABET_LEN - k,
        {
            let c = crate::alphabet::char_at(k);
            let v = self.score_for(c);
            let ghost r0 = r@;
            if v > 0 {
                r.push((c, v));
            }
            proof {
                assert forall|x: char|
                    is_alpha(x) && alpha_index(x) < k + 1 && self.score(x) > 0 implies exists|i: int|
                        0 <= i < r@.len() && (#[trigger] r@[i]).0 == x by {
                    if alpha_index(x) == k {
                        lemma_alpha_injective(x, c);
                        assert(r@[r@.len() - 1].0 == x);
                    } else {
                        let i = choose|i: int| 0 <= i < r0.len() && (#[trigger] r0[i]).0 == x;
                        assert(r@[i] == r0[i]);
                    }
                }
            }
            k = k + 1;
        }
        r
    }

    /// The counters ordered by count, largest first; equal counts keep their creation order.
    pub fn ranked_pairs(&self) -> (r: Vec<PairStat>)
        ensures
            r@.to_multiset() == self.pair_seq().to_multiset(),
            forall|i: int, j: int| 0 <= i < j < r@.len() ==> r@[i].count >= r@[j].count,
    {
        sort_by_count_desc(&self.pairs)
    }

    fn find_pair(&self, e: char, t: char) -> (r: Option<usize>)
        requires
            self.wf(),
        ensures
            match r {
                Some(i) => is_key(self.pairs@, i as int, e, t) && self.pair(e, t)
                    == self.pairs@[i as int].count,
                None => !self.has_pair(e, t) && self.pair(e, t) == 0,
            },
    {
        let mut i: usize = 0;
        while i < self.pairs.len()
            invariant
                self.wf(),
                i <= self.pairs@.len(),
                forall|j: int| 0 <= j < i ==> !is_key(self.pairs@, j, e, t),
            decreases self.pairs@.len() - i,
        {
            if self.pairs[i].expected == e && self.pairs[i].typed == t {
                proof { lemma_count_at(self.pairs@, i as int); }
                return Some(i);
            }
            i = i + 1;
        }
        None
    }
}

} // verus!
