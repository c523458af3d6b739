//! The abstract model of page scoring: each word of a page gets, for every
//! occurrence, the rate of the part of the page it occurs in.
use vstd::prelude::*;
use crate::sanitize::sanitized;

verus! {

/// Scores per word, in the order the words were first scored.
pub type ScoresView = Seq<(Seq<char>, nat)>;

/// The position of word `w` in `r`, or `-1`.
pub open spec fn word_position(r: ScoresView, w: Seq<char>) -> int
    decreases r.len(),
{
    if r.len() == 0 {
        -1
    } else {
        let j = word_position(r.drop_last(), w);
        if j >= 0 {
            j
        } else if r.last().0 == w {
            r.len() - 1
        } else {
            -1
        }
    }
}

/// The score of `w` (0 when it has none).
pub open spec fn score_in(r: ScoresView, w: Seq<char>) -> nat {
    let p = word_position(r, w);
    if p >= 0 {
        r[p].1
    } else {
        0
    }
}

/// One occurrence of `w` at rate `rate`.
pub open spec fn bump(r: ScoresView, w: Seq<char>, rate: nat) -> ScoresView {
    let p = word_position(r, w);
    if p >= 0 {
        r.update(p, (r[p].0, r[p].1 + rate))
    } else {
        r.push((w, rate))
    }
}

/// Every word of `ws`, in order, scored at rate `rate`.
pub open spec fn bump_all(r: ScoresView, ws: Seq<Seq<char>>, rate: nat) -> ScoresView
    decreases ws.len(),
{
    if ws.len() == 0 {
        r
    } else {
        bump(bump_all(r, ws.drop_last(), rate), ws.last(), rate)
    }
}

/// The words of each line, in order.
pub open spec fn line_words(lines: Seq<Seq<char>>) -> Seq<Seq<char>>
    decreases lines.len(),
{
    if lines.len() == 0 {
        Seq::empty()
    } else {
        line_words(lines.drop_last()) + sanitized(lines.last())
    }
}

/// Every score fits a `usize`.
pub open spec fn scores_fit(r: ScoresView) -> bool {
    forall|i: int| 0 <= i < r.len() ==> #[trigger] r[i].1 <= usize::MAX
}

/// No word has two entries.
pub open spec fn words_distinct(r: ScoresView) -> bool {
    forall|i: int, j: int| 0 <= i < j < r.len() ==> r[i].0 != r[j].0
}

/// The number of occurrences of `w` in `ws`.
pub open spec fn occurrences(ws: Seq<Seq<char>>, w: Seq<char>) -> nat
    decreases ws.len(),
{
    if ws.len() == 0 {
        0
    } else {
        occurrences(ws.drop_last(), w) + if ws.last() == w { 1nat } else { 0nat }
    }
}

pub proof fn lemma_word_position(r: ScoresView, w: Seq<char>)
    ensures
        -1 <= word_position(r, w) < r.len(),
        word_position(r, w) >= 0 ==> r[word_position(r, w)].0 == w,
        forall|i: int| 0 <= i < r.len() && (word_position(r, w) < 0 || i < word_position(r, w)) ==> r[i].0 != w,
    decreases r.len(),
{
    if r.len() > 0 {
        let d = r.drop_last();
        lemma_word_position(d, w);
        assert forall|i: int| 0 <= i < r.len() && (word_position(r, w) < 0 || i < word_position(r, w)) implies r[i].0 != w by {
            if i < d.len() {
                assert(r[i] == d[i]);
            }
        }
    }
}

/// The position of a word depends only on the words, not on their scores.
pub proof fn lemma_word_position_same_words(r1: ScoresView, r2: ScoresView, w: Seq<char>)
    requires
        r1.len() == r2.len(),
        forall|i: int| 0 <= i < r1.len() ==> r1[i].0 == r2[i].0,
    ensures
        word_position(r1, w) == word_position(r2, w),
    decreases r1.len(),
{
    if r1.len() > 0 {
        lemma_word_position_same_words(r1.drop_last(), r2.drop_last(), w);
    }
}

/// One occurrence only raises the score of its own word, by the rate.
pub proof fn lemma_bump_score(r: ScoresView, x: Seq<char>, w: Seq<char>, rate: nat)
    ensures
        score_in(bump(r, x, rate), w) == score_in(r, w) + if x == w { rate } else { 0 },
{
    let p = word_position(r, x);
    lemma_word_position(r, x);
    lemma_word_position(r, w);
    let b = bump(r, x, rate);
    if p >= 0 {
        lemma_word_position_same_words(b, r, w);
        if x == w {
            assert(word_position(r, w) == p);
        }
    } else {
        let q = word_position(r, w);
        lemma_word_position(b, w);
        assert(b.drop_last() =~= r);
        if q >= 0 {
            assert(b[q] == r[q]);
        }
    }
}

/// Scoring words adds, to each word's score, the rate times its number of
/// occurrences: the score of a word is the sum, over its occurrences, of the
/// rates of the parts of the page they occur in.
pub proof fn lemma_bump_all_score(r: ScoresView, ws: Seq<Seq<char>>, w: Seq<char>, rate: nat)
    ensures
        score_in(bump_all(r, ws, rate), w) == score_in(r, w) + rate * occurrences(ws, w),
    decreases ws.len(),
{
    if ws.len() > 0 {
        lemma_bump_all_score(r, ws.drop_last(), w, rate);
        lemma_bump_score(bump_all(r, ws.drop_last(), rate), ws.last(), w, rate);
        let a = occurrences(ws.drop_last(), w);
        let prev = bump_all(r, ws.drop_last(), rate);
        assert(bump_all(r, ws, rate) == bump(prev, ws.last(), rate));
        assert(score_in(prev, w) == score_in(r, w) + rate * a);
        if ws.last() == w {
            assert(occurrences(ws, w) == a + 1);
            assert(rate * (a + 1) == rate * a + rate) by (nonlinear_arith);
            assert(score_in(bump_all(r, ws, rate), w) == score_in(prev, w) + rate);
        } else {
            assert(occurrences(ws, w) == a);
            assert(score_in(bump_all(r, ws, rate), w) == score_in(prev, w));
        }
    } else {
        assert(rate * 0 == 0);
    }
}

/// One occurrence keeps the words in place, never lowers a score, and keeps
/// the words distinct.
pub proof fn lemma_bump_grows(r: ScoresView, w: Seq<char>, rate: nat)
    ensures
        bump(r, w, rate).len() >= r.len(),
        forall|i: int| 0 <= i < r.len() ==> (#[trigger] bump(r, w, rate)[i]).0 == r[i].0 && bump(r, w, rate)[i].1 >= r[i].1,
        words_distinct(r) ==> words_distinct(bump(r, w, rate)),
{
    lemma_word_position(r, w);
}

/// Scoring a prefix of the words leaves each score at most what scoring all
/// of them gives.
pub proof fn lemma_bump_all_prefix(r: ScoresView, ws: Seq<Seq<char>>, k: int, rate: nat)
    requires
        0 <= k <= ws.len(),
    ensures
        bump_all(r, ws.take(k), rate).len() <= bump_all(r, ws, rate).len(),
        forall|i: int|
            0 <= i < bump_all(r, ws.take(k), rate).len() ==> #[trigger] bump_all(r, ws.take(k), rate)[i].1
                <= bump_all(r, ws, rate)[i].1 && bump_all(r, ws.take(k), rate)[i].0 == bump_all(r, ws, rate)[i].0,
    decreases ws.len() - k,
{
    if k == ws.len() {
        assert(ws.take(k) =~= ws);
    } else {
        lemma_bump_all_prefix(r, ws, k + 1, rate);
        assert(ws.take(k + 1).drop_last() =~= ws.take(k));
        assert(ws.take(k + 1).last() == ws[k]);
        let small = bump_all(r, ws.take(k), rate);
        let mid = bump_all(r, ws.take(k + 1), rate);
        let big = bump_all(r, ws, rate);
        assert(mid == bump(small, ws[k], rate));
        lemma_bump_grows(small, ws[k], rate);
        assert forall|i: int| 0 <= i < small.len() implies #[trigger] small[i].1 <= big[i].1 && small[i].0 == big[i].0 by {
            assert(mid[i].1 >= small[i].1 && mid[i].0 == small[i].0);
            assert(mid[i].1 <= big[i].1 && mid[i].0 == big[i].0);
        }
    }
}

/// Scoring keeps the words distinct.
pub proof fn lemma_bump_all_distinct(r: ScoresView, ws: Seq<Seq<char>>, rate: nat)
    requires
        words_distinct(r),
    ensures
        words_distinct(bump_all(r, ws, rate)),
    decreases ws.len(),
{
    if ws.len() > 0 {
        lemma_bump_all_distinct(r, ws.drop_last(), rate);
        lemma_bump_grows(bump_all(r, ws.drop_last(), rate), ws.last(), rate);
    }
}

pub proof fn lemma_line_words_concat(a: Seq<Seq<char>>, b: Seq<Seq<char>>)
    ensures
        line_words(a + b) == line_words(a) + line_words(b),
    decreases b.len(),
{
    if b.len() == 0 {
        assert(a + b =~= a);
        assert(line_words(a) + line_words(b) =~= line_words(a));
    } else {
        lemma_line_words_concat(a, b.drop_last());
        assert((a + b).drop_last() =~= a + b.drop_last());
        assert(line_words(a + b) =~= line_words(a) + line_words(b));
    }
}

/// Scoring `a` and then `b` gives exactly the scores of scoring `a + b`.
pub proof fn lemma_bump_all_concat(r: ScoresView, a: Seq<Seq<char>>, b: Seq<Seq<char>>, rate: nat)
    ensures
        bump_all(bump_all(r, a, rate), b, rate) == bump_all(r, a + b, rate),
    decreases b.len(),
{
    if b.len() == 0 {
        assert(a + b =~= a);
    } else {
        lemma_bump_all_concat(r, a, b.drop_last(), rate);
        assert((a + b).drop_last() =~= a + b.drop_last());
        assert((a + b).last() == b.last());
    }
}

/// Scoring the lines `a` and then the lines `b` at one rate gives exactly
/// the scores of scoring the lines of `a` followed by those of `b` at once:
/// two calls of `incr_score` are one call on the concatenated lines.
pub proof fn lemma_incr_score_concat(r: ScoresView, a: Seq<Seq<char>>, b: Seq<Seq<char>>, rate: nat)
    ensures
        bump_all(bump_all(r, line_words(a), rate), line_words(b), rate) == bump_all(r, line_words(a + b), rate),
{
    lemma_line_words_concat(a, b);
    lemma_bump_all_concat(r, line_words(a), line_words(b), rate);
}

/// Once a score does not fit a `usize`, scoring more words keeps it so.
pub proof fn lemma_unfit_stays(r: ScoresView, ws: Seq<Seq<char>>, rate: nat)
    requires
        !scores_fit(r),
    ensures
        !scores_fit(bump_all(r, ws, rate)),
    decreases ws.len(),
{
    if ws.len() > 0 {
        lemma_unfit_stays(r, ws.drop_last(), rate);
        let prev = bump_all(r, ws.drop_last(), rate);
        lemma_bump_grows(prev, ws.last(), rate);
        let i = choose|i: int| 0 <= i < prev.len() && !(#[trigger] prev[i].1 <= usize::MAX);
        assert(bump(prev, ws.last(), rate)[i].1 >= prev[i].1);
    }
}

/// No word has a score before any is scored.
pub proof fn lemma_score_in_empty(w: Seq<char>)
    ensures
        score_in(Seq::<(Seq<char>, nat)>::empty(), w) == 0,
{
}

/// Every score is positive.
pub open spec fn scores_positive(r: ScoresView) -> bool {
    forall|i: int| 0 <= i < r.len() ==> #[trigger] r[i].1 > 0
}

/// Scoring at a positive rate keeps every score positive.
pub proof fn lemma_bump_all_positive(r: ScoresView, ws: Seq<Seq<char>>, rate: nat)
    requires
        scores_positive(r),
        rate > 0,
    ensures
        scores_positive(bump_all(r, ws, rate)),
    decreases ws.len(),
{
    if ws.len() > 0 {
        lemma_bump_all_positive(r, ws.drop_last(), rate);
        let prev = bump_all(r, ws.drop_last(), rate);
        lemma_bump_grows(prev, ws.last(), rate);
        let b = bump(prev, ws.last(), rate);
        assert forall|i: int| 0 <= i < b.len() implies #[trigger] b[i].1 > 0 by {
            lemma_word_position(prev, ws.last());
            if i < prev.len() {
                assert(b[i].1 >= prev[i].1);
            } else {
                assert(b == prev.push((ws.last(), rate)));
            }
        }
    }
}

/// With distinct words, the score of the word at `i` is the score held at `i`.
pub proof fn lemma_score_at(r: ScoresView, i: int)
    requires
        words_distinct(r),
        0 <= i < r.len(),
    ensures
        score_in(r, r[i].0) == r[i].1,
{
    lemma_word_position(r, r[i].0);
}

/// A word with a positive score has an entry.
pub proof fn lemma_scored_word_present(r: ScoresView, w: Seq<char>)
    requires
        score_in(r, w) > 0,
    ensures
        exists|i: int| 0 <= i < r.len() && (#[trigger] r[i]).0 == w,
{
    lemma_word_position(r, w);
    let p = word_position(r, w);
    assert(r[p].0 == w);
}

} // verus!
