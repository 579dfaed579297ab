//! The solver as mathematics: which answers stay possible after each
//! coloured result, and how a guess is scored.

use vstd::prelude::*;
use crate::words::{count_letter, has_at, is_lower, offset};
use crate::knowledge::{
    CharModel, KnowModel, Tally, count5, fresh_tally, in5, know_wf, lemma_sum_update,
    tally_step, union5,
};

verus! {

/// Why a result was not accepted.
#[derive(Debug, Clone, Copy, PartialEq, Eq, Structural)]
pub enum StateError {
    /// The guess or the result is malformed.
    InvalidInput,
    /// No word of the list agrees with all the results given.
    NoAnswer,
}

/// The state of a solver.
pub struct SolverModel {
    /// The word list, in the order it was given (duplicates kept).
    pub words: Seq<Seq<char>>,
    /// `possible[j]`: word `j` is still a possible answer. Only the first
    /// occurrence of a word is ever marked.
    pub possible: Seq<bool>,
    /// What is known of the answer.
    pub know: KnowModel,
    /// `answers[l + 26 * p]`: the number of possible answers with letter `l`
    /// at position `p`, as last counted by `give`.
    pub answers: Seq<nat>,
}

/// Keeps, among the marked words, those that satisfy `f`.
pub open spec fn filter(ws: Seq<Seq<char>>, p: Seq<bool>, f: spec_fn(Seq<char>) -> bool) -> Seq<
    bool,
> {
    Seq::new(p.len(), |j: int| p[j] && f(ws[j]))
}

/// Number of positions `p < k` where guess `w` holds letter `l` and the
/// result `r` is black.
pub open spec fn blacks_upto(w: Seq<char>, r: Seq<char>, l: int, k: int) -> nat
    decreases k,
{
    if k <= 0 {
        0
    } else {
        blacks_upto(w, r, l, k - 1) + if k - 1 < w.len() && k - 1 < r.len() && offset(w[k - 1])
            == l && r[k - 1] == 'b' {
            1nat
        } else {
            0nat
        }
    }
}

/// Number of black results for letter `l` over the whole guess `w`.
pub open spec fn guess_blacks(w: Seq<char>, r: Seq<char>, l: int) -> nat {
    blacks_upto(w, r, l, w.len() as int)
}

/// The answers that one tile leaves possible: letter `l` of guess `w` at
/// position `i` with result `r`; `black` is the number of black results
/// for `l` over the whole guess.
pub open spec fn tile_keep(w: Seq<char>, i: int, l: int, r: char, black: nat, v: Seq<char>) -> bool {
    if r == 'b' {
        if count_letter(w, l) > black {
            // Another copy of the letter in the guess is green or yellow, so
            // the answer holds the letter: this copy tells as much as a
            // yellow.
            count_letter(v, l) > 0 && !has_at(v, i, l)
        } else {
            count_letter(v, l) == 0
        }
    } else if r == 'y' {
        count_letter(v, l) > 0 && !has_at(v, i, l)
    } else {
        has_at(v, i, l)
    }
}

/// A tile is well formed: a lowercase letter and one of `b`, `y`, `g`.
pub open spec fn tile_ok(c: char, r: char) -> bool {
    is_lower(c) && (r == 'b' || r == 'y' || r == 'g')
}

/// State after the tiles before `k`: the tally, the possible answers, and
/// whether a malformed tile stopped the guess.
pub open spec fn tiles(
    ws: Seq<Seq<char>>,
    t0: Tally,
    p0: Seq<bool>,
    w: Seq<char>,
    r: Seq<char>,
    k: int,
) -> (Tally, Seq<bool>, bool)
    decreases k,
{
    if k <= 0 {
        (t0, p0, false)
    } else {
        let prev = tiles(ws, t0, p0, w, r, k - 1);
        if prev.2 {
            prev
        } else if !tile_ok(w[k - 1], r[k - 1]) {
            (prev.0, prev.1, true)
        } else {
            let l = offset(w[k - 1]);
            let t2 = tally_step(prev.0, l, k - 1, r[k - 1]);
            (
                t2,
                filter(
                    ws,
                    prev.1,
                    |v: Seq<char>| tile_keep(w, k - 1, l, r[k - 1], guess_blacks(w, r, l), v),
                ),
                false,
            )
        }
    }
}

/// The letter's position set once every known green position is added.
pub open spec fn closed_yellow(k: KnowModel, l: int) -> Seq<bool> {
    union5(k.chars[l].yellow, k.green)
}

/// The positions where letter `l` may still stand number exactly its
/// unplaced occurrences: all of them are then green.
pub open spec fn greens_forced(k: KnowModel, l: int) -> bool {
    let e = k.chars[l];
    e.num > e.num_green && 5 - count5(closed_yellow(k, l)) == e.num - e.num_green
}

/// Known green positions, with those that `greens_forced` adds.
pub open spec fn green_after(k: KnowModel, l: int) -> Seq<bool> {
    if greens_forced(k, l) {
        Seq::new(5, |j: int| in5(k.green, j) || !in5(closed_yellow(k, l), j))
    } else {
        k.green
    }
}

/// The letter's green count, with the positions that `greens_forced` adds.
pub open spec fn num_green_after(k: KnowModel, l: int) -> nat {
    let e = k.chars[l];
    if greens_forced(k, l) {
        (e.num_green + (5 - count5(closed_yellow(k, l)))) as nat
    } else {
        e.num_green
    }
}

/// Largest possible count of the letter: its known count once black was
/// seen; else three at most, and no more than the positions that the other
/// letters and the letter's own excluded positions leave.
pub open spec fn max_count(k: KnowModel, l: int) -> nat {
    let e = k.chars[l];
    if e.is_black {
        e.num
    } else {
        let a = k.num - e.num;
        let b = count5(closed_yellow(k, l)) - num_green_after(k, l);
        let m = if a >= b { a } else { b };
        let f = 5 - m;
        (if f <= 3 { f } else { 3 }) as nat
    }
}

/// The answers that a known count and largest count leave.
pub open spec fn count_keep(num: nat, max: nat, v: Seq<char>, l: int) -> bool {
    let c = count_letter(v, l);
    if num == 1 && max == 1 {
        !(c > 1)
    } else if num == 1 && max == 2 {
        !(c > 2)
    } else if num == 2 && max == 2 {
        c > 1 && !(c > 2)
    } else if num == 2 && max == 3 {
        c > 1
    } else if num == 3 && max == 3 {
        c > 2
    } else {
        true
    }
}

/// The answers that forced green positions leave: letter `l` stands at
/// every position outside `y`.
pub open spec fn green_keep(y: Seq<bool>, l: int, v: Seq<char>) -> bool {
    forall|j: int| 0 <= j < 5 && !in5(y, j) ==> has_at(v, j, l)
}

/// Knowledge after the refinement step for letter `l`.
pub open spec fn refine_know(k: KnowModel, l: int) -> KnowModel {
    let e = k.chars[l];
    let e2 = CharModel {
        yellow: closed_yellow(k, l),
        num_green: num_green_after(k, l),
        possible_max: max_count(k, l),
        ..e
    };
    KnowModel { chars: k.chars.update(l, e2), green: green_after(k, l), ..k }
}

/// Possible answers after the refinement step for letter `l`.
pub open spec fn refine_possible(ws: Seq<Seq<char>>, k: KnowModel, p: Seq<bool>, l: int) -> Seq<
    bool,
> {
    let y = closed_yellow(k, l);
    let p1 = if greens_forced(k, l) {
        filter(ws, p, |v: Seq<char>| green_keep(y, l, v))
    } else {
        p
    };
    let num = k.chars[l].num;
    let max = max_count(k, l);
    filter(ws, p1, |v: Seq<char>| count_keep(num, max, v, l))
}

/// Refinement from letter `i` on: each letter in turn; when green
/// positions are forced, from the first letter again.
pub open spec fn refine(ws: Seq<Seq<char>>, k: KnowModel, p: Seq<bool>, i: int) -> (
    KnowModel,
    Seq<bool>,
)
    decreases 5 - count5(k.green), 26 - i,
{
    if i < 0 || i >= 26 {
        (k, p)
    } else {
        let k2 = refine_know(k, i);
        let p2 = refine_possible(ws, k, p, i);
        if greens_forced(k, i) {
            proof {
                lemma_forced_grows(k, i);
            }
            refine(ws, k2, p2, 0)
        } else {
            refine(ws, k2, p2, i + 1)
        }
    }
}

pub proof fn lemma_forced_grows(k: KnowModel, l: int)
    requires
        greens_forced(k, l),
    ensures
        count5(green_after(k, l)) > count5(k.green),
        count5(green_after(k, l)) <= 5,
{
    let y = closed_yellow(k, l);
    let g2 = green_after(k, l);
    assert(count5(y) < 5);
    assert(forall|j: int| 0 <= j < 5 && #[trigger] in5(k.green, j) ==> in5(g2, j));
    assert(exists|j: int| 0 <= j < 5 && !in5(y, j) && !in5(k.green, j) && in5(g2, j)) by {
        if in5(y, 0) && in5(y, 1) && in5(y, 2) && in5(y, 3) {
            assert(!in5(y, 4));
            assert(in5(g2, 4));
        } else if !in5(y, 0) {
            assert(in5(g2, 0));
        } else if !in5(y, 1) {
            assert(in5(g2, 1));
        } else if !in5(y, 2) {
            assert(in5(g2, 2));
        } else {
            assert(in5(g2, 3));
        }
    }
}

/// Every letter that is not black leaves room for the others: the known
/// counts of the other letters add up to at most five.
pub open spec fn know_safe(k: KnowModel) -> bool {
    forall|l: int| 0 <= l < 26 && !(#[trigger] k.chars[l]).is_black ==> k.num - k.chars[l].num <= 5
}

proof fn lemma_green_after(k: KnowModel, l: int)
    requires
        know_wf(k),
        0 <= l < 26,
    ensures
        count5(k.green) <= count5(closed_yellow(k, l)),
        forall|j: int| 0 <= j < 5 && #[trigger] in5(k.green, j) ==> in5(green_after(k, l), j),
        greens_forced(k, l) ==> count5(green_after(k, l)) == count5(k.green) + 5 - count5(
            closed_yellow(k, l),
        ),
{
    let y = closed_yellow(k, l);
    let g2 = green_after(k, l);
    assert(in5(k.green, 0) ==> in5(y, 0));
    assert(in5(k.green, 1) ==> in5(y, 1));
    assert(in5(k.green, 2) ==> in5(y, 2));
    assert(in5(k.green, 3) ==> in5(y, 3));
    assert(in5(k.green, 4) ==> in5(y, 4));
}

proof fn lemma_refine_letter_wf(k: KnowModel, l: int, m: int)
    requires
        know_wf(k),
        0 <= l < 26,
        0 <= m < 26,
        num_green_after(k, l) <= count5(green_after(k, l)),
        num_green_after(k, l) <= count5(closed_yellow(k, l)),
        forall|j: int| 0 <= j < 5 && #[trigger] in5(k.green, j) ==> in5(green_after(k, l), j),
    ensures
        ({
            let k2 = refine_know(k, l);
            &&& k2.chars[m].num <= count5(union5(k2.chars[m].yellow, k2.green))
            &&& k2.chars[m].num_green <= count5(k2.green)
            &&& k2.chars[m].yellow.len() == 5
        }),
{
    let k2 = refine_know(k, l);
    let g2 = green_after(k, l);
    let u1 = union5(k.chars[m].yellow, k.green);
    let u2 = union5(k2.chars[m].yellow, k2.green);
    assert(k.chars[m].num <= count5(u1));
    assert(k.chars[m].num_green <= count5(k.green));
    assert(k.chars[m].yellow.len() == 5);
    assert(in5(u1, 0) ==> in5(u2, 0));
    assert(in5(u1, 1) ==> in5(u2, 1));
    assert(in5(u1, 2) ==> in5(u2, 2));
    assert(in5(u1, 3) ==> in5(u2, 3));
    assert(in5(u1, 4) ==> in5(u2, 4));
    assert(in5(k.green, 0) ==> in5(g2, 0));
    assert(in5(k.green, 1) ==> in5(g2, 1));
    assert(in5(k.green, 2) ==> in5(g2, 2));
    assert(in5(k.green, 3) ==> in5(g2, 3));
    assert(in5(k.green, 4) ==> in5(g2, 4));
}

/// The refinement step keeps the knowledge well formed and safe, and its
/// subtraction of the green count does not go below zero.
pub proof fn lemma_refine_know(k: KnowModel, l: int)
    requires
        know_wf(k),
        0 <= l < 26,
    ensures
        know_wf(refine_know(k, l)),
        know_safe(k) ==> know_safe(refine_know(k, l)),
        num_green_after(k, l) <= count5(closed_yellow(k, l)),
        k.chars[l].num <= k.num,
        greens_forced(k, l) ==> count5(green_after(k, l)) == count5(k.green) + 5 - count5(
            closed_yellow(k, l),
        ),
{
    let k2 = refine_know(k, l);
    crate::knowledge::lemma_know_bounds(k);
    lemma_green_after(k, l);
    assert(k.chars[l].num <= count5(union5(k.chars[l].yellow, k.green)));
    assert(k.chars[l].num_green <= count5(k.green));
    assert forall|m: int| 0 <= m < 26 implies (#[trigger] k2.chars[m]).num <= count5(
        union5(k2.chars[m].yellow, k2.green),
    ) && k2.chars[m].num_green <= count5(k2.green) && k2.chars[m].yellow.len() == 5 by {
        lemma_refine_letter_wf(k, l, m);
    }
    lemma_sum_update(k.chars, l, k2.chars[l], 26);
    assert(k2.chars =~= k.chars.update(l, k2.chars[l]));
    if know_safe(k) {
        assert forall|m: int| 0 <= m < 26 && !(#[trigger] k2.chars[m]).is_black implies k2.num
            - k2.chars[m].num <= 5 by {
            assert(!k.chars[m].is_black);
        }
    }
}

/// Number of marked entries among the first `m`.
pub open spec fn mask_count(p: Seq<bool>, m: int) -> nat
    decreases m,
{
    if m <= 0 {
        0
    } else {
        mask_count(p, m - 1) + if p[m - 1] { 1nat } else { 0nat }
    }
}

/// Number of marked words among the first `m` with letter `l` at position `q`.
pub open spec fn answer_count(ws: Seq<Seq<char>>, p: Seq<bool>, l: int, q: int, m: int) -> nat
    decreases m,
{
    if m <= 0 {
        0
    } else {
        answer_count(ws, p, l, q, m - 1) + if p[m - 1] && has_at(ws[m - 1], q, l) {
            1nat
        } else {
            0nat
        }
    }
}

/// The table of letter counts per position over the marked words.
pub open spec fn answer_table(ws: Seq<Seq<char>>, p: Seq<bool>) -> Seq<nat> {
    Seq::new(130, |k: int| answer_count(ws, p, k % 26, k / 26, p.len() as int))
}

/// What `give` reports once the possible answers are known: the answer
/// when exactly one is left, nothing when more are, an error when none is.
pub open spec fn outcome(ws: Seq<Seq<char>>, p: Seq<bool>) -> Result<Option<Seq<char>>, StateError> {
    let c = mask_count(p, p.len() as int);
    if c >= 2 {
        Ok(None)
    } else if c == 1 {
        Ok(Some(ws[choose|j: int| 0 <= j < p.len() && p[j]]))
    } else {
        Err(StateError::NoAnswer)
    }
}

/// Number of UTF-8 bytes of a string.
pub open spec fn byte_len(s: Seq<char>) -> nat {
    vstd::utf8::encode_utf8(s).len()
}

/// State after the tiles of a guess `w` with result `r` of five bytes each.
pub open spec fn after_tiles(m: SolverModel, w: Seq<char>, r: Seq<char>) -> (Tally, Seq<bool>, bool) {
    let n = if w.len() <= r.len() { w.len() } else { r.len() };
    tiles(m.words, fresh_tally(m.know), m.possible, w, r, n as int)
}

/// `give` with guess `w` and result `r` does not overflow: if every tile is
/// well formed, the known counts of the letters leave room for one another.
pub open spec fn give_safe(m: SolverModel, w: Seq<char>, r: Seq<char>) -> bool {
    byte_len(w) == 5 && byte_len(r) == 5 && !after_tiles(m, w, r).2 ==> know_safe(
        after_tiles(m, w, r).0.know,
    )
}

/// New state and result of `give` with guess `w` and result `r`.
pub open spec fn give_spec(m: SolverModel, w: Seq<char>, r: Seq<char>) -> (
    SolverModel,
    Result<Option<Seq<char>>, StateError>,
) {
    if byte_len(w) != 5 || byte_len(r) != 5 {
        (m, Err(StateError::InvalidInput))
    } else {
        let t = after_tiles(m, w, r);
        if t.2 {
            (SolverModel { know: t.0.know, possible: t.1, ..m }, Err(StateError::InvalidInput))
        } else {
            let (k2, p2) = refine(m.words, t.0.know, t.1, 0);
            (
                SolverModel { know: k2, possible: p2, answers: answer_table(m.words, p2), ..m },
                outcome(m.words, p2),
            )
        }
    }
}

/// Once a malformed tile has stopped a guess, later tiles change nothing.
pub proof fn lemma_tiles_stop(
    ws: Seq<Seq<char>>,
    t0: Tally,
    p0: Seq<bool>,
    w: Seq<char>,
    r: Seq<char>,
    k1: int,
    k2: int,
)
    requires
        k1 <= k2,
        tiles(ws, t0, p0, w, r, k1).2,
    ensures
        tiles(ws, t0, p0, w, r, k2) == tiles(ws, t0, p0, w, r, k1),
    decreases k2 - k1,
{
    if k2 > k1 {
        lemma_tiles_stop(ws, t0, p0, w, r, k1, k2 - 1);
    }
}

/// The result of `give` as plain values.
pub open spec fn result_view(r: Result<Option<String>, StateError>) -> Result<
    Option<Seq<char>>,
    StateError,
> {
    match r {
        Ok(Some(s)) => Ok(Some(s@)),
        Ok(None) => Ok(None),
        Err(e) => Err(e),
    }
}

/// Two distinct marked entries make the count at least two.
pub proof fn lemma_two_marked(p: Seq<bool>, a: int, b: int, m: int)
    requires
        0 <= a < b < m <= p.len(),
        p[a],
        p[b],
    ensures
        mask_count(p, m) >= 2,
    decreases m,
{
    if m - 1 > b {
        lemma_two_marked(p, a, b, m - 1);
    } else {
        lemma_one_marked(p, a, m - 1);
    }
}

/// A marked entry makes the count at least one.
pub proof fn lemma_one_marked(p: Seq<bool>, a: int, m: int)
    requires
        0 <= a < m <= p.len(),
        p[a],
    ensures
        mask_count(p, m) >= 1,
    decreases m,
{
    if m - 1 > a {
        lemma_one_marked(p, a, m - 1);
    }
}

/// No marked entry makes the count zero.
pub proof fn lemma_none_marked(p: Seq<bool>, m: int)
    requires
        0 <= m <= p.len(),
        forall|j: int| 0 <= j < m ==> !p[j],
    ensures
        mask_count(p, m) == 0,
    decreases m,
{
    if m > 0 {
        lemma_none_marked(p, m - 1);
    }
}

/// Each entry of the table is that of one letter at one position.
pub proof fn lemma_table_index(k: int)
    requires
        0 <= k < 130,
    ensures
        0 <= k % 26 < 26,
        0 <= k / 26 < 5,
        k == k % 26 + 26 * (k / 26),
{
}

/// A count over the first `m` words is at most `m`.
pub proof fn lemma_answer_count_bound(ws: Seq<Seq<char>>, p: Seq<bool>, l: int, q: int, m: int)
    requires
        0 <= m,
    ensures
        answer_count(ws, p, l, q, m) <= m,
    decreases m,
{
    if m > 0 {
        lemma_answer_count_bound(ws, p, l, q, m - 1);
    }
}

/// Half the number of possible answers, rounded down.
pub open spec fn half_count(m: SolverModel) -> int {
    mask_count(m.possible, m.possible.len() as int) as int / 2
}

/// Score of letter `c` at position `q` of a candidate guess: nothing for a
/// letter whose count is settled or that cannot stand there; otherwise how
/// evenly the letter at that position splits the possible answers, plus a
/// bonus for a letter whose place is still unknown.
pub open spec fn letter_score(m: SolverModel, q: int, c: char) -> int {
    let l = offset(c);
    let e = m.know.chars[l];
    if e.is_black || e.num == e.possible_max || in5(e.yellow, q) {
        0
    } else {
        let h = half_count(m);
        let d = h - m.answers[l + 26 * q];
        let add = h - (if d < 0 { -d } else { d });
        if e.num - e.num_green > 0 {
            add + h
        } else {
            add
        }
    }
}

/// Score of the first `q` letters of `v`.
pub open spec fn score_upto(m: SolverModel, v: Seq<char>, q: int) -> int
    decreases q,
{
    if q <= 0 {
        0
    } else {
        score_upto(m, v, q - 1) + letter_score(m, q - 1, v[q - 1])
    }
}

/// Score of a candidate guess.
pub open spec fn score(m: SolverModel, v: Seq<char>) -> int {
    score_upto(m, v, v.len() as int)
}

/// Word `b` is the first word of the list with the highest score.
pub open spec fn best_word(m: SolverModel, b: int) -> bool {
    &&& 0 <= b < m.words.len()
    &&& forall|j: int| 0 <= j < m.words.len() ==> score(m, #[trigger] m.words[j]) <= score(m, m.words[b])
    &&& forall|j: int| 0 <= j < b ==> score(m, #[trigger] m.words[j]) < score(m, m.words[b])
}

/// The first word of the list with the highest score.
pub open spec fn best_index(m: SolverModel) -> int {
    choose|b: int| best_word(m, b)
}

/// Largest word list on which `search` scores: the scores are `i32` sums of
/// up to five terms, each at most the number of words, and five times this
/// bound is the largest such sum that fits in an `i32`.
pub const MAX_WORDS: usize = 429_496_729;

/// `search` does not overflow: the list is not empty nor longer than
/// `MAX_WORDS`, and a letter that it scores with the bonus test has no more
/// green positions than its count.
pub open spec fn search_safe(m: SolverModel) -> bool {
    &&& m.words.len() > 0
    &&& m.words.len() <= MAX_WORDS
    &&& forall|j: int, q: int|
        0 <= j < m.words.len() && 0 <= q < m.words[j].len() ==> {
            let e = #[trigger] m.know.chars[offset(m.words[j][q])];
            !e.is_black && e.num != e.possible_max && !in5(e.yellow, q) ==> e.num_green <= e.num
        }
}

/// The count of marked entries among the first `m` is at most `m`.
pub proof fn lemma_mask_count_bound(p: Seq<bool>, m: int)
    requires
        0 <= m,
    ensures
        mask_count(p, m) <= m,
    decreases m,
{
    if m > 0 {
        lemma_mask_count_bound(p, m - 1);
    }
}

/// The tally after the tiles before `k`, and whether a malformed tile
/// stopped the guess; the possible answers play no part in it.
pub open spec fn tally_tiles(t0: Tally, w: Seq<char>, r: Seq<char>, k: int) -> (Tally, bool)
    decreases k,
{
    if k <= 0 {
        (t0, false)
    } else {
        let prev = tally_tiles(t0, w, r, k - 1);
        if prev.1 {
            prev
        } else if !tile_ok(w[k - 1], r[k - 1]) {
            (prev.0, true)
        } else {
            (tally_step(prev.0, offset(w[k - 1]), k - 1, r[k - 1]), false)
        }
    }
}

pub proof fn lemma_tally_tiles(
    ws: Seq<Seq<char>>,
    t0: Tally,
    p0: Seq<bool>,
    w: Seq<char>,
    r: Seq<char>,
    k: int,
)
    ensures
        tiles(ws, t0, p0, w, r, k).0 == tally_tiles(t0, w, r, k).0,
        tiles(ws, t0, p0, w, r, k).2 == tally_tiles(t0, w, r, k).1,
    decreases k,
{
    if k > 0 {
        lemma_tally_tiles(ws, t0, p0, w, r, k - 1);
    }
}

/// The words that `p` marks among the first `m`, in order.
pub open spec fn marked_words(ws: Seq<Seq<char>>, p: Seq<bool>, m: int) -> Seq<Seq<char>>
    decreases m,
{
    if m <= 0 {
        Seq::empty()
    } else if p[m - 1] {
        marked_words(ws, p, m - 1).push(ws[m - 1])
    } else {
        marked_words(ws, p, m - 1)
    }
}

/// The possible answers, in the order of the word list.
pub open spec fn possible_words(m: SolverModel) -> Seq<Seq<char>> {
    marked_words(m.words, m.possible, m.possible.len() as int)
}

/// Number of possible answers.
pub open spec fn possible_count(m: SolverModel) -> nat {
    mask_count(m.possible, m.possible.len() as int)
}

} // verus!
