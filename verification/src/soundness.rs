//! With the true results of Wordle, the solver never loses the answer:
//! every step keeps it possible and keeps the knowledge true of it.

use vstd::prelude::*;
use crate::words::{count_letter, count_upto, five_letters, has_at, is_lower, offset, storable};
use crate::knowledge::{
    CharModel, KnowModel, Tally, count5, in5, initial_know, know_wf, sum_num, tally_inv,
    tally_step,
};
use crate::feedback::{
    black_upto, feedback, gy_upto, lemma_black_exact, lemma_gy_bound, tile,
};
use crate::model::{
    SolverModel, closed_yellow, count_keep, green_keep, greens_forced, know_safe, max_count,
    num_green_after, refine_know, tile_keep, tiles,
};

verus! {

/// Positions (0..5) of the position set of letter `l`, closed under the
/// known greens, where the answer `a` holds `l`.
pub open spec fn held(k: KnowModel, a: Seq<char>, l: int) -> Seq<bool> {
    Seq::new(5, |p: int| in5(closed_yellow(k, l), p) && has_at(a, p, l))
}

/// What the knowledge claims of each letter is true of the answer `a`,
/// while a guess is read: its count is at most the letter's count in `a`,
/// and exactly it once black was seen, unless the black was seen in the
/// guess being read (`black[l] > 0`); and the excluded positions of the
/// letter hold it in `a` only at its green positions.
pub open spec fn agrees_with(k: KnowModel, black: Seq<nat>, a: Seq<char>) -> bool {
    &&& forall|l: int| 0 <= l < 26 ==> (#[trigger] k.chars[l]).num <= count_letter(a, l)
    &&& forall|l: int|
        0 <= l < 26 && (#[trigger] k.chars[l]).is_black ==> k.chars[l].num >= count_letter(a, l)
            || black[l] > 0
    &&& forall|l: int| 0 <= l < 26 ==> count5(held(k, a, l)) <= (#[trigger] k.chars[l]).num_green
}

/// What the knowledge claims is true of the answer `a`.
pub open spec fn agrees(k: KnowModel, a: Seq<char>) -> bool {
    agrees_with(k, Seq::new(26, |l: int| 0nat), a)
}

/// The black results that `guess_blacks` counts in a true result are the
/// black tiles of the feedback.
proof fn lemma_guess_blacks(g: Seq<char>, a: Seq<char>, l: int, k: int)
    requires
        five_letters(g),
        five_letters(a),
        0 <= k <= 5,
    ensures
        crate::model::blacks_upto(g, feedback(g, a), l, k) == black_upto(g, a, l, k),
    decreases k,
{
    if k > 0 {
        lemma_guess_blacks(g, a, l, k - 1);
        assert(feedback(g, a)[k - 1] == tile(g, a, k - 1));
    }
}

/// The positions where `a` holds letter `l`, counted with `count5`.
proof fn lemma_count5_has(a: Seq<char>, l: int)
    requires
        a.len() == 5,
    ensures
        count5(Seq::new(5, |p: int| has_at(a, p, l))) == count_letter(a, l),
{
    assert(count_upto(a, l, 0) == 0);
    assert(count_upto(a, l, 1) == count_upto(a, l, 0) + if offset(a[0]) == l { 1nat } else { 0nat });
    assert(count_upto(a, l, 2) == count_upto(a, l, 1) + if offset(a[1]) == l { 1nat } else { 0nat });
    assert(count_upto(a, l, 3) == count_upto(a, l, 2) + if offset(a[2]) == l { 1nat } else { 0nat });
    assert(count_upto(a, l, 4) == count_upto(a, l, 3) + if offset(a[3]) == l { 1nat } else { 0nat });
    assert(count_upto(a, l, 5) == count_upto(a, l, 4) + if offset(a[4]) == l { 1nat } else { 0nat });
}

/// The green and yellow results of a letter before `k`, counted with `count5`.
proof fn lemma_seen_gy(g: Seq<char>, a: Seq<char>, l: int, k: int)
    requires
        g.len() == 5,
        a.len() == 5,
        0 <= k <= 5,
    ensures
        count5(crate::knowledge::seen_gy(g, feedback(g, a), k, l)) == gy_upto(g, a, l, k),
    decreases k,
{
    let r = feedback(g, a);
    if k > 0 {
        lemma_seen_gy(g, a, l, k - 1);
        let s1 = crate::knowledge::seen_gy(g, r, k - 1, l);
        let s2 = crate::knowledge::seen_gy(g, r, k, l);
        assert(r[k - 1] == tile(g, a, k - 1));
        assert(s2 =~= s1.update(k - 1, has_at(g, k - 1, l) && tile(g, a, k - 1) != 'b'));
        assert(!in5(s1, k - 1));
    } else {
        assert(count5(crate::knowledge::seen_gy(g, r, 0, l)) == 0);
    }
}

/// The letters of a five-letter lowercase word add up to five.
proof fn lemma_letters_sum(a: Seq<char>)
    requires
        five_letters(a),
    ensures
        sum_cnt(a, 26) == 5,
{
    lemma_letters_sum_upto(a, 5);
    lemma_sum_cnt_full(a, 26);
}

/// Sum over the first `m` letters of their counts in `a`.
pub open spec fn sum_cnt(a: Seq<char>, m: int) -> int
    decreases m,
{
    if m <= 0 {
        0
    } else {
        sum_cnt(a, m - 1) + count_letter(a, m - 1)
    }
}

/// Sum over the first `m` letters of their counts among the first `k`
/// positions of `a`.
spec fn sum_cnt_upto(a: Seq<char>, m: int, k: int) -> int
    decreases m,
{
    if m <= 0 {
        0
    } else {
        sum_cnt_upto(a, m - 1, k) + count_upto(a, m - 1, k)
    }
}

proof fn lemma_sum_cnt_step(a: Seq<char>, m: int, k: int)
    requires
        0 <= k < a.len(),
        0 <= m <= 26,
    ensures
        sum_cnt_upto(a, m, k + 1) == sum_cnt_upto(a, m, k) + if 0 <= offset(a[k]) < m {
            1int
        } else {
            0int
        },
    decreases m,
{
    if m > 0 {
        lemma_sum_cnt_step(a, m - 1, k);
    }
}

proof fn lemma_sum_cnt_zero(a: Seq<char>, m: int)
    requires
        0 <= m,
    ensures
        sum_cnt_upto(a, m, 0) == 0,
    decreases m,
{
    if m > 0 {
        lemma_sum_cnt_zero(a, m - 1);
    }
}

proof fn lemma_sum_cnt_full(a: Seq<char>, m: int)
    requires
        0 <= m,
    ensures
        sum_cnt_upto(a, m, a.len() as int) == sum_cnt(a, m),
    decreases m,
{
    if m > 0 {
        lemma_sum_cnt_full(a, m - 1);
    }
}

proof fn lemma_letters_sum_upto(a: Seq<char>, k: int)
    requires
        five_letters(a),
        0 <= k <= 5,
    ensures
        sum_cnt_upto(a, 26, k) == k,
    decreases k,
{
    if k > 0 {
        lemma_letters_sum_upto(a, k - 1);
        lemma_sum_cnt_step(a, 26, k - 1);
        assert(is_lower(a[k - 1]));
    } else {
        lemma_sum_cnt_zero(a, 26);
    }
}

/// The knowledge's total count, less one letter's, is at most the answer's
/// total, less that letter's.
proof fn lemma_sum_le(cs: Seq<CharModel>, a: Seq<char>, l: int, m: int)
    requires
        0 <= l < 26,
        0 <= m <= 26,
        cs.len() == 26,
        forall|d: int| 0 <= d < 26 ==> (#[trigger] cs[d]).num <= count_letter(a, d),
    ensures
        sum_num(cs, m) - (if l < m { cs[l].num as int } else { 0 }) <= sum_cnt(a, m) - (if l < m {
            count_letter(a, l) as int
        } else {
            0
        }),
    decreases m,
{
    if m > 0 {
        lemma_sum_le(cs, a, l, m - 1);
        assert(cs[m - 1].num <= count_letter(a, m - 1));
    }
}

/// Knowledge true of a five-letter answer leaves room for every letter.
pub proof fn lemma_agrees_safe(k: KnowModel, black: Seq<nat>, a: Seq<char>)
    requires
        know_wf(k),
        agrees_with(k, black, a),
        five_letters(a),
    ensures
        know_safe(k),
        forall|l: int| 0 <= l < 26 ==> k.num - (#[trigger] k.chars[l]).num <= 5 - count_letter(a, l),
{
    lemma_letters_sum(a);
    assert forall|l: int| 0 <= l < 26 implies k.num - (#[trigger] k.chars[l]).num <= 5
        - count_letter(a, l) by {
        lemma_sum_le(k.chars, a, l, 26);
    }
}

/// The position `p` of the answer holds the guessed letter exactly when the
/// result there is green.
proof fn lemma_tile_green(g: Seq<char>, a: Seq<char>, p: int)
    requires
        0 <= p < 5,
        g.len() == 5,
        a.len() == 5,
    ensures
        (tile(g, a, p) == 'g') == (g[p] == a[p]),
        tile(g, a, p) == 'g' || tile(g, a, p) == 'y' || tile(g, a, p) == 'b',
{
}

/// The hypotheses of one tile of a true result.
pub open spec fn tile_hyps(t: Tally, g: Seq<char>, a: Seq<char>, i: int) -> bool {
    &&& five_letters(g)
    &&& five_letters(a)
    &&& 0 <= i < 5
    &&& tally_inv(t, g, feedback(g, a), i)
    &&& agrees_with(t.know, t.black, a)
    &&& forall|m: int| 0 <= m < 26 ==> #[trigger] t.black[m] == black_upto(g, a, m, i)
}

/// Per-letter part of `lemma_sound_tile`: counts and black results.
proof fn lemma_sound_tile_count(t: Tally, g: Seq<char>, a: Seq<char>, i: int, m: int)
    requires
        tile_hyps(t, g, a, i),
        0 <= m < 26,
    ensures
        ({
            let r = feedback(g, a);
            let t2 = tally_step(t, offset(g[i]), i, r[i]);
            &&& t2.know.chars[m].num <= count_letter(a, m)
            &&& t2.know.chars[m].is_black ==> t2.know.chars[m].num >= count_letter(a, m)
                || t2.black[m] > 0
            &&& t2.black[m] == black_upto(g, a, m, i + 1)
        }),
{
    let r = feedback(g, a);
    let l = offset(g[i]);
    let t2 = tally_step(t, l, i, r[i]);
    let k = t.know;
    assert(is_lower(g[i]));
    assert(r[i] == tile(g, a, i));
    crate::knowledge::lemma_tally_step(t, g, r, i);
    assert(k.chars[m].num <= count_letter(a, m));
    assert(t.black[m] == black_upto(g, a, m, i));
    if m == l {
        lemma_seen_gy(g, a, l, i + 1);
        lemma_gy_bound(g, a, l, i + 1);
        assert(t2.gy[l] == count5(crate::knowledge::seen_gy(g, r, i + 1, l)));
    }
}

/// Per-letter part of `lemma_sound_tile`: excluded positions.
proof fn lemma_sound_tile_held(t: Tally, g: Seq<char>, a: Seq<char>, i: int, m: int)
    requires
        tile_hyps(t, g, a, i),
        0 <= m < 26,
    ensures
        ({
            let r = feedback(g, a);
            let t2 = tally_step(t, offset(g[i]), i, r[i]);
            count5(held(t2.know, a, m)) <= t2.know.chars[m].num_green
        }),
{
    let r = feedback(g, a);
    let l = offset(g[i]);
    let t2 = tally_step(t, l, i, r[i]);
    let k = t.know;
    let k2 = t2.know;
    assert(is_lower(g[i]));
    assert(r[i] == tile(g, a, i));
    assert(count5(held(k, a, m)) <= k.chars[m].num_green);
    assert(k.chars[m].yellow.len() == 5);
    let h1 = held(k, a, m);
    let h2 = held(k2, a, m);
    if r[i] == 'g' {
        assert(g[i] == a[i]);
        if !k.green[i] && m == l && !in5(h1, i) {
            assert(h2 =~= h1.update(i, true));
        } else if !k.green[i] && m == l {
            assert(h2 =~= h1);
        } else {
            assert(h2 =~= h1);
        }
    } else {
        assert(g[i] != a[i]);
        assert(!has_at(a, i, l));
        assert(h2 =~= h1);
    }
}

/// One tile of a true result keeps the answer possible and the knowledge
/// true of it.
pub proof fn lemma_sound_tile(t: Tally, g: Seq<char>, a: Seq<char>, i: int)
    requires
        tile_hyps(t, g, a, i),
    ensures
        ({
            let r = feedback(g, a);
            let l = offset(g[i]);
            let t2 = tally_step(t, l, i, r[i]);
            &&& agrees_with(t2.know, t2.black, a)
            &&& forall|m: int| 0 <= m < 26 ==> #[trigger] t2.black[m] == black_upto(g, a, m, i + 1)
            &&& tile_keep(g, i, l, r[i], crate::model::guess_blacks(g, r, l), a)
        }),
{
    let r = feedback(g, a);
    let l = offset(g[i]);
    let t2 = tally_step(t, l, i, r[i]);
    let k2 = t2.know;
    assert(is_lower(g[i]));
    assert forall|m: int| 0 <= m < 26 implies (#[trigger] k2.chars[m]).num <= count_letter(a, m)
        && (k2.chars[m].is_black ==> k2.chars[m].num >= count_letter(a, m) || t2.black[m] > 0)
        && count5(held(k2, a, m)) <= k2.chars[m].num_green && t2.black[m] == black_upto(
        g,
        a,
        m,
        i + 1,
    ) by {
        lemma_sound_tile_count(t, g, a, i, m);
        lemma_sound_tile_held(t, g, a, i, m);
    }
    assert forall|m: int| 0 <= m < 26 implies #[trigger] t2.black[m] == black_upto(g, a, m, i + 1)
        by {
        lemma_sound_tile_count(t, g, a, i, m);
    }
    assert(r[i] == tile(g, a, i));
    lemma_sound_tile_count(t, g, a, i, l);
    if r[i] == 'b' {
        assert(g[i] != a[i]);
        assert(!has_at(a, i, l));
        lemma_guess_blacks(g, a, l, 5);
        lemma_black_exact(g, a, l, i);
        crate::feedback::lemma_gy_split(g, a, l, 5);
    } else if r[i] == 'y' {
        assert(g[i] != a[i]);
        crate::feedback::lemma_gy_bound(g, a, l, i + 1);
        assert(gy_upto(g, a, l, i + 1) >= 1);
    }
}

proof fn lemma_black_witness(g: Seq<char>, a: Seq<char>, l: int, k: int)
    requires
        black_upto(g, a, l, k) > 0,
    ensures
        exists|p: int| 0 <= p < k && has_at(g, p, l) && tile(g, a, p) == 'b',
    decreases k,
{
    if k > 0 && !(has_at(g, k - 1, l) && tile(g, a, k - 1) == 'b') {
        lemma_black_witness(g, a, l, k - 1);
    }
}

/// At the end of a true result, the black results of the guess have
/// settled the counts of their letters.
pub proof fn lemma_sound_tiles_end(t: Tally, g: Seq<char>, a: Seq<char>)
    requires
        five_letters(g),
        five_letters(a),
        tally_inv(t, g, feedback(g, a), 5),
        agrees_with(t.know, t.black, a),
        forall|m: int| 0 <= m < 26 ==> #[trigger] t.black[m] == black_upto(g, a, m, 5),
    ensures
        agrees(t.know, a),
{
    let k = t.know;
    assert forall|l: int| 0 <= l < 26 && (#[trigger] k.chars[l]).is_black implies k.chars[l].num
        >= count_letter(a, l) by {
        if t.black[l] > 0 {
            lemma_black_witness(g, a, l, 5);
            let p = choose|p: int| 0 <= p < 5 && has_at(g, p, l) && tile(g, a, p) == 'b';
            lemma_black_exact(g, a, l, p);
            lemma_seen_gy(g, a, l, 5);
            assert(t.gy[l] == count5(crate::knowledge::seen_gy(g, feedback(g, a), 5, l)));
            assert(t.gy[l] <= k.chars[l].num);
        }
    }
}

/// Forced green positions of a letter hold it in a true answer.
proof fn lemma_sound_forced(k: KnowModel, a: Seq<char>, l: int)
    requires
        know_wf(k),
        agrees(k, a),
        five_letters(a),
        0 <= l < 26,
        greens_forced(k, l),
    ensures
        green_keep(closed_yellow(k, l), l, a),
{
    let y = closed_yellow(k, l);
    let h = Seq::new(5, |p: int| has_at(a, p, l));
    let hd = held(k, a, l);
    lemma_count5_has(a, l);
    assert(count5(hd) <= k.chars[l].num_green);
    assert(k.chars[l].num <= count_letter(a, l));
    assert forall|p: int| 0 <= p < 5 && !in5(y, p) implies has_at(a, p, l) by {
        if !has_at(a, p, l) {
            let nyh = Seq::new(5, |x: int| !in5(y, x) && has_at(a, x, l));
            assert(count5(h) == count5(hd) + count5(nyh));
            assert(count5(nyh) + count5(y) <= 4) by {
                assert(!in5(nyh, p) && !in5(y, p));
            }
        }
    }
}

/// The count filter keeps a true answer.
proof fn lemma_sound_count(k: KnowModel, a: Seq<char>, l: int)
    requires
        know_wf(k),
        agrees(k, a),
        five_letters(a),
        storable(a),
        0 <= l < 26,
    ensures
        count_keep(k.chars[l].num, max_count(k, l), a, l),
{
    let y = closed_yellow(k, l);
    let h = Seq::new(5, |p: int| has_at(a, p, l));
    let hd = held(k, a, l);
    let c = count_letter(a, l);
    lemma_count5_has(a, l);
    lemma_agrees_safe(k, Seq::new(26, |x: int| 0nat), a);
    crate::model::lemma_refine_know(k, l);
    assert(count5(hd) <= k.chars[l].num_green);
    assert(k.chars[l].num <= c);
    assert(c <= 3);
    assert(k.num - k.chars[l].num <= 5 - c);
    let yh = Seq::new(5, |x: int| in5(y, x) && !has_at(a, x, l));
    assert(count5(y) == count5(hd) + count5(yh));
    assert(count5(yh) + count5(h) <= 5);
    assert(num_green_after(k, l) >= k.chars[l].num_green);
    if k.chars[l].is_black {
        assert(k.chars[l].num >= c);
    }
}

/// Per-letter part of `lemma_sound_refine`.
proof fn lemma_sound_refine_held(k: KnowModel, a: Seq<char>, l: int, m: int)
    requires
        know_wf(k),
        agrees(k, a),
        five_letters(a),
        0 <= l < 26,
        0 <= m < 26,
    ensures
        count5(held(refine_know(k, l), a, m)) <= refine_know(k, l).chars[m].num_green,
{
    let k2 = refine_know(k, l);
    let y = closed_yellow(k, l);
    let h1 = held(k, a, m);
    let h2 = held(k2, a, m);
    crate::model::lemma_refine_know(k, l);
    assert(count5(h1) <= k.chars[m].num_green);
    assert(k.chars[m].yellow.len() == 5);
    assert(forall|j: int| 0 <= j < 5 && #[trigger] in5(k.green, j) ==> in5(y, j));
    if greens_forced(k, l) {
        lemma_sound_forced(k, a, l);
        if m == l {
            let ny = Seq::new(5, |x: int| !in5(y, x));
            assert forall|x: int| 0 <= x < 5 implies #[trigger] in5(h2, x) == (in5(h1, x) || in5(ny, x)) by {
                if !in5(y, x) {
                    assert(has_at(a, x, l));
                }
            }
            assert(count5(h2) <= count5(h1) + count5(ny));
        } else {
            assert forall|x: int| 0 <= x < 5 implies #[trigger] in5(h2, x) == in5(h1, x) by {
                if !in5(y, x) {
                    assert(has_at(a, x, l));
                }
            }
            assert(count5(h2) == count5(h1));
        }
    } else {
        assert(h2 =~= h1);
    }
}

/// One refinement step keeps a true answer possible and the knowledge true
/// of it.
pub proof fn lemma_sound_refine(k: KnowModel, a: Seq<char>, l: int)
    requires
        know_wf(k),
        agrees(k, a),
        five_letters(a),
        storable(a),
        0 <= l < 26,
    ensures
        agrees(refine_know(k, l), a),
        greens_forced(k, l) ==> green_keep(closed_yellow(k, l), l, a),
        count_keep(k.chars[l].num, max_count(k, l), a, l),
{
    let k2 = refine_know(k, l);
    if greens_forced(k, l) {
        lemma_sound_forced(k, a, l);
    }
    lemma_sound_count(k, a, l);
    assert forall|m: int| 0 <= m < 26 implies count5(held(k2, a, m)) <= (
    #[trigger] k2.chars[m]).num_green by {
        lemma_sound_refine_held(k, a, l, m);
    }
}

/// The tiles of a true result keep the answer possible, read every tile,
/// and keep the knowledge true of the answer.
proof fn lemma_sound_tiles(
    ws: Seq<Seq<char>>,
    t0: Tally,
    p0: Seq<bool>,
    g: Seq<char>,
    a: Seq<char>,
    j: int,
    k: int,
)
    requires
        five_letters(g),
        five_letters(a),
        0 <= j < p0.len(),
        j < ws.len(),
        p0[j],
        ws[j] == a,
        tally_inv(t0, g, feedback(g, a), 0),
        agrees_with(t0.know, t0.black, a),
        forall|m: int| 0 <= m < 26 ==> #[trigger] t0.black[m] == 0,
        0 <= k <= 5,
    ensures
        ({
            let res = tiles(ws, t0, p0, g, feedback(g, a), k);
            &&& !res.2
            &&& res.1.len() == p0.len()
            &&& res.1[j]
            &&& tally_inv(res.0, g, feedback(g, a), k)
            &&& agrees_with(res.0.know, res.0.black, a)
            &&& forall|m: int| 0 <= m < 26 ==> #[trigger] res.0.black[m] == black_upto(g, a, m, k)
        }),
    decreases k,
{
    let r = feedback(g, a);
    if k > 0 {
        lemma_sound_tiles(ws, t0, p0, g, a, j, k - 1);
        let prev = tiles(ws, t0, p0, g, r, k - 1);
        assert(tile_hyps(prev.0, g, a, k - 1));
        lemma_sound_tile(prev.0, g, a, k - 1);
        crate::knowledge::lemma_tally_step(prev.0, g, r, k - 1);
        assert(is_lower(g[k - 1]));
        assert(r[k - 1] == tile(g, a, k - 1));
        assert(crate::model::tile_ok(g[k - 1], r[k - 1]));
    }
}

/// Refinement keeps a true answer possible and the knowledge true of it.
proof fn lemma_sound_refine_all(
    ws: Seq<Seq<char>>,
    k: KnowModel,
    p: Seq<bool>,
    i: int,
    j: int,
    a: Seq<char>,
)
    requires
        know_wf(k),
        agrees(k, a),
        five_letters(a),
        storable(a),
        0 <= j < p.len(),
        j < ws.len(),
        p[j],
        ws[j] == a,
        0 <= i <= 26,
    ensures
        crate::model::refine(ws, k, p, i).1[j],
        crate::model::refine(ws, k, p, i).1.len() == p.len(),
        agrees(crate::model::refine(ws, k, p, i).0, a),
        know_wf(crate::model::refine(ws, k, p, i).0),
    decreases 5 - count5(k.green), 26 - i,
{
    if i < 26 {
        let k2 = refine_know(k, i);
        let p2 = crate::model::refine_possible(ws, k, p, i);
        lemma_sound_refine(k, a, i);
        crate::model::lemma_refine_know(k, i);
        if greens_forced(k, i) {
            crate::model::lemma_forced_grows(k, i);
            lemma_sound_refine_all(ws, k2, p2, 0, j, a);
        } else {
            lemma_sound_refine_all(ws, k2, p2, i + 1, j, a);
        }
    }
}

/// A string of ASCII characters takes one byte per character.
pub proof fn lemma_ascii_len(s: Seq<char>)
    requires
        forall|i: int| 0 <= i < s.len() ==> (#[trigger] s[i]) as u32 <= 0x7f,
    ensures
        crate::model::byte_len(s) == s.len(),
    decreases s.len(),
{
    if s.len() > 0 {
        lemma_ascii_len(s.drop_first());
        assert(s[0] as u32 <= 0x7f);
    }
}

/// Before any guess, the knowledge is true of every answer.
pub proof fn law_initial_agrees(a: Seq<char>)
    ensures
        agrees(initial_know(), a),
{
    let k = initial_know();
    assert forall|l: int| 0 <= l < 26 implies count5(held(k, a, l)) <= (
    #[trigger] k.chars[l]).num_green by {
        assert(count5(held(k, a, l)) == 0);
    }
}

/// Given the true result of a guess against an answer that is still
/// possible, `give` keeps that answer possible, keeps the knowledge true of
/// it, stays within its arithmetic, and reports neither a malformed input
/// nor the loss of every answer.
pub proof fn law_true_result_keeps_answer(m: SolverModel, g: Seq<char>, j: int)
    requires
        know_wf(m.know),
        0 <= j < m.possible.len(),
        m.possible.len() == m.words.len(),
        m.possible[j],
        five_letters(m.words[j]),
        storable(m.words[j]),
        agrees(m.know, m.words[j]),
        five_letters(g),
    ensures
        ({
            let a = m.words[j];
            let res = feedback(g, a);
            let (m2, out) = crate::model::give_spec(m, g, res);
            &&& crate::model::give_safe(m, g, res)
            &&& m2.possible[j]
            &&& agrees(m2.know, a)
            &&& know_wf(m2.know)
            &&& out != Err::<Option<Seq<char>>, crate::model::StateError>(
                crate::model::StateError::NoAnswer,
            )
            &&& out != Err::<Option<Seq<char>>, crate::model::StateError>(
                crate::model::StateError::InvalidInput,
            )
        }),
{
    let a = m.words[j];
    let res = feedback(g, a);
    let t0 = crate::knowledge::fresh_tally(m.know);
    lemma_ascii_len(g);
    assert forall|i: int| 0 <= i < res.len() implies (#[trigger] res[i]) as u32 <= 0x7f by {
        assert(res[i] == tile(g, a, i));
    }
    lemma_ascii_len(res);
    crate::knowledge::lemma_tally_start(m.know, g, res);
    assert(t0.black == Seq::new(26, |l: int| 0nat));
    lemma_sound_tiles(m.words, t0, m.possible, g, a, j, 5);
    let t = crate::model::after_tiles(m, g, res);
    lemma_sound_tiles_end(t.0, g, a);
    lemma_agrees_safe(t.0.know, t.0.black, a);
    lemma_sound_refine_all(m.words, t.0.know, t.1, 0, j, a);
    let (m2, out) = crate::model::give_spec(m, g, res);
    crate::model::lemma_one_marked(m2.possible, j, m2.possible.len() as int);
}

/// State after giving each guess of `gs` in turn with its true result
/// against answer `a`.
pub open spec fn play(m: SolverModel, gs: Seq<Seq<char>>, a: Seq<char>) -> SolverModel
    decreases gs.len(),
{
    if gs.len() == 0 {
        m
    } else {
        play(crate::model::give_spec(m, gs[0], feedback(gs[0], a)).0, gs.drop_first(), a)
    }
}

/// Over a whole game of true results, the answer stays possible and the
/// knowledge stays true of it.
pub proof fn law_game_keeps_answer(m: SolverModel, gs: Seq<Seq<char>>, j: int)
    requires
        know_wf(m.know),
        0 <= j < m.possible.len(),
        m.possible.len() == m.words.len(),
        m.possible[j],
        five_letters(m.words[j]),
        storable(m.words[j]),
        agrees(m.know, m.words[j]),
        forall|i: int| 0 <= i < gs.len() ==> five_letters(#[trigger] gs[i]),
    ensures
        play(m, gs, m.words[j]).possible[j],
        play(m, gs, m.words[j]).words == m.words,
        agrees(play(m, gs, m.words[j]).know, m.words[j]),
    decreases gs.len(),
{
    if gs.len() > 0 {
        let a = m.words[j];
        assert(five_letters(gs[0]));
        law_true_result_keeps_answer(m, gs[0], j);
        crate::laws::law_give_narrows(m, gs[0], feedback(gs[0], a));
        let m2 = crate::model::give_spec(m, gs[0], feedback(gs[0], a)).0;
        assert forall|i: int| 0 <= i < gs.drop_first().len() implies five_letters(
            #[trigger] gs.drop_first()[i],
        ) by {
            assert(gs.drop_first()[i] == gs[i + 1]);
        }
        law_game_keeps_answer(m2, gs.drop_first(), j);
    }
}

/// Reading tiles never lowers a known count.
proof fn lemma_tally_tiles_grow(t0: Tally, w: Seq<char>, r: Seq<char>, k: int, l: int)
    requires
        0 <= l < 26,
        t0.know.chars.len() == 26,
    ensures
        crate::model::tally_tiles(t0, w, r, k).0.know.chars[l].num >= t0.know.chars[l].num,
        crate::model::tally_tiles(t0, w, r, k).0.know.chars.len() == 26,
    decreases k,
{
    if k > 0 {
        lemma_tally_tiles_grow(t0, w, r, k - 1, l);
    }
}

/// Refinement leaves the known counts as they are.
proof fn lemma_refine_keeps_num(ws: Seq<Seq<char>>, k: KnowModel, p: Seq<bool>, i: int, l: int)
    requires
        0 <= l < 26,
        k.chars.len() == 26,
    ensures
        crate::model::refine(ws, k, p, i).0.chars[l].num == k.chars[l].num,
    decreases 5 - count5(k.green), 26 - i,
{
    if 0 <= i < 26 {
        if greens_forced(k, i) {
            crate::model::lemma_forced_grows(k, i);
            lemma_refine_keeps_num(ws, refine_know(k, i), crate::model::refine_possible(ws, k, p, i), 0, l);
        } else {
            lemma_refine_keeps_num(
                ws,
                refine_know(k, i),
                crate::model::refine_possible(ws, k, p, i),
                i + 1,
                l,
            );
        }
    }
}

/// With true results, the count of a letter seen black is its count in the
/// answer, and no later true result changes it.
pub proof fn law_black_count_settled(m: SolverModel, g: Seq<char>, j: int, l: int)
    requires
        know_wf(m.know),
        0 <= j < m.possible.len(),
        m.possible.len() == m.words.len(),
        m.possible[j],
        five_letters(m.words[j]),
        storable(m.words[j]),
        agrees(m.know, m.words[j]),
        five_letters(g),
        0 <= l < 26,
        m.know.chars[l].is_black,
    ensures
        m.know.chars[l].num == count_letter(m.words[j], l),
        crate::model::give_spec(m, g, feedback(g, m.words[j])).0.know.chars[l].num
            == m.know.chars[l].num,
{
    let a = m.words[j];
    let res = feedback(g, a);
    law_true_result_keeps_answer(m, g, j);
    let t0 = crate::knowledge::fresh_tally(m.know);
    crate::model::lemma_tally_tiles(m.words, t0, m.possible, g, res, 5);
    lemma_tally_tiles_grow(t0, g, res, 5, l);
    let t = crate::model::after_tiles(m, g, res);
    lemma_ascii_len(g);
    assert forall|i: int| 0 <= i < res.len() implies (#[trigger] res[i]) as u32 <= 0x7f by {
        assert(res[i] == tile(g, a, i));
    }
    lemma_ascii_len(res);
    lemma_sound_tiles(m.words, t0, m.possible, g, a, j, 5);
    lemma_refine_keeps_num(m.words, t.0.know, t.1, 0, l);
}

} // verus!
