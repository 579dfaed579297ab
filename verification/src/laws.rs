//! Properties of the solver that span its operations.

use vstd::prelude::*;
use crate::knowledge::{KnowModel, Tally, in5};
use crate::words::{count_letter, has_at, offset};
use crate::model::{
    SolverModel, StateError, best_word, filter, give_spec, greens_forced, lemma_forced_grows, mask_count,
    marked_words, possible_words, refine, refine_know, refine_possible, tiles,
};

verus! {

/// Filtering keeps the length and only unmarks.
proof fn lemma_filter_narrows(ws: Seq<Seq<char>>, p: Seq<bool>, f: spec_fn(Seq<char>) -> bool)
    ensures
        filter(ws, p, f).len() == p.len(),
        forall|j: int| 0 <= j < p.len() && #[trigger] filter(ws, p, f)[j] ==> p[j],
{
}

/// The tiles of a guess only unmark possible answers.
proof fn lemma_tiles_narrow(
    ws: Seq<Seq<char>>,
    t0: Tally,
    p0: Seq<bool>,
    w: Seq<char>,
    r: Seq<char>,
    k: int,
)
    ensures
        tiles(ws, t0, p0, w, r, k).1.len() == p0.len(),
        forall|j: int| 0 <= j < p0.len() && #[trigger] tiles(ws, t0, p0, w, r, k).1[j] ==> p0[j],
    decreases k,
{
    if k > 0 {
        lemma_tiles_narrow(ws, t0, p0, w, r, k - 1);
        let prev = tiles(ws, t0, p0, w, r, k - 1);
        if !prev.2 && crate::model::tile_ok(w[k - 1], r[k - 1]) {
            let l = crate::words::offset(w[k - 1]);
            let t2 = crate::knowledge::tally_step(prev.0, l, k - 1, r[k - 1]);
            lemma_filter_narrows(
                ws,
                prev.1,
                |v: Seq<char>|
                    crate::model::tile_keep(
                        w,
                        k - 1,
                        l,
                        r[k - 1],
                        crate::model::guess_blacks(w, r, l),
                        v,
                    ),
            );
        }
    }
}

/// Every known green position belongs to the position set of each of the
/// first `i` letters.
pub open spec fn greens_closed(k: KnowModel, i: int) -> bool {
    forall|l: int, j: int|
        0 <= l < i && 0 <= j < 5 && #[trigger] in5(k.green, j) ==> in5(
            #[trigger] k.chars[l].yellow,
            j,
        )
}

/// Refinement only unmarks possible answers, and leaves every known green
/// position in the position set of every letter.
proof fn lemma_refine_props(ws: Seq<Seq<char>>, k: KnowModel, p: Seq<bool>, i: int)
    requires
        0 <= i <= 26,
        k.chars.len() == 26,
        greens_closed(k, i),
    ensures
        refine(ws, k, p, i).1.len() == p.len(),
        forall|j: int| 0 <= j < p.len() && #[trigger] refine(ws, k, p, i).1[j] ==> p[j],
        greens_closed(refine(ws, k, p, i).0, 26),
        refine(ws, k, p, i).0.chars.len() == 26,
    decreases 5 - crate::knowledge::count5(k.green), 26 - i,
{
    if i < 26 {
        let k2 = refine_know(k, i);
        let p2 = refine_possible(ws, k, p, i);
        let y = crate::model::closed_yellow(k, i);
        let p1 = if greens_forced(k, i) {
            filter(ws, p, |v: Seq<char>| crate::model::green_keep(y, i, v))
        } else {
            p
        };
        lemma_filter_narrows(ws, p, |v: Seq<char>| crate::model::green_keep(y, i, v));
        lemma_filter_narrows(
            ws,
            p1,
            |v: Seq<char>|
                crate::model::count_keep(
                    k.chars[i].num,
                    crate::model::max_count(k, i),
                    v,
                    i,
                ),
        );
        assert(p2 == filter(
            ws,
            p1,
            |v: Seq<char>|
                crate::model::count_keep(
                    k.chars[i].num,
                    crate::model::max_count(k, i),
                    v,
                    i,
                ),
        ));
        if greens_forced(k, i) {
            lemma_forced_grows(k, i);
            lemma_refine_props(ws, k2, p2, 0);
        } else {
            assert(greens_closed(k2, i + 1));
            lemma_refine_props(ws, k2, p2, i + 1);
        }
    }
}

/// `give` only removes possible answers; it never adds one.
pub proof fn law_give_narrows(m: SolverModel, w: Seq<char>, r: Seq<char>)
    requires
        m.know.chars.len() == 26,
    ensures
        give_spec(m, w, r).0.words == m.words,
        give_spec(m, w, r).0.possible.len() == m.possible.len(),
        forall|j: int|
            0 <= j < m.possible.len() && #[trigger] give_spec(m, w, r).0.possible[j] ==> m.possible[j],
{
    let t = crate::model::after_tiles(m, w, r);
    let n = if w.len() <= r.len() { w.len() } else { r.len() };
    lemma_tiles_narrow(m.words, crate::knowledge::fresh_tally(m.know), m.possible, w, r, n as int);
    crate::model::lemma_tally_tiles(
        m.words,
        crate::knowledge::fresh_tally(m.know),
        m.possible,
        w,
        r,
        n as int,
    );
    if crate::model::byte_len(w) == 5 && crate::model::byte_len(r) == 5 && !t.2 {
        lemma_tally_chars(crate::knowledge::fresh_tally(m.know), w, r, n as int);
        lemma_refine_props(m.words, t.0.know, t.1, 0);
    }
}

/// The tally keeps one entry per letter.
proof fn lemma_tally_chars(t0: Tally, w: Seq<char>, r: Seq<char>, k: int)
    requires
        t0.know.chars.len() == 26,
    ensures
        crate::model::tally_tiles(t0, w, r, k).0.know.chars.len() == 26,
    decreases k,
{
    if k > 0 {
        lemma_tally_chars(t0, w, r, k - 1);
    }
}

/// After a `give` that reaches its refinement (the guess and result are
/// well formed), every known green position is excluded for every letter's
/// not yet placed occurrences.
pub proof fn law_greens_excluded(m: SolverModel, w: Seq<char>, r: Seq<char>)
    requires
        m.know.chars.len() == 26,
        give_spec(m, w, r).1 != Err::<Option<Seq<char>>, StateError>(StateError::InvalidInput),
    ensures
        greens_closed(give_spec(m, w, r).0.know, 26),
{
    let t = crate::model::after_tiles(m, w, r);
    let n = if w.len() <= r.len() { w.len() } else { r.len() };
    crate::model::lemma_tally_tiles(
        m.words,
        crate::knowledge::fresh_tally(m.know),
        m.possible,
        w,
        r,
        n as int,
    );
    lemma_tally_chars(crate::knowledge::fresh_tally(m.know), w, r, n as int);
    lemma_refine_props(m.words, t.0.know, t.1, 0);
}

/// The words marked among the first `m` number `mask_count(p, m)`.
pub proof fn lemma_marked_len(ws: Seq<Seq<char>>, p: Seq<bool>, m: int)
    requires
        0 <= m <= p.len(),
    ensures
        marked_words(ws, p, m).len() == mask_count(p, m),
    decreases m,
{
    if m > 0 {
        lemma_marked_len(ws, p, m - 1);
    }
}

proof fn lemma_single_marked(ws: Seq<Seq<char>>, p: Seq<bool>, j: int, m: int)
    requires
        0 <= j < m <= p.len(),
        p[j],
        mask_count(p, m) == 1,
    ensures
        marked_words(ws, p, m) == seq![ws[j]],
    decreases m,
{
    if m - 1 > j {
        crate::model::lemma_one_marked(p, j, m - 1);
        lemma_single_marked(ws, p, j, m - 1);
    } else {
        lemma_marked_len(ws, p, m - 1);
        assert(marked_words(ws, p, m - 1) =~= Seq::<Seq<char>>::empty());
        assert(marked_words(ws, p, m) =~= seq![ws[j]]);
    }
}

/// When `give` names the answer, it is the only possible answer left; when
/// it names none, at least two are left; when it finds none, none is.
pub proof fn law_give_outcome(m: SolverModel, w: Seq<char>, r: Seq<char>)
    ensures
        ({
            let (m2, out) = give_spec(m, w, r);
            &&& (out matches Ok(Some(a)) ==> possible_words(m2) == seq![a])
            &&& (out == Ok::<Option<Seq<char>>, StateError>(None) ==> possible_words(m2).len() >= 2)
            &&& (out == Err::<Option<Seq<char>>, StateError>(StateError::NoAnswer)
                ==> possible_words(m2).len() == 0)
        }),
{
    let (m2, out) = give_spec(m, w, r);
    let p = m2.possible;
    let n = p.len() as int;
    lemma_marked_len(m2.words, p, n);
    if out matches Ok(Some(a)) {
        let c = mask_count(p, n);
        if c == 1 {
            let j = choose|j: int| 0 <= j < p.len() && p[j];
            if !(0 <= j < p.len() && p[j]) {
                assert forall|x: int| 0 <= x < n implies !p[x] by {
                    if p[x] {
                        assert(0 <= x < p.len() && p[x]);
                    }
                }
                crate::model::lemma_none_marked(p, n);
            }
            lemma_single_marked(m2.words, p, j, n);
        }
    }
}

/// A guess or result that is not five bytes long changes nothing.
pub proof fn law_malformed_unchanged(m: SolverModel, w: Seq<char>, r: Seq<char>)
    requires
        crate::model::byte_len(w) != 5 || crate::model::byte_len(r) != 5,
    ensures
        give_spec(m, w, r) == (m, Err::<Option<Seq<char>>, StateError>(StateError::InvalidInput)),
{
}

/// `search` has one answer on a state: no two words are both the first
/// word of the list with the highest score.
pub proof fn law_best_word_unique(m: SolverModel, b1: int, b2: int)
    requires
        best_word(m, b1),
        best_word(m, b2),
    ensures
        b1 == b2,
{
    if b1 < b2 {
        assert(crate::model::score(m, m.words[b1]) <= crate::model::score(m, m.words[b2]));
        assert(crate::model::score(m, m.words[b2]) <= crate::model::score(m, m.words[b1]));
    } else if b2 < b1 {
        assert(crate::model::score(m, m.words[b1]) <= crate::model::score(m, m.words[b2]));
        assert(crate::model::score(m, m.words[b2]) <= crate::model::score(m, m.words[b1]));
    }
}

/// The tiles before `k`, when no malformed tile stopped the guess, are well
/// formed and each keeps every word still possible.
proof fn lemma_tiles_keep(
    ws: Seq<Seq<char>>,
    t0: Tally,
    p0: Seq<bool>,
    w: Seq<char>,
    r: Seq<char>,
    k: int,
)
    requires
        !tiles(ws, t0, p0, w, r, k).2,
    ensures
        forall|i: int| 0 <= i < k ==> #[trigger] crate::model::tile_ok(w[i], r[i]),
        forall|i: int, j: int|
            0 <= i < k && 0 <= j < p0.len() && #[trigger] tiles(ws, t0, p0, w, r, k).1[j]
                ==> #[trigger] crate::model::tile_keep(
                w,
                i,
                offset(w[i]),
                r[i],
                crate::model::guess_blacks(w, r, offset(w[i])),
                ws[j],
            ),
    decreases k,
{
    if k > 0 {
        let prev = tiles(ws, t0, p0, w, r, k - 1);
        lemma_tiles_keep(ws, t0, p0, w, r, k - 1);
        lemma_tiles_narrow(ws, t0, p0, w, r, k - 1);
        let cur = tiles(ws, t0, p0, w, r, k);
        assert forall|i: int, j: int|
            0 <= i < k && 0 <= j < p0.len() && #[trigger] cur.1[j] implies #[trigger] crate::model::tile_keep(
            w,
            i,
            offset(w[i]),
            r[i],
            crate::model::guess_blacks(w, r, offset(w[i])),
            ws[j],
        ) by {
            assert(prev.1[j]);
        }
    }
}

/// Copies of letter `l` among the first `k` of guess `w`, every one black
/// in `r`, are all counted by `blacks_upto`.
proof fn lemma_all_copies_black(w: Seq<char>, r: Seq<char>, l: int, k: int)
    requires
        0 <= k <= w.len(),
        k <= r.len(),
        forall|p: int| 0 <= p < k && offset(w[p]) == l ==> r[p] == 'b',
    ensures
        crate::model::blacks_upto(w, r, l, k) == crate::words::count_upto(w, l, k),
    decreases k,
{
    if k > 0 {
        lemma_all_copies_black(w, r, l, k - 1);
    }
}

/// A letter that a word holds at position `i` is counted among its first
/// `k > i` letters.
proof fn lemma_held_counted(v: Seq<char>, l: int, i: int, k: int)
    requires
        has_at(v, i, l),
        i < k <= v.len(),
    ensures
        crate::words::count_upto(v, l, k) > 0,
    decreases k,
{
    if k - 1 > i {
        lemma_held_counted(v, l, i, k - 1);
    }
}

/// A guess that `give` does not refuse as malformed has five letters, and
/// its result five tiles.
proof fn lemma_accepted_lengths(m: SolverModel, w: Seq<char>, r: Seq<char>)
    requires
        give_spec(m, w, r).1 != Err::<Option<Seq<char>>, StateError>(StateError::InvalidInput),
    ensures
        crate::model::byte_len(w) == 5,
        crate::model::byte_len(r) == 5,
        !crate::model::after_tiles(m, w, r).2,
        w.len() == 5,
        r.len() == 5,
        forall|i: int| 0 <= i < 5 ==> #[trigger] crate::model::tile_ok(w[i], r[i]),
{
    let n = if w.len() <= r.len() { w.len() } else { r.len() };
    let t0 = crate::knowledge::fresh_tally(m.know);
    lemma_tiles_keep(m.words, t0, m.possible, w, r, n as int);
    crate::words::lemma_chars_le_bytes(w);
    crate::words::lemma_chars_le_bytes(r);
    if w.len() <= r.len() {
        assert forall|i: int| 0 <= i < w.len() implies (#[trigger] w[i]) as u32 <= 0x7f by {
            assert(crate::model::tile_ok(w[i], r[i]));
        }
        crate::soundness::lemma_ascii_len(w);
    } else {
        assert forall|i: int| 0 <= i < r.len() implies (#[trigger] r[i]) as u32 <= 0x7f by {
            assert(crate::model::tile_ok(w[i], r[i]));
        }
        crate::soundness::lemma_ascii_len(r);
    }
}

/// What each tile of an accepted guess `w` with result `r` tells of every
/// word that `give` leaves possible: a green letter stands at its position;
/// a yellow one is in the word but not at its position; a black one is not
/// at its position, and is not in the word at all when every copy of that
/// letter in the guess is black.
pub proof fn law_give_follows_tiles(m: SolverModel, w: Seq<char>, r: Seq<char>, i: int, j: int)
    requires
        m.know.chars.len() == 26,
        give_spec(m, w, r).1 != Err::<Option<Seq<char>>, StateError>(StateError::InvalidInput),
        0 <= i < 5,
        0 <= j < m.possible.len(),
        give_spec(m, w, r).0.possible[j],
    ensures
        r[i] == 'g' ==> has_at(m.words[j], i, offset(w[i])),
        r[i] == 'y' ==> !has_at(m.words[j], i, offset(w[i])) && count_letter(
            m.words[j],
            offset(w[i]),
        ) > 0,
        r[i] == 'b' ==> !has_at(m.words[j], i, offset(w[i])),
        r[i] == 'b' && (forall|p: int|
            0 <= p < 5 && #[trigger] offset(w[p]) == offset(w[i]) ==> r[p] == 'b')
            ==> count_letter(m.words[j], offset(w[i])) == 0,
{
    lemma_accepted_lengths(m, w, r);
    law_give_narrows(m, w, r);
    let t0 = crate::knowledge::fresh_tally(m.know);
    let t = crate::model::after_tiles(m, w, r);
    crate::model::lemma_tally_tiles(m.words, t0, m.possible, w, r, 5);
    lemma_tally_chars(t0, w, r, 5);
    lemma_tiles_narrow(m.words, t0, m.possible, w, r, 5);
    lemma_refine_props(m.words, t.0.know, t.1, 0);
    assert(t.1[j]);
    lemma_tiles_keep(m.words, t0, m.possible, w, r, 5);
    let l = offset(w[i]);
    let v = m.words[j];
    assert(crate::model::tile_keep(w, i, l, r[i], crate::model::guess_blacks(w, r, l), v));
    if r[i] == 'b' && (forall|p: int| 0 <= p < 5 && #[trigger] offset(w[p]) == l ==> r[p] == 'b') {
        lemma_all_copies_black(w, r, l, 5);
    }
    if r[i] == 'b' && count_letter(v, l) == 0 {
        if has_at(v, i, l) {
            lemma_held_counted(v, l, i, v.len() as int);
        }
    }
}

/// What each letter of a candidate guess `v` adds to its score. Nothing
/// when the letter was seen black, its count is settled (known count equal
/// to its largest count), or it cannot stand at position `q`. Otherwise the
/// smaller side of the split that "letter at `q`" makes of the possible
/// answers: with `a` the recorded number of possible answers holding the
/// letter there and `h` half the number of possible answers, `a` when
/// `a <= h` and `2h - a` when it is above; plus `h` when the letter has
/// more known occurrences than green positions, so that an occurrence
/// still has no place.
pub proof fn law_score_terms(m: SolverModel, v: Seq<char>, q: int)
    requires
        0 <= q < v.len(),
    ensures
        ({
            let l = offset(v[q]);
            let e = m.know.chars[l];
            let h = crate::model::possible_count(m) as int / 2;
            let a = m.answers[l + 26 * q] as int;
            let split = if a <= h {
                a
            } else {
                2 * h - a
            };
            let step = crate::model::score_upto(m, v, q + 1) - crate::model::score_upto(m, v, q);
            &&& (e.is_black || e.num == e.possible_max || in5(e.yellow, q)) ==> step == 0
            &&& !(e.is_black || e.num == e.possible_max || in5(e.yellow, q)) && e.num
                > e.num_green ==> step == split + h
            &&& !(e.is_black || e.num == e.possible_max || in5(e.yellow, q)) && e.num
                <= e.num_green ==> step == split
        }),
{
}

} // verus!
