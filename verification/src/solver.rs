//! The solver: the word list, the answers still possible, and what is known.

use vstd::prelude::*;
use std::collections::HashSet;
use crate::words::{
    char_count, chars_of, count_letter, count_upto, has_at, is_ascii_lowercase, is_lower,
    lemma_chars_le_bytes, offset, offset_from_a, storable,
};
use crate::knowledge::{
    Knowledge, Tally, add_position, count5, count_positions, fresh_tally, holds, in5,
    initial_know, know_wf, lemma_know_bounds, lemma_tally_start, lemma_tally_step, nats,
    positions, tally_inv, tally_step, union5, union_positions,
};
use crate::model::{
    MAX_WORDS, SolverModel, StateError, after_tiles, answer_count, answer_table, best_index, best_word,
    blacks_upto, byte_len, guess_blacks,
    count_keep, filter, give_safe, give_spec, green_after, green_keep, greens_forced, half_count,
    know_safe, lemma_answer_count_bound, lemma_forced_grows, lemma_mask_count_bound,
    lemma_refine_know, lemma_table_index, lemma_tally_tiles, lemma_tiles_stop, lemma_two_marked,
    marked_words, mask_count, outcome, possible_count, possible_words, refine, refine_know,
    refine_possible, result_view, score, score_upto, search_safe, tally_tiles, tile_keep, tile_ok,
    tiles,
};

verus! {

broadcast use vstd::std_specs::hash::group_hash_axioms;


/// Index of the table entry for letter `l` at position `q` (or, in the
/// count table, for letter `l` seen more than `q` times).
pub open spec fn pk(l: int, q: int) -> int {
    l + 26 * q
}

/// Word `j` is the first occurrence of its spelling in the list.
pub open spec fn first_occurrence(ws: Seq<Seq<char>>, j: int) -> bool {
    forall|i: int| 0 <= i < j ==> ws[i] != ws[j]
}

/// The state of a fresh solver over the word list `ws`.
pub open spec fn initial_model(ws: Seq<Seq<char>>) -> SolverModel {
    SolverModel {
        words: ws,
        possible: Seq::new(ws.len(), |j: int| first_occurrence(ws, j)),
        know: initial_know(),
        answers: Seq::new(130, |k: int| 0nat),
    }
}

/// The strings of a list, as character sequences.
pub open spec fn views(v: Seq<String>) -> Seq<Seq<char>> {
    v.map_values(|s: String| s@)
}

/// Holds the state of a game.
///
/// The possible answers and the letter tables are sets of words, each held
/// as a mask over the word list (`possible[j]`: word `j` is in the set).
/// vstd specifies `HashSet<String>` only where `String` obeys its key
/// model, which it does not state, and gives no intersection or
/// difference; a mask holds the same sets, in the order of the word list.
pub struct Solver {
    all_words: Vec<String>,
    word_chars: Vec<Vec<char>>,
    possible: Vec<bool>,
    char_and_pos_map: Vec<Vec<bool>>,
    char_and_num_map: Vec<Vec<bool>>,
    knowledge: Knowledge,
    answer_char_and_pos_map: Vec<usize>,
}

impl View for Solver {
    type V = SolverModel;

    closed spec fn view(&self) -> SolverModel {
        SolverModel {
            words: views(self.all_words@),
            possible: self.possible@,
            know: self.knowledge@,
            answers: nats(self.answer_char_and_pos_map@),
        }
    }
}

/// The entries marked by both `p` and `a`.
fn mask_and(p: &Vec<bool>, a: &Vec<bool>) -> (r: Vec<bool>)
    requires
        a@.len() == p@.len(),
    ensures
        r@ == Seq::new(p@.len(), |j: int| p@[j] && a@[j]),
{
    let mut r: Vec<bool> = Vec::new();
    for j in 0..p.len()
        invariant
            a@.len() == p@.len(),
            r@ == Seq::new(j as nat, |i: int| p@[i] && a@[i]),
    {
        r.push(p[j] && a[j]);
    }
    r
}

/// The entries marked by `p` and not by `a`.
fn mask_minus(p: &Vec<bool>, a: &Vec<bool>) -> (r: Vec<bool>)
    requires
        a@.len() == p@.len(),
    ensures
        r@ == Seq::new(p@.len(), |j: int| p@[j] && !a@[j]),
{
    let mut r: Vec<bool> = Vec::new();
    for j in 0..p.len()
        invariant
            a@.len() == p@.len(),
            r@ == Seq::new(j as nat, |i: int| p@[i] && !a@[i]),
    {
        r.push(p[j] && !a[j]);
    }
    r
}

/// The entries marked by `p` and `a` and not by `b`.
fn mask_and_minus(p: &Vec<bool>, a: &Vec<bool>, b: &Vec<bool>) -> (r: Vec<bool>)
    requires
        a@.len() == p@.len(),
        b@.len() == p@.len(),
    ensures
        r@ == Seq::new(p@.len(), |j: int| p@[j] && (a@[j] && !b@[j])),
{
    let mut r: Vec<bool> = Vec::new();
    for j in 0..p.len()
        invariant
            a@.len() == p@.len(),
            b@.len() == p@.len(),
            r@ == Seq::new(j as nat, |i: int| p@[i] && (a@[i] && !b@[i])),
    {
        r.push(p[j] && (a[j] && !b[j]));
    }
    r
}

/// Position `q` of `w` holds the letter of index `l`.
fn has_letter_at(w: &Vec<char>, q: usize, l: usize) -> (r: bool)
    requires
        storable(w@),
    ensures
        r == has_at(w@, q as int, l as int),
{
    q < w.len() && offset_from_a(w[q]) == l
}

/// Number of black results in `rs` for the letter `c` of guess `w`.
fn black_results(w: &Vec<char>, rs: &Vec<char>, c: char) -> (r: usize)
    ensures
        r == guess_blacks(w@, rs@, offset(c)),
{
    let mut r: usize = 0;
    for q in 0..w.len()
        invariant
            r == blacks_upto(w@, rs@, offset(c), q as int),
            r <= q,
    {
        if q < rs.len() && w[q] == c && rs[q] == 'b' {
            r = r + 1;
        }
    }
    r
}

/// Number of occurrences in `w` of the letter of index `l`.
fn letter_count(w: &Vec<char>, l: usize) -> (r: usize)
    requires
        storable(w@),
    ensures
        r == count_letter(w@, l as int),
{
    let mut r: usize = 0;
    for q in 0..w.len()
        invariant
            storable(w@),
            r == count_upto(w@, l as int, q as int),
            r <= q,
    {
        if offset_from_a(w[q]) == l {
            r = r + 1;
        }
    }
    r
}

/// The two words are spelt the same.
fn same_word(a: &Vec<char>, b: &Vec<char>) -> (r: bool)
    ensures
        r == (a@ == b@),
{
    if a.len() != b.len() {
        return false;
    }
    for q in 0..a.len()
        invariant
            a@.len() == b@.len(),
            forall|i: int| 0 <= i < q ==> a@[i] == b@[i],
    {
        if a[q] != b[q] {
            return false;
        }
    }
    assert(a@ =~= b@);
    true
}

} // verus!

verus! {

impl Solver {
    /// The word list is storable and not too long, and the tables describe it.
    pub closed spec fn wf_tables(&self) -> bool {
        let ws = views(self.all_words@);
        let n = self.all_words@.len();
        &&& self.word_chars@.len() == n
        &&& forall|j: int| 0 <= j < n ==> (#[trigger] self.word_chars@[j])@ == ws[j]
        &&& forall|j: int| 0 <= j < n ==> storable(#[trigger] ws[j])
        &&& self.char_and_pos_map@.len() == 130
        &&& forall|k: int| 0 <= k < 130 ==> (#[trigger] self.char_and_pos_map@[k])@.len() == n
        &&& forall|l: int, q: int, j: int|
            0 <= l < 26 && 0 <= q < 5 && 0 <= j < n ==> (#[trigger] self.char_and_pos_map@[pk(
                l,
                q,
            )]@[j]) == has_at(ws[j], q, l)
        &&& self.char_and_num_map@.len() == 78
        &&& forall|k: int| 0 <= k < 78 ==> (#[trigger] self.char_and_num_map@[k])@.len() == n
        &&& forall|l: int, c: int, j: int|
            0 <= l < 26 && 0 <= c < 3 && 0 <= j < n ==> (#[trigger] self.char_and_num_map@[pk(
                l,
                c,
            )]@[j]) == (count_letter(ws[j], l) > c)
        &&& self.answer_char_and_pos_map@.len() == 130
        &&& forall|k: int| 0 <= k < 130 ==> #[trigger] self.answer_char_and_pos_map@[k] <= n
    }

    /// The invariant of a solver: the tables describe the word list, the
    /// possible answers are first occurrences of their spelling, and the
    /// knowledge is well formed.
    pub closed spec fn wf(&self) -> bool {
        let ws = views(self.all_words@);
        let n = self.all_words@.len();
        &&& self.wf_tables()
        &&& self.possible@.len() == n
        &&& forall|j: int| 0 <= j < n && #[trigger] self.possible@[j] ==> first_occurrence(ws, j)
        &&& know_wf(self.knowledge@)
    }

    /// A solver over the word list `words`: every word is possible and
    /// nothing is known yet.
    pub fn new(words: Vec<String>) -> (s: Solver)
        requires
            forall|j: int| 0 <= j < words@.len() ==> storable(#[trigger] words@[j]@),
        ensures
            s.wf(),
            s@ == initial_model(views(words@)),
    {
        let n = words.len();
        let ghost ws = views(words@);
        let mut word_chars: Vec<Vec<char>> = Vec::new();
        for j in 0..n
            invariant
                n == words@.len(),
                ws == views(words@),
                word_chars@.len() == j,
                forall|i: int| 0 <= i < j ==> (#[trigger] word_chars@[i])@ == ws[i],
        {
            word_chars.push(chars_of(words[j].as_str()));
        }
        let mut possible: Vec<bool> = Vec::new();
        for j in 0..n
            invariant
                n == words@.len(),
                word_chars@.len() == n,
                forall|i: int| 0 <= i < n ==> (#[trigger] word_chars@[i])@ == ws[i],
                possible@ == Seq::new(j as nat, |i: int| first_occurrence(ws, i)),
        {
            let mut first = true;
            for i in 0..j
                invariant
                    j < n,
                    word_chars@.len() == n,
                    forall|m: int| 0 <= m < n ==> (#[trigger] word_chars@[m])@ == ws[m],
                    first == (forall|m: int| 0 <= m < i ==> ws[m] != ws[j as int]),
            {
                if same_word(&word_chars[i], &word_chars[j]) {
                    first = false;
                }
            }
            possible.push(first);
        }
        let mut pos_map: Vec<Vec<bool>> = Vec::new();
        for q in 0usize..5
            invariant
                n == word_chars@.len(),
                forall|i: int| 0 <= i < n ==> (#[trigger] word_chars@[i])@ == ws[i],
                forall|i: int| 0 <= i < n ==> storable(#[trigger] ws[i]),
                pos_map@.len() == 26 * q,
                forall|k: int| 0 <= k < pos_map@.len() ==> (#[trigger] pos_map@[k])@.len() == n,
                forall|l: int, q2: int, j: int|
                    0 <= l < 26 && 0 <= q2 < q && 0 <= j < n ==> (#[trigger] pos_map@[pk(
                        l,
                        q2,
                    )]@[j]) == has_at(ws[j], q2, l),
        {
            for l in 0usize..26
                invariant
                    q < 5,
                    n == word_chars@.len(),
                    forall|i: int| 0 <= i < n ==> (#[trigger] word_chars@[i])@ == ws[i],
                    forall|i: int| 0 <= i < n ==> storable(#[trigger] ws[i]),
                    pos_map@.len() == 26 * q + l,
                    forall|k: int| 0 <= k < pos_map@.len() ==> (#[trigger] pos_map@[k])@.len() == n,
                    forall|l2: int, q2: int, j: int|
                        0 <= l2 < 26 && 0 <= q2 < 5 && pk(l2, q2) < pos_map@.len() && 0 <= j < n
                            ==> (#[trigger] pos_map@[pk(l2, q2)]@[j]) == has_at(ws[j], q2, l2),
            {
                let mut row: Vec<bool> = Vec::new();
                for j in 0..n
                    invariant
                        n == word_chars@.len(),
                        forall|i: int| 0 <= i < n ==> (#[trigger] word_chars@[i])@ == ws[i],
                        forall|i: int| 0 <= i < n ==> storable(#[trigger] ws[i]),
                        row@ == Seq::new(j as nat, |i: int| has_at(ws[i], q as int, l as int)),
                {
                    row.push(has_letter_at(&word_chars[j], q, l));
                }
                pos_map.push(row);
            }
        }
        let mut num_map: Vec<Vec<bool>> = Vec::new();
        for c in 0usize..3
            invariant
                n == word_chars@.len(),
                forall|i: int| 0 <= i < n ==> (#[trigger] word_chars@[i])@ == ws[i],
                forall|i: int| 0 <= i < n ==> storable(#[trigger] ws[i]),
                num_map@.len() == 26 * c,
                forall|k: int| 0 <= k < num_map@.len() ==> (#[trigger] num_map@[k])@.len() == n,
                forall|l: int, c2: int, j: int|
                    0 <= l < 26 && 0 <= c2 < c && 0 <= j < n ==> (#[trigger] num_map@[pk(
                        l,
                        c2,
                    )]@[j]) == (count_letter(ws[j], l) > c2),
        {
            for l in 0usize..26
                invariant
                    c < 3,
                    n == word_chars@.len(),
                    forall|i: int| 0 <= i < n ==> (#[trigger] word_chars@[i])@ == ws[i],
                    forall|i: int| 0 <= i < n ==> storable(#[trigger] ws[i]),
                    num_map@.len() == 26 * c + l,
                    forall|k: int| 0 <= k < num_map@.len() ==> (#[trigger] num_map@[k])@.len() == n,
                    forall|l2: int, c2: int, j: int|
                        0 <= l2 < 26 && 0 <= c2 < 3 && pk(l2, c2) < num_map@.len() && 0 <= j < n
                            ==> (#[trigger] num_map@[pk(l2, c2)]@[j]) == (count_letter(ws[j], l2)
                            > c2),
            {
                let mut row: Vec<bool> = Vec::new();
                for j in 0..n
                    invariant
                        n == word_chars@.len(),
                        forall|i: int| 0 <= i < n ==> (#[trigger] word_chars@[i])@ == ws[i],
                        forall|i: int| 0 <= i < n ==> storable(#[trigger] ws[i]),
                        row@ == Seq::new(j as nat, |i: int| count_letter(ws[i], l as int) > c),
                {
                    row.push(letter_count(&word_chars[j], l) > c);
                }
                num_map.push(row);
            }
        }
        let answer_char_and_pos_map: Vec<usize> = vec![0; 130];
        let s = Solver {
            all_words: words,
            word_chars,
            possible,
            char_and_pos_map: pos_map,
            char_and_num_map: num_map,
            knowledge: Knowledge::new(),
            answer_char_and_pos_map,
        };
        assert(s@.possible =~= initial_model(ws).possible);
        assert(s@.answers =~= initial_model(ws).answers);
        s
    }
}

} // verus!

verus! {

impl Solver {
    /// Applies the tile at position `i` of guess `w` with results `rs`:
    /// letter index `l`, result `r`.
    fn apply_tile(
        &mut self,
        w: &Vec<char>,
        rs: &Vec<char>,
        gy: &mut Vec<usize>,
        black: &mut Vec<usize>,
        l: usize,
        i: usize,
        r: char,
    )
        requires
            old(self).wf(),
            know_wf(old(self)@.know),
            old(gy)@.len() == 26,
            old(black)@.len() == 26,
            l < 26,
            i < 5,
            i < w@.len(),
            l == offset(w@[i as int]),
            old(gy)@[l as int] < 5,
            old(black)@[l as int] < 5,
            r == 'b' || r == 'y' || r == 'g',
        ensures
            final(self).all_words == old(self).all_words,
            final(self).word_chars == old(self).word_chars,
            final(self).char_and_pos_map == old(self).char_and_pos_map,
            final(self).char_and_num_map == old(self).char_and_num_map,
            final(self).answer_char_and_pos_map == old(self).answer_char_and_pos_map,
            ({
                let t2 = tally_step(
                    Tally { know: old(self)@.know, gy: nats(old(gy)@), black: nats(old(black)@) },
                    l as int,
                    i as int,
                    r,
                );
                &&& t2 == (Tally {
                    know: final(self)@.know,
                    gy: nats(final(gy)@),
                    black: nats(final(black)@),
                })
                &&& final(self)@.possible == filter(
                    old(self)@.words,
                    old(self)@.possible,
                    |v: Seq<char>|
                        tile_keep(w@, i as int, l as int, r, guess_blacks(w@, rs@, l as int), v),
                )
            }),
            final(gy)@.len() == 26,
            final(black)@.len() == 26,
    {
        let ghost ws = self@.words;
        let ghost p0 = self@.possible;
        self.knowledge.apply_tile(gy, black, l, i, r);
        let kp = l + 26 * i;
        assert(kp == pk(l as int, i as int));
        if r == 'b' {
            let cnt = char_count(w, w[i]);
            let nb = black_results(w, rs, w[i]);
            if cnt > nb {
                self.possible = mask_and_minus(
                    &self.possible,
                    &self.char_and_num_map[l],
                    &self.char_and_pos_map[kp],
                );
            } else {
                self.possible = mask_minus(&self.possible, &self.char_and_num_map[l]);
            }
        } else if r == 'y' {
            self.possible = mask_and_minus(
                &self.possible,
                &self.char_and_num_map[l],
                &self.char_and_pos_map[kp],
            );
        } else {
            self.possible = mask_and(&self.possible, &self.char_and_pos_map[kp]);
        }
        proof {
            assert(l as int == pk(l as int, 0));
            let t2 = tally_step(
                Tally { know: old(self)@.know, gy: nats(old(gy)@), black: nats(old(black)@) },
                l as int,
                i as int,
                r,
            );
            assert(self@.possible =~= filter(
                ws,
                p0,
                |v: Seq<char>|
                        tile_keep(w@, i as int, l as int, r, guess_blacks(w@, rs@, l as int), v),
            ));
        }
    }
}

} // verus!

verus! {

impl Solver {
    /// Marks every position outside `y` as green for letter `l`, keeping
    /// the answers with `l` there; returns the new possible answers, green
    /// positions and green count.
    fn force_greens(
        &self,
        p: Vec<bool>,
        green: HashSet<usize>,
        y: &HashSet<usize>,
        l: usize,
        ng: usize,
    ) -> (r: (Vec<bool>, HashSet<usize>, usize))
        requires
            self.wf_tables(),
            l < 26,
            p@.len() == self.all_words@.len(),
            ng <= 5,
        ensures
            r.0@ == filter(
                views(self.all_words@),
                p@,
                |v: Seq<char>| green_keep(positions(y@), l as int, v),
            ),
            positions(r.1@) == Seq::new(
                5,
                |x: int| in5(positions(green@), x) || !in5(positions(y@), x),
            ),
            r.2 == ng + (5 - count5(positions(y@))),
    {
        let ghost ws = views(self.all_words@);
        let ghost p0 = p@;
        let ghost ys = positions(y@);
        let ghost g0 = positions(green@);
        let ghost ng0 = ng;
        let mut p = p;
        let mut green = green;
        let mut ng = ng;
        for j in 0usize..5
            invariant
                ys == positions(y@),
                ys.len() == 5,
                g0.len() == 5,
                p@ == filter(
                    ws,
                    p0,
                    |v: Seq<char>| forall|x: int| 0 <= x < j && !in5(ys, x) ==> has_at(v, x, l as int),
                ),
                positions(green@) == Seq::new(
                    5,
                    |x: int| if x < j { in5(g0, x) || !in5(ys, x) } else { g0[x] },
                ),
                ng == ng0 + count5(Seq::new(5, |x: int| x < j && !in5(ys, x))),
                ng0 <= 5,
                p@.len() == p0.len(),
                self.wf_tables(),
                p0.len() == self.all_words@.len(),
                ws == views(self.all_words@),
                l < 26,
        {
            let ghost pp = p@;
            let held = holds(y, j);
            if !held {
                let kp = l + 26 * j;
                assert(kp == pk(l as int, j as int));
                p = mask_and(&p, &self.char_and_pos_map[kp]);
                add_position(&mut green, j);
                ng = ng + 1;
                assert forall|i: int| 0 <= i < p@.len() implies p@[i] == (pp[i] && has_at(
                    ws[i],
                    j as int,
                    l as int,
                )) by {
                    assert(self.char_and_pos_map@[pk(l as int, j as int)]@[i] == has_at(
                        ws[i],
                        j as int,
                        l as int,
                    ));
                }
            }
            assert(held == in5(ys, j as int));
            assert(positions(green@) =~= Seq::new(
                5,
                |x: int| if x < j + 1 { in5(g0, x) || !in5(ys, x) } else { g0[x] },
            ));
            assert(p@ =~= filter(
                ws,
                p0,
                |v: Seq<char>| forall|x: int| 0 <= x < j + 1 && !in5(ys, x) ==> has_at(v, x, l as int),
            ));
        }
        assert(Seq::new(5, |x: int| x < 5 && !in5(ys, x)) =~= Seq::new(5, |x: int| !in5(ys, x)));
        (p, green, ng)
    }

    /// Keeps the answers whose count of letter `l` the known count `num` and
    /// the largest count `pm` allow.
    fn count_filter(&self, p: Vec<bool>, l: usize, num: usize, pm: usize) -> (r: Vec<bool>)
        requires
            self.wf_tables(),
            l < 26,
            p@.len() == self.all_words@.len(),
        ensures
            r@ == filter(
                views(self.all_words@),
                p@,
                |v: Seq<char>| count_keep(num as nat, pm as nat, v, l as int),
            ),
    {
        let ghost ws = views(self.all_words@);
        let k1 = l + 26;
        let k2 = l + 52;
        assert(k1 == pk(l as int, 1));
        assert(k2 == pk(l as int, 2));
        let r = if num == 1 && pm == 1 {
            mask_minus(&p, &self.char_and_num_map[k1])
        } else if num == 1 && pm == 2 {
            mask_minus(&p, &self.char_and_num_map[k2])
        } else if num == 2 && pm == 2 {
            mask_and_minus(&p, &self.char_and_num_map[k1], &self.char_and_num_map[k2])
        } else if num == 2 && pm == 3 {
            mask_and(&p, &self.char_and_num_map[k1])
        } else if num == 3 && pm == 3 {
            mask_and(&p, &self.char_and_num_map[k2])
        } else {
            p
        };
        assert(r@ =~= filter(ws, p@, |v: Seq<char>| count_keep(num as nat, pm as nat, v, l as int)));
        r
    }

    /// One refinement step for letter `l`; returns whether green positions
    /// were forced.
    fn refine_letter(&mut self, l: usize) -> (forced: bool)
        requires
            old(self).wf(),
            l < 26,
            know_safe(old(self)@.know),
        ensures
            final(self).all_words == old(self).all_words,
            final(self).word_chars == old(self).word_chars,
            final(self).char_and_pos_map == old(self).char_and_pos_map,
            final(self).char_and_num_map == old(self).char_and_num_map,
            final(self).answer_char_and_pos_map == old(self).answer_char_and_pos_map,
            final(self)@.know == refine_know(old(self)@.know, l as int),
            final(self)@.possible == refine_possible(
                old(self)@.words,
                old(self)@.know,
                old(self)@.possible,
                l as int,
            ),
            forced == greens_forced(old(self)@.know, l as int),
    {
        let ghost k0 = self@.know;
        let ghost p0 = self@.possible;
        let ghost ws = self@.words;
        proof {
            lemma_refine_know(k0, l as int);
            lemma_know_bounds(k0);
            assert(k0.chars[l as int].yellow.len() == 5);
        }
        let y = union_positions(
            &self.knowledge.char_map[l].yellow_indices,
            &self.knowledge.green_indices,
        );
        let ycount = count_positions(&y);
        let num = self.knowledge.char_map[l].num;
        let mut ng = self.knowledge.char_map[l].num_green;
        let forced = num > ng && 5 - ycount == num - ng;
        let mut p: Vec<bool> = Vec::new();
        std::mem::swap(&mut p, &mut self.possible);
        if forced {
            let mut green: HashSet<usize> = HashSet::new();
            std::mem::swap(&mut green, &mut self.knowledge.green_indices);
            let (p2, green2, ng2) = self.force_greens(p, green, &y, l, ng);
            p = p2;
            let mut green2 = green2;
            std::mem::swap(&mut green2, &mut self.knowledge.green_indices);
            ng = ng2;
            proof {
                assert(self@.know.green =~= green_after(k0, l as int));
            }
        }
        self.knowledge.char_map[l].yellow_indices = y;
        self.knowledge.char_map[l].num_green = ng;
        let pm = if self.knowledge.char_map[l].is_black {
            num
        } else {
            let a = self.knowledge.num - num;
            let b = ycount - ng;
            let m = if a >= b {
                a
            } else {
                b
            };
            let f = 5 - m;
            if f <= 3 {
                f
            } else {
                3
            }
        };
        self.knowledge.char_map[l].possible_max = pm;
        let mut p = self.count_filter(p, l, num, pm);
        std::mem::swap(&mut p, &mut self.possible);
        proof {
            let k2m = refine_know(k0, l as int);
            assert(self@.know.chars =~= k2m.chars);
            assert(self@.know.green =~= k2m.green);
        }
        forced
    }
}

} // verus!

verus! {

impl Solver {
    /// Counts, for each letter and position, the possible answers that
    /// hold the letter there.
    fn recount(&mut self)
        requires
            old(self).wf_tables(),
            old(self).possible@.len() == old(self).all_words@.len(),
        ensures
            final(self).all_words == old(self).all_words,
            final(self).word_chars == old(self).word_chars,
            final(self).char_and_pos_map == old(self).char_and_pos_map,
            final(self).char_and_num_map == old(self).char_and_num_map,
            final(self).possible == old(self).possible,
            final(self).knowledge == old(self).knowledge,
            final(self)@.answers == answer_table(old(self)@.words, old(self)@.possible),
            final(self).wf_tables(),
    {
        let ghost ws = self@.words;
        let ghost p = self@.possible;
        let n = self.all_words.len();
        let mut ans: Vec<usize> = vec![0; 130];
        for j in 0..n
            invariant
                n == self.all_words@.len(),
                self.wf_tables(),
                p == self.possible@,
                p.len() == n,
                ws == views(self.all_words@),
                ans@.len() == 130,
                forall|l: int, q: int|
                    0 <= l < 26 && 0 <= q < 5 ==> #[trigger] ans@[pk(l, q)] == answer_count(
                        ws,
                        p,
                        l,
                        q,
                        j as int,
                    ),
        {
            if self.possible[j] {
                let wc = &self.word_chars[j];
                assert(storable(wc@));
                for q in 0..wc.len()
                    invariant
                        n == self.all_words@.len(),
                        self.wf_tables(),
                        p == self.possible@,
                        p.len() == n,
                        j < n,
                        p[j as int],
                        ws == views(self.all_words@),
                        wc@ == ws[j as int],
                        storable(wc@),
                        ans@.len() == 130,
                        forall|l: int, q2: int|
                            0 <= l < 26 && 0 <= q2 < 5 ==> #[trigger] ans@[pk(l, q2)]
                                == answer_count(ws, p, l, q2, j as int) + if q2 < q && has_at(
                                ws[j as int],
                                q2,
                                l,
                            ) {
                                1nat
                            } else {
                                0nat
                            },
                {
                    let l = offset_from_a(wc[q]);
                    let k = l + 26 * q;
                    assert(k == pk(l as int, q as int));
                    proof {
                        lemma_answer_count_bound(ws, p, l as int, q as int, j as int);
                    }
                    ans.set(k, ans[k] + 1);
                }
            }
        }
        self.answer_char_and_pos_map = ans;
        proof {
            assert forall|k: int| 0 <= k < 130 implies self@.answers[k] == answer_table(ws, p)[k]
                && #[trigger] self.answer_char_and_pos_map@[k] <= n by {
                lemma_table_index(k);
                lemma_answer_count_bound(ws, p, k % 26, k / 26, n as int);
                assert(ans@[pk(k % 26, k / 26)] == answer_count(ws, p, k % 26, k / 26, n as int));
            }
            assert(self@.answers =~= answer_table(ws, p));
        }
    }

    /// What `give` returns once the possible answers are known.
    fn classify(&self) -> (r: Result<Option<String>, StateError>)
        requires
            self.wf(),
        ensures
            result_view(r) == outcome(self@.words, self@.possible),
    {
        let ghost p = self@.possible;
        let n = self.possible.len();
        let mut count: usize = 0;
        let mut first: usize = 0;
        for j in 0..n
            invariant
                n == p.len(),
                p == self@.possible,
                count == mask_count(p, j as int),
                count <= j,
                count > 0 ==> first < j && p[first as int],
                count == 0 ==> forall|i: int| 0 <= i < j ==> !p[i],
                count == 1 ==> forall|i: int| 0 <= i < j && p[i] ==> i == first,
        {
            if self.possible[j] {
                if count == 0 {
                    first = j;
                }
                proof {
                    if count >= 1 {
                        lemma_two_marked(p, first as int, j as int, j + 1);
                    }
                }
                count = count + 1;
            }
        }
        if count >= 2 {
            Ok(None)
        } else if count == 1 {
            let ghost c = choose|j: int| 0 <= j < p.len() && p[j];
            assert(c == first);
            Ok(Some(self.all_words[first].clone()))
        } else {
            Err(StateError::NoAnswer)
        }
    }
}

} // verus!

verus! {

impl Solver {
    /// Takes the result `res` of the guess `word` (one of `b`, `y`, `g` per
    /// letter: black, yellow, green) and narrows the possible answers.
    /// Returns the answer once only one is left, `None` while several are,
    /// `NoAnswer` when none is, and `InvalidInput` for a malformed guess or
    /// result.
    pub fn give(&mut self, word: &str, res: &str) -> (r: Result<Option<String>, StateError>)
        requires
            old(self).wf(),
            give_safe(old(self)@, word@, res@),
        ensures
            final(self).wf(),
            final(self)@ == give_spec(old(self)@, word@, res@).0,
            result_view(r) == give_spec(old(self)@, word@, res@).1,
            final(self)@.words == old(self)@.words,
            final(self)@.possible.len() == old(self)@.possible.len(),
            forall|j: int|
                0 <= j < old(self)@.possible.len() && #[trigger] final(self)@.possible[j]
                    ==> old(self)@.possible[j],
    {
        proof {
            lemma_know_bounds(self@.know);
            crate::laws::law_give_narrows(self@, word@, res@);
        }
        if word.as_bytes().len() != 5 || res.as_bytes().len() != 5 {
            return Err(StateError::InvalidInput);
        }
        let w = chars_of(word);
        let rs = chars_of(res);
        proof {
            lemma_chars_le_bytes(word@);
            lemma_chars_le_bytes(res@);
        }
        let n = if w.len() <= rs.len() {
            w.len()
        } else {
            rs.len()
        };
        let ghost m0 = self@;
        let ghost t0 = fresh_tally(m0.know);
        let mut gy: Vec<usize> = vec![0; 26];
        let mut black: Vec<usize> = vec![0; 26];
        proof {
            lemma_tally_start(m0.know, w@, rs@);
            assert(nats(gy@) =~= t0.gy);
            assert(nats(black@) =~= t0.black);
        }
        let mut i: usize = 0;
        while i < n
            invariant
                i <= n,
                n <= 5,
                n == (if w@.len() <= rs@.len() { w@.len() } else { rs@.len() }),
                w@ == word@,
                rs@ == res@,
                byte_len(word@) == 5,
                byte_len(res@) == 5,
                give_safe(m0, word@, res@),
                m0 == old(self)@,
                m0.know.chars.len() == 26,
                self.wf(),
                self@.words == m0.words,
                self@.answers == m0.answers,
                t0 == fresh_tally(m0.know),
                gy@.len() == 26,
                black@.len() == 26,
                tiles(m0.words, t0, m0.possible, w@, rs@, i as int) == (
                    Tally { know: self@.know, gy: nats(gy@), black: nats(black@) },
                    self@.possible,
                    false,
                ),
                tally_inv(
                    Tally { know: self@.know, gy: nats(gy@), black: nats(black@) },
                    w@,
                    rs@,
                    i as int,
                ),
            decreases n - i,
        {
            let c = w[i];
            let r = rs[i];
            if !is_ascii_lowercase(c) || !(r == 'b' || r == 'y' || r == 'g') {
                proof {
                    assert(!tile_ok(w@[i as int], rs@[i as int]));
                    assert(tiles(m0.words, t0, m0.possible, w@, rs@, i + 1).2);
                    lemma_tiles_stop(m0.words, t0, m0.possible, w@, rs@, i + 1, n as int);
                    let t = after_tiles(m0, word@, res@);
                    assert(t == tiles(m0.words, t0, m0.possible, w@, rs@, i + 1));
                    crate::laws::law_give_narrows(m0, word@, res@);
                }
                return Err(StateError::InvalidInput);
            }
            let l = offset_from_a(c);
            proof {
                lemma_tally_step(
                    Tally { know: self@.know, gy: nats(gy@), black: nats(black@) },
                    w@,
                    rs@,
                    i as int,
                );
            }
            self.apply_tile(&w, &rs, &mut gy, &mut black, l, i, r);
            i = i + 1;
        }
        let ghost k1 = self@.know;
        let ghost p1 = self@.possible;
        let ghost ws = self@.words;
        let mut i: usize = 0;
        while i < 26
            invariant
                i <= 26,
                self.wf(),
                self@.words == ws,
                know_safe(self@.know),
                refine(ws, self@.know, self@.possible, i as int) == refine(ws, k1, p1, 0),
            decreases 5 - count5(self@.know.green), 26 - i,
        {
            let ghost k = self@.know;
            proof {
                lemma_refine_know(k, i as int);
            }
            let forced = self.refine_letter(i);
            if forced {
                proof {
                    lemma_forced_grows(k, i as int);
                }
                i = 0;
            } else {
                i = i + 1;
            }
        }
        self.recount();
        self.classify()
    }
}

} // verus!

verus! {

impl Solver {
    /// Score of word `j`; `half` is half the number of possible answers.
    fn score_word(&self, j: usize, half: i32) -> (s: i32)
        requires
            self.wf(),
            search_safe(self@),
            j < self.all_words@.len(),
            half == half_count(self@),
        ensures
            s == score(self@, self@.words[j as int]),
            -5 * (self.all_words@.len() as int) <= s <= 5 * (self.all_words@.len() as int),
    {
        let ghost m = self@;
        let n = self.all_words.len();
        let wc = &self.word_chars[j];
        assert(storable(wc@));
        let mut ret: i32 = 0;
        let ghost mut bound: int = 0;
        proof {
            lemma_mask_count_bound(m.possible, m.possible.len() as int);
        }
        for q in 0..wc.len()
            invariant
                self.wf(),
                search_safe(m),
                m == self@,
                n == self.all_words@.len(),
                j < n,
                wc@ == m.words[j as int],
                storable(wc@),
                half == half_count(m),
                0 <= half,
                2 * half <= n,
                ret == score_upto(m, wc@, q as int),
                -bound <= ret <= bound,
                bound == (q as int) * (n as int),
                q <= 5,
                n <= MAX_WORDS,
        {
            let c = wc[q];
            let l = offset_from_a(c);
            proof {
                assert(bound <= 4 * (n as int)) by (nonlinear_arith)
                    requires
                        bound == (q as int) * (n as int),
                        q < 5,
                        n >= 0,
                ;
                lemma_know_bounds(m.know);
                assert(m.know.chars[l as int].yellow.len() == 5);
                assert(is_lower(wc@[q as int]));
            }
            let e = &self.knowledge.char_map[l];
            if !(e.is_black || e.num == e.possible_max || holds(&e.yellow_indices, q)) {
                let k = l + 26 * q;
                let a = self.answer_char_and_pos_map[k];
                let d = half - a as i32;
                let ad = if d < 0 {
                    -d
                } else {
                    d
                };
                let add = half - ad;
                assert(a <= n);
                if e.num - e.num_green > 0 {
                    ret = ret + (add + half);
                } else {
                    ret = ret + add;
                }
            }
            proof {
                assert((q as int + 1) * (n as int) == (q as int) * (n as int) + n) by (nonlinear_arith);
                bound = bound + n;
            }
        }
        proof {
            assert(bound <= 5 * (n as int)) by (nonlinear_arith)
                requires
                    bound == (wc@.len() as int) * (n as int),
                    wc@.len() <= 5,
                    n >= 0,
            ;
        }
        ret
    }

    /// The guess that should narrow the possible answers most: the first
    /// word of the list with the highest score.
    pub fn search(&self) -> (r: &str)
        requires
            self.wf(),
            search_safe(self@),
        ensures
            best_word(self@, best_index(self@)),
            r@ == self@.words[best_index(self@)],
            exists|b: int| best_word(self@, b) && r@ == self@.words[b],
    {
        let ghost m = self@;
        let n = self.possible.len();
        let mut count: usize = 0;
        for j in 0..n
            invariant
                n == m.possible.len(),
                m == self@,
                count == mask_count(m.possible, j as int),
                count <= j,
        {
            if self.possible[j] {
                count = count + 1;
            }
        }
        proof {
            lemma_mask_count_bound(m.possible, n as int);
        }
        let half: i32 = (count as i32) / 2;
        let mut best_eval_value: i32 = i32::MIN;
        let mut best: usize = 0;
        for j in 0..n
            invariant
                self.wf(),
                search_safe(m),
                m == self@,
                n == m.words.len(),
                half == half_count(m),
                best < n,
                j == 0 ==> best_eval_value == i32::MIN,
                j > 0 ==> best < j && best_eval_value == score(m, m.words[best as int]),
                forall|i: int| 0 <= i < j ==> score(m, #[trigger] m.words[i]) <= best_eval_value,
                forall|i: int| 0 <= i < best ==> score(m, #[trigger] m.words[i]) < best_eval_value,
        {
            let eval_value = self.score_word(j, half);
            if eval_value > best_eval_value {
                best_eval_value = eval_value;
                best = j;
            }
        }
        assert(best_word(m, best as int));
        proof {
            crate::laws::law_best_word_unique(m, best as int, best_index(m));
        }
        self.all_words[best].as_str()
    }
}

} // verus!

verus! {

impl Solver {
    /// Whether `give(word, res)` stays within its arithmetic: false exactly
    /// when the counts learnt from the guess leave no room for some letter.
    pub fn give_is_safe(&self, word: &str, res: &str) -> (r: bool)
        requires
            self.wf(),
        ensures
            r == give_safe(self@, word@, res@),
    {
        if word.as_bytes().len() != 5 || res.as_bytes().len() != 5 {
            return true;
        }
        let w = chars_of(word);
        let rs = chars_of(res);
        proof {
            lemma_chars_le_bytes(word@);
            lemma_chars_le_bytes(res@);
        }
        let n = if w.len() <= rs.len() {
            w.len()
        } else {
            rs.len()
        };
        let ghost m0 = self@;
        let ghost t0 = fresh_tally(m0.know);
        proof {
            lemma_tally_tiles(m0.words, t0, m0.possible, w@, rs@, n as int);
        }
        let mut k = self.knowledge.duplicate();
        let mut gy: Vec<usize> = vec![0; 26];
        let mut black: Vec<usize> = vec![0; 26];
        proof {
            lemma_tally_start(m0.know, w@, rs@);
            assert(nats(gy@) =~= t0.gy);
            assert(nats(black@) =~= t0.black);
        }
        let mut i: usize = 0;
        while i < n
            invariant
                i <= n,
                n <= 5,
                n == (if w@.len() <= rs@.len() { w@.len() } else { rs@.len() }),
                w@ == word@,
                rs@ == res@,
                byte_len(word@) == 5,
                byte_len(res@) == 5,
                m0 == self@,
                t0 == fresh_tally(m0.know),
                gy@.len() == 26,
                black@.len() == 26,
                tally_tiles(t0, w@, rs@, i as int) == (
                    Tally { know: k@, gy: nats(gy@), black: nats(black@) },
                    false,
                ),
                tally_inv(Tally { know: k@, gy: nats(gy@), black: nats(black@) }, w@, rs@, i as int),
                tiles(m0.words, t0, m0.possible, w@, rs@, n as int).2 == tally_tiles(
                    t0,
                    w@,
                    rs@,
                    n as int,
                ).1,
                tiles(m0.words, t0, m0.possible, w@, rs@, n as int).0 == tally_tiles(
                    t0,
                    w@,
                    rs@,
                    n as int,
                ).0,
            decreases n - i,
        {
            let c = w[i];
            let r = rs[i];
            if !is_ascii_lowercase(c) || !(r == 'b' || r == 'y' || r == 'g') {
                proof {
                    lemma_tally_tiles(m0.words, t0, m0.possible, w@, rs@, i + 1);
                    assert(tally_tiles(t0, w@, rs@, i + 1).1);
                    lemma_tiles_stop(m0.words, t0, m0.possible, w@, rs@, i + 1, n as int);
                }
                return true;
            }
            let l = offset_from_a(c);
            proof {
                lemma_tally_step(Tally { know: k@, gy: nats(gy@), black: nats(black@) }, w@, rs@, i as int);
            }
            k.apply_tile(&mut gy, &mut black, l, i, r);
            i = i + 1;
        }
        proof {
            lemma_know_bounds(k@);
            assert(after_tiles(m0, word@, res@).0.know == k@);
            assert(!after_tiles(m0, word@, res@).2);
        }
        for l in 0..26
            invariant
                after_tiles(m0, word@, res@).0.know == k@,
                !after_tiles(m0, word@, res@).2,
                byte_len(word@) == 5,
                byte_len(res@) == 5,
                m0 == self@,
                know_wf(k@),
                forall|x: int| 0 <= x < l && !(#[trigger] k@.chars[x]).is_black ==> k@.num - k@.chars[x].num <= 5,
                forall|x: int| 0 <= x < 26 ==> (#[trigger] k@.chars[x]).num <= k@.num,
        {
            assert(k@.chars[l as int].num <= k@.num);
            if !k.char_map[l].is_black && k.num - k.char_map[l].num > 5 {
                return false;
            }
        }
        true
    }

    /// Whether `search` stays within its arithmetic: false exactly when the
    /// word list is empty or longer than `MAX_WORDS`, or a letter that it
    /// scores has more green positions than its known count.
    pub fn search_is_safe(&self) -> (r: bool)
        requires
            self.wf(),
        ensures
            r == search_safe(self@),
    {
        let ghost m = self@;
        let n = self.all_words.len();
        if n == 0 || n > MAX_WORDS {
            return false;
        }
        for j in 0..n
            invariant
                self.wf(),
                m == self@,
                n == m.words.len(),
                n > 0,
                n <= MAX_WORDS,
                forall|j2: int, q: int|
                    0 <= j2 < j && 0 <= q < m.words[j2].len() ==> {
                        let e = #[trigger] m.know.chars[offset(m.words[j2][q])];
                        !e.is_black && e.num != e.possible_max && !in5(e.yellow, q) ==> e.num_green
                            <= e.num
                    },
        {
            let wc = &self.word_chars[j];
            assert(storable(wc@));
            for q in 0..wc.len()
                invariant
                    self.wf(),
                    m == self@,
                    n == m.words.len(),
                    j < n,
                    wc@ == m.words[j as int],
                    storable(wc@),
                    forall|j2: int, q2: int|
                        0 <= j2 < j && 0 <= q2 < m.words[j2].len() ==> {
                            let e = #[trigger] m.know.chars[offset(m.words[j2][q2])];
                            !e.is_black && e.num != e.possible_max && !in5(e.yellow, q2)
                                ==> e.num_green <= e.num
                        },
                    forall|q2: int|
                        0 <= q2 < q ==> {
                            let e = #[trigger] m.know.chars[offset(m.words[j as int][q2])];
                            !e.is_black && e.num != e.possible_max && !in5(e.yellow, q2)
                                ==> e.num_green <= e.num
                        },
            {
                let l = offset_from_a(wc[q]);
                proof {
                    lemma_know_bounds(m.know);
                    assert(is_lower(wc@[q as int]));
                    assert(m.know.chars[l as int].yellow.len() == 5);
                }
                let e = &self.knowledge.char_map[l];
                if !e.is_black && e.num != e.possible_max && !holds(&e.yellow_indices, q) && e.num_green
                    > e.num {
                    return false;
                }
            }
        }
        true
    }

    /// Number of possible answers.
    pub fn possible_count(&self) -> (r: usize)
        requires
            self.wf(),
        ensures
            r == possible_count(self@),
    {
        let ghost m = self@;
        let n = self.possible.len();
        let mut count: usize = 0;
        for j in 0..n
            invariant
                n == m.possible.len(),
                m == self@,
                count == mask_count(m.possible, j as int),
                count <= j,
        {
            if self.possible[j] {
                count = count + 1;
            }
        }
        count
    }

    /// The first `k` possible answers (all of them when fewer), in the
    /// order of the word list.
    pub fn possible_answers(&self, k: usize) -> (r: Vec<String>)
        requires
            self.wf(),
        ensures
            views(r@) == (if possible_words(self@).len() <= k {
                possible_words(self@)
            } else {
                possible_words(self@).take(k as int)
            }),
    {
        let ghost m = self@;
        let n = self.possible.len();
        let mut r: Vec<String> = Vec::new();
        for j in 0..n
            invariant
                n == m.possible.len(),
                n == m.words.len(),
                m == self@,
                r@.len() <= k,
                views(r@) == (if marked_words(m.words, m.possible, j as int).len() <= k {
                    marked_words(m.words, m.possible, j as int)
                } else {
                    marked_words(m.words, m.possible, j as int).take(k as int)
                }),
        {
            if self.possible[j] && r.len() < k {
                r.push(self.all_words[j].clone());
            }
            proof {
                let a = marked_words(m.words, m.possible, j as int);
                let b = marked_words(m.words, m.possible, j + 1);
                if m.possible[j as int] {
                    assert(b == a.push(m.words[j as int]));
                    if a.len() < k {
                        assert(views(r@) =~= b);
                    } else {
                        assert(a.take(k as int) =~= b.take(k as int));
                    }
                } else {
                    assert(b == a);
                }
            }
        }
        r
    }

    /// The word list, in the order it was given.
    pub fn all_words(&self) -> (r: &Vec<String>)
        ensures
            views(r@) == self@.words,
    {
        &self.all_words
    }
}

impl Solver {
    /// A well-formed solver marks one entry per word.
    pub proof fn lemma_wf_lengths(&self)
        requires
            self.wf(),
        ensures
            self@.possible.len() == self@.words.len(),
            know_wf(self@.know),
            forall|j: int| 0 <= j < self@.words.len() ==> storable(#[trigger] self@.words[j]),
            forall|j: int|
                0 <= j < self@.words.len() && #[trigger] self@.possible[j] ==> first_occurrence(
                    self@.words,
                    j,
                ),
    {
    }
}

} // verus!
