//! What the solver has learnt about each letter from the coloured results.

use vstd::prelude::*;
use std::collections::HashSet;
use crate::words::{has_at, is_lower, offset};

verus! {

broadcast use vstd::std_specs::hash::group_hash_axioms;

/// The positions 0 to 4 that a set of positions holds, one flag each.
pub open spec fn positions(s: Set<usize>) -> Seq<bool> {
    Seq::new(5, |j: int| s.contains(j as usize))
}

/// An empty set of positions.
pub fn no_positions() -> (r: HashSet<usize>)
    ensures
        positions(r@) == empty5(),
{
    let r: HashSet<usize> = HashSet::new();
    assert(positions(r@) =~= empty5());
    r
}

/// Whether the set holds position `i`.
pub fn holds(s: &HashSet<usize>, i: usize) -> (r: bool)
    requires
        i < 5,
    ensures
        r == positions(s@)[i as int],
{
    s.contains(&i)
}

/// Adds position `i` to the set; returns whether it was not there before.
pub fn add_position(s: &mut HashSet<usize>, i: usize) -> (r: bool)
    requires
        i < 5,
    ensures
        positions(final(s)@) == positions(old(s)@).update(i as int, true),
        r == !positions(old(s)@)[i as int],
{
    let r = s.insert(i);
    assert(positions(s@) =~= positions(old(s)@).update(i as int, true));
    r
}

/// The positions that either set holds.
pub fn union_positions(a: &HashSet<usize>, b: &HashSet<usize>) -> (r: HashSet<usize>)
    ensures
        positions(r@) == union5(positions(a@), positions(b@)),
{
    let ghost pa = positions(a@);
    let ghost pb = positions(b@);
    let mut r = no_positions();
    for j in 0..5
        invariant
            pa == positions(a@),
            pb == positions(b@),
            positions(r@) == Seq::new(5, |x: int| x < j && (pa[x] || pb[x])),
    {
        if holds(a, j) || holds(b, j) {
            add_position(&mut r, j);
        }
        assert(positions(r@) =~= Seq::new(5, |x: int| x < j + 1 && (pa[x] || pb[x])));
    }
    assert(positions(r@) =~= union5(positions(a@), positions(b@)));
    r
}

/// Number of positions the set holds.
pub fn count_positions(s: &HashSet<usize>) -> (r: usize)
    ensures
        r == count5(positions(s@)),
{
    let mut r: usize = 0;
    if s.contains(&0) {
        r = r + 1;
    }
    if s.contains(&1) {
        r = r + 1;
    }
    if s.contains(&2) {
        r = r + 1;
    }
    if s.contains(&3) {
        r = r + 1;
    }
    if s.contains(&4) {
        r = r + 1;
    }
    r
}

/// What is known of one letter.
pub struct CharModel {
    /// A black result was seen for the letter: its count in the answer is known.
    pub is_black: bool,
    /// Known number of occurrences of the letter in the answer.
    pub num: nat,
    /// Number of green positions found for the letter.
    pub num_green: nat,
    /// Largest possible number of occurrences of the letter in the answer.
    pub possible_max: nat,
    /// Positions (0..5) where a not yet placed occurrence of the letter
    /// cannot stand: its yellow and black positions, and every green one.
    pub yellow: Seq<bool>,
}

/// What is known of the answer as a whole.
pub struct KnowModel {
    /// One entry per letter, `'a'` first.
    pub chars: Seq<CharModel>,
    /// Total of the known counts of all letters.
    pub num: nat,
    /// Positions (0..5) whose letter is known.
    pub green: Seq<bool>,
}

/// Position `j` belongs to the position set `s`.
pub open spec fn in5(s: Seq<bool>, j: int) -> bool {
    0 <= j < s.len() && s[j]
}

/// `1` when position `j` belongs to `s`, else `0`.
pub open spec fn bit(s: Seq<bool>, j: int) -> nat {
    if in5(s, j) { 1 } else { 0 }
}

/// Number of positions among 0..5 in `s`.
pub open spec fn count5(s: Seq<bool>) -> nat {
    bit(s, 0) + bit(s, 1) + bit(s, 2) + bit(s, 3) + bit(s, 4)
}

/// Union of two position sets.
pub open spec fn union5(a: Seq<bool>, b: Seq<bool>) -> Seq<bool> {
    Seq::new(5, |j: int| in5(a, j) || in5(b, j))
}

/// The empty position set.
pub open spec fn empty5() -> Seq<bool> {
    Seq::new(5, |j: int| false)
}

/// Sum of the known counts of the first `m` letters.
pub open spec fn sum_num(cs: Seq<CharModel>, m: int) -> nat
    decreases m,
{
    if m <= 0 {
        0
    } else {
        sum_num(cs, m - 1) + cs[m - 1].num
    }
}

/// What is known of a letter before any guess.
pub open spec fn initial_char() -> CharModel {
    CharModel { is_black: false, num: 0, num_green: 0, possible_max: 3, yellow: empty5() }
}

/// The knowledge before any guess.
pub open spec fn initial_know() -> KnowModel {
    KnowModel { chars: Seq::new(26, |l: int| initial_char()), num: 0, green: empty5() }
}

/// Shape and bookkeeping that every reachable knowledge satisfies.
pub open spec fn know_wf(k: KnowModel) -> bool {
    &&& k.chars.len() == 26
    &&& k.green.len() == 5
    &&& k.num == sum_num(k.chars, 26)
    &&& forall|l: int| 0 <= l < 26 ==> (#[trigger] k.chars[l]).yellow.len() == 5
    &&& forall|l: int|
        0 <= l < 26 ==> (#[trigger] k.chars[l]).num <= count5(union5(k.chars[l].yellow, k.green))
    &&& forall|l: int| 0 <= l < 26 ==> (#[trigger] k.chars[l]).num_green <= count5(k.green)
}

pub proof fn lemma_sum_update(cs: Seq<CharModel>, l: int, x: CharModel, m: int)
    requires
        0 <= l < cs.len(),
        m <= cs.len(),
    ensures
        sum_num(cs.update(l, x), m) == sum_num(cs, m) + (if l < m { x.num - cs[l].num } else { 0 }),
    decreases m,
{
    if m > 0 {
        lemma_sum_update(cs, l, x, m - 1);
    }
}

proof fn lemma_sum_bounds(cs: Seq<CharModel>, m: int)
    requires
        0 <= m <= cs.len(),
        forall|i: int| 0 <= i < m ==> (#[trigger] cs[i]).num <= 5,
    ensures
        sum_num(cs, m) <= 5 * m,
        forall|i: int| 0 <= i < m ==> (#[trigger] cs[i]).num <= sum_num(cs, m),
    decreases m,
{
    if m > 0 {
        lemma_sum_bounds(cs, m - 1);
    }
}

/// Knowledge of one letter.
pub struct CharInfo {
    pub is_black: bool,
    pub num: usize,
    pub num_green: usize,
    pub possible_max: usize,
    pub yellow_indices: HashSet<usize>,
}

impl View for CharInfo {
    type V = CharModel;

    open spec fn view(&self) -> CharModel {
        CharModel {
            is_black: self.is_black,
            num: self.num as nat,
            num_green: self.num_green as nat,
            possible_max: self.possible_max as nat,
            yellow: positions(self.yellow_indices@),
        }
    }
}

impl CharInfo {
    pub fn new() -> (r: CharInfo)
        ensures
            r@ == initial_char(),
    {
        let yellow_indices = no_positions();
        CharInfo { is_black: false, num: 0, num_green: 0, possible_max: 3, yellow_indices }
    }
}

/// Knowledge of the answer.
pub struct Knowledge {
    pub char_map: Vec<CharInfo>,
    pub num: usize,
    pub green_indices: HashSet<usize>,
}

impl View for Knowledge {
    type V = KnowModel;

    open spec fn view(&self) -> KnowModel {
        KnowModel {
            chars: self.char_map@.map_values(|c: CharInfo| c@),
            num: self.num as nat,
            green: positions(self.green_indices@),
        }
    }
}

impl Knowledge {
    pub fn new() -> (r: Knowledge)
        ensures
            r@ == initial_know(),
            know_wf(r@),
    {
        let mut char_map: Vec<CharInfo> = Vec::new();
        for l in 0..26
            invariant
                char_map@.len() == l,
                forall|i: int| 0 <= i < l ==> (#[trigger] char_map@[i])@ == initial_char(),
        {
            char_map.push(CharInfo::new());
        }
        let green_indices = no_positions();
        let r = Knowledge { char_map, num: 0, green_indices };
        assert(r@.chars =~= initial_know().chars);
        assert(r@.green =~= empty5());
        assert(sum_num(r@.chars, 26) == 0) by {
            assert forall|m: int| 0 <= m <= 26 implies sum_num(r@.chars, m) == 0 by {
                lemma_sum_zero(r@.chars, m);
            }
        }
        r
    }
}

proof fn lemma_sum_zero(cs: Seq<CharModel>, m: int)
    requires
        0 <= m <= cs.len(),
        forall|i: int| 0 <= i < m ==> (#[trigger] cs[i]).num == 0,
    ensures
        sum_num(cs, m) == 0,
    decreases m,
{
    if m > 0 {
        lemma_sum_zero(cs, m - 1);
    }
}

} // verus!

verus! {

/// The knowledge, with the counts that one guess keeps per letter: the
/// green and yellow results seen so far in the guess, and the black ones.
pub struct Tally {
    pub know: KnowModel,
    pub gy: Seq<nat>,
    pub black: Seq<nat>,
}

/// A `Vec<usize>` read as naturals.
pub open spec fn nats(v: Seq<usize>) -> Seq<nat> {
    v.map_values(|x: usize| x as nat)
}

/// What one tile of a guess teaches: letter index `l` at position `i`,
/// with result `r` (`'b'`, `'y'` or `'g'`).
pub open spec fn tally_step(t: Tally, l: int, i: int, r: char) -> Tally {
    let e = t.know.chars[l];
    if r == 'b' {
        let e2 = CharModel { is_black: true, yellow: e.yellow.update(i, true), ..e };
        Tally {
            know: KnowModel { chars: t.know.chars.update(l, e2), ..t.know },
            black: t.black.update(l, t.black[l] + 1),
            ..t
        }
    } else {
        let g = t.gy[l] + 1;
        let inc = g > e.num;
        let new_green = r == 'g' && !t.know.green[i];
        let e2 = CharModel {
            num: if inc { e.num + 1 } else { e.num },
            num_green: if new_green { e.num_green + 1 } else { e.num_green },
            yellow: if r == 'y' { e.yellow.update(i, true) } else { e.yellow },
            ..e
        };
        Tally {
            know: KnowModel {
                chars: t.know.chars.update(l, e2),
                num: if inc { t.know.num + 1 } else { t.know.num },
                green: if r == 'g' { t.know.green.update(i, true) } else { t.know.green },
            },
            gy: t.gy.update(l, g),
            ..t
        }
    }
}

/// Consequences of `know_wf` that bound the counters.
pub proof fn lemma_know_bounds(k: KnowModel)
    requires
        know_wf(k),
    ensures
        k.num <= 130,
        forall|l: int| 0 <= l < 26 ==> (#[trigger] k.chars[l]).num <= 5,
        forall|l: int| 0 <= l < 26 ==> (#[trigger] k.chars[l]).num <= k.num,
        forall|l: int| 0 <= l < 26 ==> (#[trigger] k.chars[l]).num_green <= 5,
{
    assert forall|l: int| 0 <= l < 26 implies (#[trigger] k.chars[l]).num <= 5 by {
        assert(count5(union5(k.chars[l].yellow, k.green)) <= 5);
    }
    lemma_sum_bounds(k.chars, 26);
}

impl Knowledge {
    /// Records one tile of a guess.
    pub fn apply_tile(
        &mut self,
        gy: &mut Vec<usize>,
        black: &mut Vec<usize>,
        l: usize,
        i: usize,
        r: char,
    )
        requires
            know_wf(old(self)@),
            old(gy)@.len() == 26,
            old(black)@.len() == 26,
            l < 26,
            i < 5,
            old(gy)@[l as int] < 5,
            old(black)@[l as int] < 5,
            r == 'b' || r == 'y' || r == 'g',
        ensures
            (Tally { know: final(self)@, gy: nats(final(gy)@), black: nats(final(black)@) })
                == tally_step(
                Tally { know: old(self)@, gy: nats(old(gy)@), black: nats(old(black)@) },
                l as int,
                i as int,
                r,
            ),
            final(gy)@.len() == 26,
            final(black)@.len() == 26,
    {
        proof {
            lemma_know_bounds(self@);
            assert(self@.chars[l as int].yellow.len() == 5);
        }
        let ghost t = Tally { know: self@, gy: nats(gy@), black: nats(black@) };
        if r == 'b' {
            black.set(l, black[l] + 1);
            self.char_map[l].is_black = true;
            add_position(&mut self.char_map[l].yellow_indices, i);
        } else {
            gy.set(l, gy[l] + 1);
            let inc = gy[l] > self.char_map[l].num;
            if r == 'y' {
                add_position(&mut self.char_map[l].yellow_indices, i);
            } else {
                if add_position(&mut self.green_indices, i) {
                    self.char_map[l].num_green = self.char_map[l].num_green + 1;
                }
            }
            if inc {
                self.num = self.num + 1;
                self.char_map[l].num = self.char_map[l].num + 1;
            }
        }
        proof {
            let t2 = tally_step(t, l as int, i as int, r);
            assert(self@.chars =~= t2.know.chars);
            assert(nats(gy@) =~= t2.gy);
            assert(nats(black@) =~= t2.black);
        }
    }
}

} // verus!

verus! {

/// Positions before `i` where the guess `w` shows letter `l` with a green
/// or yellow result in `r`.
pub open spec fn seen_gy(w: Seq<char>, r: Seq<char>, i: int, l: int) -> Seq<bool> {
    Seq::new(5, |p: int| p < i && has_at(w, p, l) && (r[p] == 'y' || r[p] == 'g'))
}

/// What holds of the tally after the first `i` tiles of guess `w` with result `r`.
pub open spec fn tally_inv(t: Tally, w: Seq<char>, r: Seq<char>, i: int) -> bool {
    &&& know_wf(t.know)
    &&& 0 <= i <= 5
    &&& t.gy.len() == 26
    &&& t.black.len() == 26
    &&& forall|l: int| 0 <= l < 26 ==> #[trigger] t.gy[l] == count5(seen_gy(w, r, i, l))
    &&& forall|l: int| 0 <= l < 26 ==> #[trigger] t.gy[l] <= t.know.chars[l].num
    &&& forall|l: int| 0 <= l < 26 ==> #[trigger] t.black[l] <= i
    &&& forall|l: int, p: int|
        0 <= l < 26 && #[trigger] in5(seen_gy(w, r, i, l), p) ==> in5(
            union5(t.know.chars[l].yellow, t.know.green),
            p,
        )
}

/// The tally of a fresh guess.
pub open spec fn fresh_tally(k: KnowModel) -> Tally {
    Tally { know: k, gy: Seq::new(26, |l: int| 0nat), black: Seq::new(26, |l: int| 0nat) }
}

pub proof fn lemma_tally_start(k: KnowModel, w: Seq<char>, r: Seq<char>)
    requires
        know_wf(k),
    ensures
        tally_inv(fresh_tally(k), w, r, 0),
{
    let t = fresh_tally(k);
    assert forall|l: int| 0 <= l < 26 implies #[trigger] t.gy[l] == count5(seen_gy(w, r, 0, l)) by {
        assert(count5(seen_gy(w, r, 0, l)) == 0);
    }
}

proof fn lemma_count5_mono(a: Seq<bool>, b: Seq<bool>)
    requires
        forall|p: int| #[trigger] in5(a, p) ==> in5(b, p),
    ensures
        count5(a) <= count5(b),
{
    assert(in5(a, 0) ==> in5(b, 0));
    assert(in5(a, 1) ==> in5(b, 1));
    assert(in5(a, 2) ==> in5(b, 2));
    assert(in5(a, 3) ==> in5(b, 3));
    assert(in5(a, 4) ==> in5(b, 4));
}

/// Per-letter part of `lemma_tally_step`.
proof fn lemma_tally_step_letter(t: Tally, w: Seq<char>, r: Seq<char>, i: int, m: int)
    requires
        tally_inv(t, w, r, i),
        i < 5,
        i < w.len(),
        i < r.len(),
        is_lower(w[i]),
        r[i] == 'b' || r[i] == 'y' || r[i] == 'g',
        0 <= m < 26,
    ensures
        ({
            let t2 = tally_step(t, offset(w[i]), i, r[i]);
            &&& t2.gy[m] == count5(seen_gy(w, r, i + 1, m))
            &&& t2.gy[m] <= t2.know.chars[m].num
            &&& t2.black[m] <= i + 1
            &&& forall|p: int|
                #[trigger] in5(seen_gy(w, r, i + 1, m), p) ==> in5(
                    union5(t2.know.chars[m].yellow, t2.know.green),
                    p,
                )
            &&& t2.know.chars[m].num <= count5(union5(t2.know.chars[m].yellow, t2.know.green))
            &&& t2.know.chars[m].num_green <= count5(t2.know.green)
            &&& t2.know.chars[m].yellow.len() == 5
        }),
{
    let l = offset(w[i]);
    let t2 = tally_step(t, l, i, r[i]);
    let k = t.know;
    let k2 = t2.know;
    let s1 = seen_gy(w, r, i, m);
    let s2 = seen_gy(w, r, i + 1, m);
    let u1 = union5(k.chars[m].yellow, k.green);
    let u2 = union5(k2.chars[m].yellow, k2.green);
    assert(t.gy[m] == count5(s1));
    assert(t.gy[m] <= k.chars[m].num);
    assert(t.black[m] <= i);
    assert(k.chars[m].yellow.len() == 5);
    assert(k.chars[m].num <= count5(u1));
    assert(k.chars[m].num_green <= count5(k.green));
    if m != l || r[i] == 'b' {
        assert(s2 =~= s1);
    } else {
        assert(s2 =~= s1.update(i, true));
        assert(!in5(s1, i));
    }
    assert forall|p: int| #[trigger] in5(u1, p) implies in5(u2, p) by {}
    lemma_count5_mono(u1, u2);
    assert forall|p: int| #[trigger] in5(s2, p) implies in5(u2, p) by {
        if p < i {
            assert(in5(s1, p));
        }
    }
    lemma_count5_mono(s2, u2);
    assert forall|p: int| #[trigger] in5(k.green, p) implies in5(k2.green, p) by {}
    lemma_count5_mono(k.green, k2.green);
    if r[i] == 'g' && !k.green[i] {
        assert(k2.green =~= k.green.update(i, true));
        assert(!in5(k.green, i));
    }
}

proof fn lemma_tally_step_sum(t: Tally, l: int, i: int, r: char)
    requires
        know_wf(t.know),
        0 <= l < 26,
    ensures
        tally_step(t, l, i, r).know.num == sum_num(tally_step(t, l, i, r).know.chars, 26),
        tally_step(t, l, i, r).know.chars.len() == 26,
{
    let k = t.know;
    let k2 = tally_step(t, l, i, r).know;
    lemma_sum_update(k.chars, l, k2.chars[l], 26);
    assert(k2.chars =~= k.chars.update(l, k2.chars[l]));
}

pub proof fn lemma_tally_step(t: Tally, w: Seq<char>, r: Seq<char>, i: int)
    requires
        tally_inv(t, w, r, i),
        i < 5,
        i < w.len(),
        i < r.len(),
        is_lower(w[i]),
        r[i] == 'b' || r[i] == 'y' || r[i] == 'g',
    ensures
        tally_inv(tally_step(t, offset(w[i]), i, r[i]), w, r, i + 1),
        t.gy[offset(w[i])] < 5,
        t.black[offset(w[i])] < 5,
{
    let l = offset(w[i]);
    let t2 = tally_step(t, l, i, r[i]);
    let k2 = t2.know;
    assert forall|m: int| 0 <= m < 26 implies #[trigger] t2.gy[m] == count5(seen_gy(w, r, i + 1, m))
        && t2.gy[m] <= k2.chars[m].num && t2.black[m] <= i + 1 by {
        lemma_tally_step_letter(t, w, r, i, m);
    }
    assert forall|m: int| 0 <= m < 26 implies (#[trigger] k2.chars[m]).num <= count5(
        union5(k2.chars[m].yellow, k2.green),
    ) && k2.chars[m].num_green <= count5(k2.green) && k2.chars[m].yellow.len() == 5 by {
        lemma_tally_step_letter(t, w, r, i, m);
    }
    assert forall|m: int, p: int|
        0 <= m < 26 && #[trigger] in5(seen_gy(w, r, i + 1, m), p) implies in5(
        union5(k2.chars[m].yellow, k2.green),
        p,
    ) by {
        lemma_tally_step_letter(t, w, r, i, m);
    }
    assert(t.gy[l] == count5(seen_gy(w, r, i, l)));
    assert(t.black[l] <= i);
    assert(seen_gy(w, r, i, l)[4] == false);
    lemma_tally_step_sum(t, l, i, r[i]);
}

} // verus!

verus! {

/// A copy of the positions 0 to 4 of a set.
fn copy_positions(a: &HashSet<usize>) -> (r: HashSet<usize>)
    ensures
        positions(r@) == positions(a@),
{
    let ghost pa = positions(a@);
    let mut r = no_positions();
    for j in 0..5
        invariant
            pa == positions(a@),
            positions(r@) == Seq::new(5, |x: int| x < j && pa[x]),
    {
        if holds(a, j) {
            add_position(&mut r, j);
        }
        assert(positions(r@) =~= Seq::new(5, |x: int| x < j + 1 && pa[x]));
    }
    assert(positions(r@) =~= positions(a@));
    r
}

impl CharInfo {
    /// A copy of this letter's knowledge.
    pub fn duplicate(&self) -> (r: CharInfo)
        ensures
            r@ == self@,
    {
        CharInfo {
            is_black: self.is_black,
            num: self.num,
            num_green: self.num_green,
            possible_max: self.possible_max,
            yellow_indices: copy_positions(&self.yellow_indices),
        }
    }
}

impl Knowledge {
    /// A copy of this knowledge.
    pub fn duplicate(&self) -> (r: Knowledge)
        ensures
            r@ == self@,
    {
        let mut char_map: Vec<CharInfo> = Vec::new();
        for l in 0..self.char_map.len()
            invariant
                char_map@.len() == l,
                l <= self.char_map@.len(),
                forall|i: int| 0 <= i < l ==> (#[trigger] char_map@[i])@ == self.char_map@[i]@,
        {
            char_map.push(self.char_map[l].duplicate());
        }
        let r = Knowledge {
            char_map,
            num: self.num,
            green_indices: copy_positions(&self.green_indices),
        };
        assert(r@.chars =~= self@.chars);
        r
    }
}

} // verus!
