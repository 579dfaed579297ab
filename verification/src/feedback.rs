//! The coloured result that Wordle gives for a guess against an answer.

use vstd::prelude::*;
use crate::words::{count_letter, count_upto, has_at, offset};

verus! {

/// Positions before `k` where guess `g` shows letter `l` and misses `a`.
pub open spec fn misses_upto(g: Seq<char>, a: Seq<char>, l: int, k: int) -> nat
    decreases k,
{
    if k <= 0 {
        0
    } else {
        misses_upto(g, a, l, k - 1) + if has_at(g, k - 1, l) && g[k - 1] != a[k - 1] {
            1nat
        } else {
            0nat
        }
    }
}

/// Positions before `k` where answer `a` holds letter `l` and the guess
/// misses it.
pub open spec fn unmatched_upto(g: Seq<char>, a: Seq<char>, l: int, k: int) -> nat
    decreases k,
{
    if k <= 0 {
        0
    } else {
        unmatched_upto(g, a, l, k - 1) + if has_at(a, k - 1, l) && g[k - 1] != a[k - 1] {
            1nat
        } else {
            0nat
        }
    }
}

/// Result at position `i`: green where the letters agree; yellow where the
/// letter occurs elsewhere in the answer, not already claimed by a green
/// or by an earlier yellow of the same letter; black otherwise.
pub open spec fn tile(g: Seq<char>, a: Seq<char>, i: int) -> char {
    if g[i] == a[i] {
        'g'
    } else if misses_upto(g, a, offset(g[i]), i) < unmatched_upto(g, a, offset(g[i]), 5) {
        'y'
    } else {
        'b'
    }
}

/// The result string of guess `g` against answer `a`, both of five letters.
pub open spec fn feedback(g: Seq<char>, a: Seq<char>) -> Seq<char> {
    Seq::new(5, |i: int| tile(g, a, i))
}

/// The result of guess `g` against answer `a` (five lowercase letters each),
/// one of `g`, `y`, `b` per position.
pub fn get_result(g: &str, a: &str) -> (r: String)
    requires
        g@.len() == 5,
        a@.len() == 5,
    ensures
        r@ == feedback(g@, a@),
{
    let gv = crate::words::chars_of(g);
    let av = crate::words::chars_of(a);
    let mut r = String::new();
    for i in 0..5
        invariant
            gv@ == g@,
            av@ == a@,
            gv@.len() == 5,
            av@.len() == 5,
            r@ == Seq::new(i as nat, |x: int| tile(g@, a@, x)),
    {
        let c = gv[i];
        let t = if c == av[i] {
            'g'
        } else {
            let mut misses: usize = 0;
            for p in 0..i
                invariant
                    gv@ == g@,
                    av@ == a@,
                    gv@.len() == 5,
                    av@.len() == 5,
                    i < 5,
                    c == g@[i as int],
                    misses == misses_upto(g@, a@, offset(c), p as int),
                    misses <= p,
            {
                if gv[p] == c && gv[p] != av[p] {
                    misses = misses + 1;
                }
            }
            let mut unmatched: usize = 0;
            for p in 0..5
                invariant
                    gv@ == g@,
                    av@ == a@,
                    gv@.len() == 5,
                    av@.len() == 5,
                    unmatched == unmatched_upto(g@, a@, offset(c), p as int),
                    unmatched <= p,
            {
                if av[p] == c && gv[p] != av[p] {
                    unmatched = unmatched + 1;
                }
            }
            if misses < unmatched {
                'y'
            } else {
                'b'
            }
        };
        proof {
            reveal_strlit("g");
            reveal_strlit("y");
            reveal_strlit("b");
        }
        if t == 'g' {
            r.append("g");
        } else if t == 'y' {
            r.append("y");
        } else {
            r.append("b");
        }
        assert(r@ =~= Seq::new((i + 1) as nat, |x: int| tile(g@, a@, x)));
    }
    assert(r@ =~= feedback(g@, a@));
    r
}

/// Positions before `k` where the guess shows letter `l` with a green or
/// yellow result.
pub open spec fn gy_upto(g: Seq<char>, a: Seq<char>, l: int, k: int) -> nat
    decreases k,
{
    if k <= 0 {
        0
    } else {
        gy_upto(g, a, l, k - 1) + if has_at(g, k - 1, l) && tile(g, a, k - 1) != 'b' {
            1nat
        } else {
            0nat
        }
    }
}

/// Positions before `k` where the guess shows letter `l` with a black result.
pub open spec fn black_upto(g: Seq<char>, a: Seq<char>, l: int, k: int) -> nat
    decreases k,
{
    if k <= 0 {
        0
    } else {
        black_upto(g, a, l, k - 1) + if has_at(g, k - 1, l) && tile(g, a, k - 1) == 'b' {
            1nat
        } else {
            0nat
        }
    }
}

/// Positions before `k` where guess and answer agree on letter `l`.
pub open spec fn green_upto(g: Seq<char>, a: Seq<char>, l: int, k: int) -> nat
    decreases k,
{
    if k <= 0 {
        0
    } else {
        green_upto(g, a, l, k - 1) + if has_at(g, k - 1, l) && g[k - 1] == a[k - 1] {
            1nat
        } else {
            0nat
        }
    }
}

/// Positions before `k` where the guess shows letter `l` with a yellow result.
pub open spec fn yellow_upto(g: Seq<char>, a: Seq<char>, l: int, k: int) -> nat
    decreases k,
{
    if k <= 0 {
        0
    } else {
        yellow_upto(g, a, l, k - 1) + if has_at(g, k - 1, l) && tile(g, a, k - 1) == 'y' {
            1nat
        } else {
            0nat
        }
    }
}

/// The yellows of a letter are its first misses, as many as the answer
/// has unmatched copies.
proof fn lemma_yellow_upto(g: Seq<char>, a: Seq<char>, l: int, k: int)
    requires
        g.len() == 5,
        a.len() == 5,
        0 <= k <= 5,
    ensures
        yellow_upto(g, a, l, k) == if misses_upto(g, a, l, k) < unmatched_upto(g, a, l, 5) {
            misses_upto(g, a, l, k)
        } else {
            unmatched_upto(g, a, l, 5)
        },
    decreases k,
{
    if k > 0 {
        lemma_yellow_upto(g, a, l, k - 1);
    }
}

/// Green and yellow results of a letter, counted apart.
pub proof fn lemma_gy_split(g: Seq<char>, a: Seq<char>, l: int, k: int)
    requires
        g.len() == 5,
        0 <= k <= 5,
    ensures
        gy_upto(g, a, l, k) == green_upto(g, a, l, k) + yellow_upto(g, a, l, k),
        count_upto(g, l, k) == gy_upto(g, a, l, k) + black_upto(g, a, l, k),
    decreases k,
{
    if k > 0 {
        lemma_gy_split(g, a, l, k - 1);
    }
}

/// The copies of a letter in the answer are the matched and the unmatched.
proof fn lemma_answer_split(g: Seq<char>, a: Seq<char>, l: int, k: int)
    requires
        g.len() == 5,
        a.len() == 5,
        0 <= k <= 5,
    ensures
        count_upto(a, l, k) == green_upto(g, a, l, k) + unmatched_upto(g, a, l, k),
    decreases k,
{
    if k > 0 {
        lemma_answer_split(g, a, l, k - 1);
    }
}

proof fn lemma_green_mono(g: Seq<char>, a: Seq<char>, l: int, k: int)
    requires
        0 <= k <= 5,
    ensures
        green_upto(g, a, l, k) <= green_upto(g, a, l, 5),
    decreases 5 - k,
{
    if k < 5 {
        lemma_green_mono(g, a, l, k + 1);
    }
}

proof fn lemma_misses_mono(g: Seq<char>, a: Seq<char>, l: int, k: int)
    requires
        0 <= k <= 5,
    ensures
        misses_upto(g, a, l, k) <= misses_upto(g, a, l, 5),
    decreases 5 - k,
{
    if k < 5 {
        lemma_misses_mono(g, a, l, k + 1);
    }
}

/// A guess never shows a letter green or yellow more often than the answer
/// holds it.
pub proof fn lemma_gy_bound(g: Seq<char>, a: Seq<char>, l: int, k: int)
    requires
        g.len() == 5,
        a.len() == 5,
        0 <= k <= 5,
    ensures
        gy_upto(g, a, l, k) <= count_letter(a, l),
{
    lemma_gy_split(g, a, l, k);
    lemma_yellow_upto(g, a, l, k);
    lemma_green_mono(g, a, l, k);
    lemma_answer_split(g, a, l, 5);
}

/// A black result for a letter means the green and yellow results of the
/// letter count its copies in the answer exactly.
pub proof fn lemma_black_exact(g: Seq<char>, a: Seq<char>, l: int, p: int)
    requires
        g.len() == 5,
        a.len() == 5,
        0 <= p < 5,
        has_at(g, p, l),
        tile(g, a, p) == 'b',
    ensures
        gy_upto(g, a, l, 5) == count_letter(a, l),
{
    lemma_gy_split(g, a, l, 5);
    lemma_yellow_upto(g, a, l, 5);
    lemma_answer_split(g, a, l, 5);
    lemma_misses_mono(g, a, l, p + 1);
}

} // verus!
