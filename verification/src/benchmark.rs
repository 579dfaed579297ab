//! Plays a whole game against a known answer, as the benchmark does for
//! every word of the list.

use vstd::prelude::*;
use crate::feedback::{feedback, get_result};
use crate::model::{
    SolverModel, best_index, best_word, give_safe, give_spec, search_safe,
};
use crate::solver::Solver;
use crate::words::{five_letters, storable};
use crate::knowledge::know_wf;
use crate::soundness::agrees;

verus! {

/// Turn after which a game is given up.
pub const MAX_TURNS: u32 = 20;

/// Why a game was not won.
#[derive(Debug, PartialEq, Eq)]
pub enum FailReason {
    /// No possible answer was left after the guess given at `turn`.
    NoAnswer { turn: u32, guess: String },
    /// The game reached the last turn unsolved.
    TooManyTurns,
}

/// The end of a game, as plain values.
pub enum GameEnd {
    Solved(nat),
    NoAnswer(nat, Seq<char>),
    TooManyTurns,
    /// `give` or `search` would overflow.
    Overflow,
}

/// The result string of five greens.
pub open spec fn all_green() -> Seq<char> {
    seq!['g', 'g', 'g', 'g', 'g']
}

/// The end of a game from state `m`, guessing `g` at `turn`, against answer `a`.
pub open spec fn game(m: SolverModel, a: Seq<char>, g: Seq<char>, turn: int) -> GameEnd
    decreases 20 - turn,
{
    let r = feedback(g, a);
    if r == all_green() {
        GameEnd::Solved(turn as nat)
    } else if turn >= 20 || turn < 0 {
        GameEnd::TooManyTurns
    } else if !give_safe(m, g, r) {
        GameEnd::Overflow
    } else {
        let (m2, out) = give_spec(m, g, r);
        match out {
            Ok(Some(k)) => game(m2, a, k, turn + 1),
            Ok(None) => if search_safe(m2) {
                game(m2, a, m2.words[best_index(m2)], turn + 1)
            } else {
                GameEnd::Overflow
            },
            Err(_) => GameEnd::NoAnswer(turn as nat, g),
        }
    }
}

/// The result of `simulate` as plain values.
pub open spec fn game_view(r: Option<Result<u32, FailReason>>) -> GameEnd {
    match r {
        None => GameEnd::Overflow,
        Some(Ok(t)) => GameEnd::Solved(t as nat),
        Some(Err(FailReason::NoAnswer { turn, guess })) => GameEnd::NoAnswer(turn as nat, guess@),
        Some(Err(FailReason::TooManyTurns)) => GameEnd::TooManyTurns,
    }
}

/// `w` is one of the first `n` words of `ws`.
spec fn among(ws: Seq<Seq<char>>, w: Seq<char>, n: int) -> bool {
    exists|i: int| 0 <= i < n && #[trigger] ws[i] == w
}

/// Each word that `p` marks among the first `n` is a word of the list.
proof fn lemma_marked_in_list(ws: Seq<Seq<char>>, p: Seq<bool>, n: int)
    requires
        0 <= n <= ws.len(),
    ensures
        forall|x: int|
            0 <= x < crate::model::marked_words(ws, p, n).len() ==> among(
                ws,
                #[trigger] crate::model::marked_words(ws, p, n)[x],
                n,
            ),
    decreases n,
{
    if n > 0 {
        lemma_marked_in_list(ws, p, n - 1);
        let prev = crate::model::marked_words(ws, p, n - 1);
        let cur = crate::model::marked_words(ws, p, n);
        assert forall|x: int| 0 <= x < cur.len() implies among(ws, #[trigger] cur[x], n) by {
            if x < prev.len() {
                assert(cur[x] == prev[x]);
                assert(among(ws, prev[x], n - 1));
                let i = choose|i: int| 0 <= i < n - 1 && #[trigger] ws[i] == prev[x];
                assert(0 <= i < n && ws[i] == cur[x]);
            } else {
                assert(cur[x] == ws[n - 1]);
            }
        }
    }
}

/// Word `b` is the first of the highest scores among the first `n` words.
spec fn best_upto(m: SolverModel, b: int, n: int) -> bool {
    &&& 0 <= b < n
    &&& forall|j: int|
        0 <= j < n ==> crate::model::score(m, #[trigger] m.words[j]) <= crate::model::score(
            m,
            m.words[b],
        )
    &&& forall|j: int|
        0 <= j < b ==> crate::model::score(m, #[trigger] m.words[j]) < crate::model::score(
            m,
            m.words[b],
        )
}

/// Among the first `n` words some scores highest.
proof fn lemma_best_upto(m: SolverModel, n: int)
    requires
        0 < n <= m.words.len(),
    ensures
        exists|b: int| #[trigger] best_upto(m, b, n),
    decreases n,
{
    if n > 1 {
        lemma_best_upto(m, n - 1);
        let b = choose|b: int| #[trigger] best_upto(m, b, n - 1);
        if crate::model::score(m, m.words[n - 1]) > crate::model::score(m, m.words[b]) {
            assert forall|j: int| 0 <= j < n implies crate::model::score(m, #[trigger] m.words[j])
                <= crate::model::score(m, m.words[n - 1]) by {
                if j < n - 1 {
                    assert(crate::model::score(m, m.words[j]) <= crate::model::score(m, m.words[b]));
                }
            }
            assert(best_upto(m, n - 1, n));
        } else {
            assert forall|j: int| 0 <= j < n implies crate::model::score(m, #[trigger] m.words[j])
                <= crate::model::score(m, m.words[b]) by {
                if j < n - 1 {
                    assert(crate::model::score(m, m.words[j]) <= crate::model::score(m, m.words[b]));
                }
            }
            assert(best_upto(m, b, n));
        }
    } else {
        assert(best_upto(m, 0, n));
    }
}

/// Against an answer that is still possible, a game never ends with no
/// answer left: every true result keeps the answer possible, and the
/// answer, once it is the only one left, is the next guess.
pub proof fn law_game_never_loses_answer(m: SolverModel, j: int, g: Seq<char>, turn: int)
    requires
        know_wf(m.know),
        0 <= j < m.possible.len(),
        m.possible.len() == m.words.len(),
        m.possible[j],
        storable(m.words[j]),
        agrees(m.know, m.words[j]),
        forall|i: int| 0 <= i < m.words.len() ==> five_letters(#[trigger] m.words[i]),
        five_letters(g),
    ensures
        !(game(m, m.words[j], g, turn) is NoAnswer),
    decreases 20 - turn,
{
    let a = m.words[j];
    let r = feedback(g, a);
    if r != all_green() && 0 <= turn < 20 {
        crate::soundness::law_true_result_keeps_answer(m, g, j);
        crate::laws::law_give_narrows(m, g, r);
        crate::laws::law_give_outcome(m, g, r);
        let (m2, out) = give_spec(m, g, r);
        match out {
            Ok(Some(k)) => {
                let n = m2.possible.len() as int;
                lemma_marked_in_list(m2.words, m2.possible, n);
                assert(crate::model::possible_words(m2)[0] == k);
                assert(among(m2.words, crate::model::marked_words(m2.words, m2.possible, n)[0], n));
                let i = choose|i: int| 0 <= i < n && #[trigger] m2.words[i] == k;
                assert(five_letters(m2.words[i]));
                law_game_never_loses_answer(m2, j, k, turn + 1);
            },
            Ok(None) => {
                if search_safe(m2) {
                    lemma_best_upto(m2, m2.words.len() as int);
                    let b = choose|b: int| #[trigger] best_upto(m2, b, m2.words.len() as int);
                    assert(best_word(m2, b));
                    assert(best_word(m2, best_index(m2)));
                    law_game_never_loses_answer(m2, j, m2.words[best_index(m2)], turn + 1);
                }
            },
            Err(_) => {},
        }
    }
}

/// A game is never solved before the turn it starts at.
proof fn lemma_solved_not_before(m: SolverModel, a: Seq<char>, g: Seq<char>, turn: int, t: nat)
    requires
        0 <= turn,
        game(m, a, g, turn) == GameEnd::Solved(t),
    ensures
        t >= turn,
        t == turn ==> feedback(g, a) == all_green(),
    decreases 20 - turn,
{
    let r = feedback(g, a);
    if r != all_green() && 0 <= turn < 20 && give_safe(m, g, r) {
        let (m2, out) = give_spec(m, g, r);
        match out {
            Ok(Some(k)) => {
                lemma_solved_not_before(m2, a, k, turn + 1, t);
            },
            Ok(None) => {
                if search_safe(m2) {
                    lemma_solved_not_before(m2, a, m2.words[best_index(m2)], turn + 1, t);
                }
            },
            Err(_) => {},
        }
    }
}

/// A game opens with the guess it is given: it is solved at the turn it
/// starts at exactly when that guess is the answer.
pub proof fn law_game_opens_with_guess(m: SolverModel, a: Seq<char>, g: Seq<char>, turn: int)
    requires
        five_letters(a),
        five_letters(g),
        0 <= turn,
    ensures
        (game(m, a, g, turn) == GameEnd::Solved(turn as nat)) <==> g == a,
{
    if g == a {
        assert(feedback(g, a) =~= all_green()) by {
            assert forall|p: int| 0 <= p < 5 implies feedback(g, a)[p] == 'g' by {
                assert(feedback(g, a)[p] == crate::feedback::tile(g, a, p));
            }
        }
    }
    if game(m, a, g, turn) == GameEnd::Solved(turn as nat) {
        lemma_solved_not_before(m, a, g, turn, turn as nat);
        assert forall|p: int| 0 <= p < 5 implies g[p] == a[p] by {
            assert(feedback(g, a)[p] == all_green()[p]);
            assert(feedback(g, a)[p] == crate::feedback::tile(g, a, p));
        }
        assert(g =~= a);
    }
}

/// Whether a result string is five greens.
fn is_all_green(r: &String) -> (b: bool)
    ensures
        b == (r@ == all_green()),
{
    let c = crate::words::chars_of(r.as_str());
    if c.len() != 5 {
        return false;
    }
    let b = c[0] == 'g' && c[1] == 'g' && c[2] == 'g' && c[3] == 'g' && c[4] == 'g';
    proof {
        if b {
            assert(c@ =~= all_green());
        }
    }
    b
}

/// Plays a game against `answer` from `solver`, guessing `first_guess`
/// first, then the known answer or the suggestion of `search`: returns the
/// turn at which the result is five greens, or why the game failed; `None`
/// when `give` or `search` would overflow on the way.
pub fn simulate(solver: &mut Solver, answer: &str, first_guess: &str) -> (r: Option<
    Result<u32, FailReason>,
>)
    requires
        old(solver).wf(),
        five_letters(answer@),
        five_letters(first_guess@),
        forall|j: int| 0 <= j < old(solver)@.words.len() ==> five_letters(#[trigger] old(solver)@.words[j]),
    ensures
        game_view(r) == game(old(solver)@, answer@, first_guess@, 1),
{
    let ghost m0 = solver@;
    let mut guess: String = first_guess.to_owned();
    let mut turn: u32 = 1;
    loop
        invariant
            m0 == old(solver)@,
            solver.wf(),
            solver@.words == m0.words,
            1 <= turn <= 20,
            five_letters(answer@),
            five_letters(guess@),
            forall|j: int| 0 <= j < m0.words.len() ==> five_letters(#[trigger] m0.words[j]),
            game(solver@, answer@, guess@, turn as int) == game(m0, answer@, first_guess@, 1),
        decreases 20 - turn,
    {
        let result = get_result(guess.as_str(), answer);
        if is_all_green(&result) {
            return Some(Ok(turn));
        }
        if turn >= MAX_TURNS {
            return Some(Err(FailReason::TooManyTurns));
        }
        if !solver.give_is_safe(guess.as_str(), result.as_str()) {
            return None;
        }
        let ghost m = solver@;
        match solver.give(guess.as_str(), result.as_str()) {
            Ok(Some(known)) => {
                proof {
                    let p = solver@.possible;
                    if !(exists|j: int| 0 <= j < p.len() && p[j]) {
                        crate::model::lemma_none_marked(p, p.len() as int);
                    }
                    let c = choose|j: int| 0 <= j < p.len() && p[j];
                    solver.lemma_wf_lengths();
                    assert(known@ == solver@.words[c]);
                }
                guess = known;
            },
            Ok(None) => {
                if !solver.search_is_safe() {
                    return None;
                }
                let next = solver.search();
                proof {
                    let b = choose|b: int| best_word(solver@, b) && next@ == solver@.words[b];
                    crate::laws::law_best_word_unique(solver@, b, best_index(solver@));
                }
                guess = next.to_owned();
            },
            Err(_) => {
                return Some(Err(FailReason::NoAnswer { turn, guess: guess.clone() }));
            },
        }
        turn = turn + 1;
    }
}

} // verus!
