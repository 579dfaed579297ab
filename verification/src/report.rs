//! The summary of one turn that the web front end shows: the answer, or the
//! number of possible answers with a few of them and the next guess, or an
//! error message.

use vstd::prelude::*;
use crate::model::{
    SolverModel, StateError, best_word, give_safe, give_spec, possible_count, possible_words,
    result_view, search_safe,
};
use crate::solver::{Solver, views};

verus! {

/// Number of possible answers that a report lists.
pub const REPORT_CANDIDATES: usize = 5;

/// The summary of one turn.
pub struct GiveReport {
    pub answer: Option<String>,
    pub possible_count: Option<usize>,
    pub candidates: Option<Vec<String>>,
    pub next_word: Option<String>,
    pub error: Option<String>,
}

/// A report as plain values.
pub struct ReportModel {
    pub answer: Option<Seq<char>>,
    pub possible_count: Option<nat>,
    pub candidates: Option<Seq<Seq<char>>>,
    pub next_word: Option<Seq<char>>,
    pub error: Option<Seq<char>>,
}

impl View for GiveReport {
    type V = ReportModel;

    open spec fn view(&self) -> ReportModel {
        ReportModel {
            answer: match self.answer {
                Some(s) => Some(s@),
                None => None,
            },
            possible_count: match self.possible_count {
                Some(c) => Some(c as nat),
                None => None,
            },
            candidates: match self.candidates {
                Some(v) => Some(views(v@)),
                None => None,
            },
            next_word: match self.next_word {
                Some(s) => Some(s@),
                None => None,
            },
            error: match self.error {
                Some(s) => Some(s@),
                None => None,
            },
        }
    }
}

/// A result string that names five tiles: each of `g`, `y` or `b`.
pub open spec fn tiles_ok(r: Seq<char>) -> bool {
    r.len() == 5 && forall|i: int| 0 <= i < 5 ==> (#[trigger] r[i] == 'g' || r[i] == 'y' || r[i]
        == 'b')
}

/// Message for a result string that does not name five tiles.
pub open spec fn invalid_result_message() -> Seq<char> {
    "Invalid result. Use g (green), y (yellow), b (black)."@
}

/// Message for a guess or result that `give` does not accept.
pub open spec fn invalid_input_message() -> Seq<char> {
    "Invalid input."@
}

/// Message when no word agrees with the results.
pub open spec fn no_answer_message() -> Seq<char> {
    "No way..."@
}

/// A report that holds only an error message.
pub open spec fn error_report(msg: Seq<char>) -> ReportModel {
    ReportModel {
        answer: None,
        possible_count: None,
        candidates: None,
        next_word: None,
        error: Some(msg),
    }
}

/// The report of a turn that leaves the solver in state `m` with outcome
/// `out`; `next` is the suggested next guess when several answers are left.
pub open spec fn report_for(
    m: SolverModel,
    out: Result<Option<Seq<char>>, StateError>,
    next: Seq<char>,
) -> ReportModel {
    match out {
        Err(StateError::InvalidInput) => error_report(invalid_input_message()),
        Err(StateError::NoAnswer) => error_report(no_answer_message()),
        Ok(Some(ans)) => ReportModel {
            answer: Some(ans),
            possible_count: Some(1),
            candidates: None,
            next_word: None,
            error: None,
        },
        Ok(None) => ReportModel {
            answer: None,
            possible_count: Some(possible_count(m)),
            candidates: Some(
                if possible_words(m).len() <= 5 {
                    possible_words(m)
                } else {
                    possible_words(m).take(5)
                },
            ),
            next_word: Some(next),
            error: None,
        },
    }
}

/// Message strings as `String`s.
fn message(s: &str) -> (r: String)
    ensures
        r@ == s@,
{
    s.to_owned()
}

/// Whether `r` names five tiles.
pub fn check_tiles(r: &str) -> (ok: bool)
    ensures
        ok == tiles_ok(r@),
{
    let c = crate::words::chars_of(r);
    if c.len() != 5 {
        return false;
    }
    for i in 0..5
        invariant
            c@ == r@,
            c@.len() == 5,
            forall|j: int| 0 <= j < i ==> (#[trigger] c@[j] == 'g' || c@[j] == 'y' || c@[j] == 'b'),
    {
        if !(c[i] == 'g' || c[i] == 'y' || c[i] == 'b') {
            return false;
        }
    }
    true
}

/// One turn of the web front end: checks the result string, gives the
/// guess to the solver, and summarises what follows. Returns `None` only
/// when several answers are left and `search` would overflow on the new
/// state (see `search_safe`).
pub fn give_report(solver: &mut Solver, word: &str, result: &str) -> (r: Option<GiveReport>)
    requires
        old(solver).wf(),
        give_safe(old(solver)@, word@, result@),
    ensures
        final(solver).wf(),
        !tiles_ok(result@) ==> (final(solver)@ == old(solver)@ && (r matches Some(rep) && rep@
            == error_report(invalid_result_message()))),
        tiles_ok(result@) ==> {
            let (m2, out) = give_spec(old(solver)@, word@, result@);
            &&& final(solver)@ == m2
            &&& (r is None <==> (out == Ok::<Option<Seq<char>>, StateError>(None) && !search_safe(
                m2,
            )))
            &&& (out != Ok::<Option<Seq<char>>, StateError>(None) ==> (r matches Some(rep) ==> rep@
                == report_for(m2, out, Seq::empty())))
            &&& (out == Ok::<Option<Seq<char>>, StateError>(None) ==> (r matches Some(rep)
                ==> exists|b: int| best_word(m2, b) && rep@ == report_for(m2, out, m2.words[b])))
        },
{
    if !check_tiles(result) {
        let rep = GiveReport {
            answer: None,
            possible_count: None,
            candidates: None,
            next_word: None,
            error: Some(message("Invalid result. Use g (green), y (yellow), b (black).")),
        };
        return Some(rep);
    }
    let out = solver.give(word, result);
    let ghost m2 = solver@;
    match out {
        Err(StateError::InvalidInput) => {
            let rep = GiveReport {
                answer: None,
                possible_count: None,
                candidates: None,
                next_word: None,
                error: Some(message("Invalid input.")),
            };
            assert(rep@ == report_for(m2, result_view(out), Seq::empty()));
            Some(rep)
        },
        Err(StateError::NoAnswer) => {
            let rep = GiveReport {
                answer: None,
                possible_count: None,
                candidates: None,
                next_word: None,
                error: Some(message("No way...")),
            };
            assert(rep@ == report_for(m2, result_view(out), Seq::empty()));
            Some(rep)
        },
        Ok(Some(ans)) => {
            let rep = GiveReport {
                answer: Some(ans),
                possible_count: Some(1),
                candidates: None,
                next_word: None,
                error: None,
            };
            assert(rep@ == report_for(m2, result_view(out), Seq::empty()));
            Some(rep)
        },
        Ok(None) => {
            if !solver.search_is_safe() {
                return None;
            }
            let count = solver.possible_count();
            let candidates = solver.possible_answers(REPORT_CANDIDATES);
            let next = solver.search();
            let ghost b = choose|b: int| best_word(m2, b) && next@ == m2.words[b];
            let rep = GiveReport {
                answer: None,
                possible_count: Some(count),
                candidates: Some(candidates),
                next_word: Some(next.to_owned()),
                error: None,
            };
            assert(rep@ == report_for(m2, result_view(out), m2.words[b]));
            Some(rep)
        },
    }
}

/// When several answers are left, the report counts every possible answer
/// (not only those it lists), lists the first five of them in the order of
/// the word list (all of them when there are fewer), and names the
/// suggested guess; it names no answer and no error.
pub proof fn law_report_counts_every_answer(m: SolverModel, next: Seq<char>)
    ensures
        ({
            let rep = report_for(m, Ok(None), next);
            let n = possible_words(m).len();
            &&& rep.possible_count == Some(n)
            &&& rep.candidates matches Some(c) && c.len() == (if n <= 5 {
                n
            } else {
                5
            }) && forall|i: int| 0 <= i < c.len() ==> c[i] == #[trigger] possible_words(m)[i]
            &&& rep.next_word == Some(next)
            &&& rep.answer is None
            &&& rep.error is None
        }),
{
    crate::laws::lemma_marked_len(m.words, m.possible, m.possible.len() as int);
}

} // verus!
