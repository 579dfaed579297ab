use wordle_solver::benchmark::{simulate, FailReason};
use wordle_solver::feedback::get_result;
use wordle_solver::solver::Solver;

const WORDS: &str = "crane slate point crank crate grate irate trace react caret cater cheat \
chest chess eerie sassy apple apply angle ankle boost booth brick bring broke brown candy canny \
cable cabin delta dealt dream drone eager eagle early earth";

fn word_list() -> Vec<String> {
    WORDS.split_whitespace().map(|w| w.to_string()).collect()
}

#[test]
fn results_of_guesses() {
    assert_eq!(get_result("crane", "grate"), "bggbg");
    assert_eq!(get_result("caret", "grate"), "byyyy");
    assert_eq!(get_result("grate", "grate"), "ggggg");
    assert_eq!(get_result("sassy", "apply"), "bybbg");
    assert_eq!(get_result("apple", "eagle"), "ybbgg");
    assert_eq!(get_result("eerie", "eagle"), "gbbbg");
    assert_eq!(get_result("speed", "abide"), "bbyby");
    assert_eq!(get_result("geese", "those"), "bbbgg");
    assert_eq!(get_result("llama", "hello"), "yybbb");
}

#[test]
fn games_that_are_won() {
    for (answer, turns) in [("crane", 1), ("grate", 2), ("irate", 3), ("earth", 4), ("chest", 3)] {
        let mut s = Solver::new(word_list());
        assert_eq!(simulate(&mut s, answer, "crane"), Some(Ok(turns)), "{}", answer);
    }
}

#[test]
fn games_won_through_a_repeated_black_letter() {
    // `sassy` against `apply` and `apple` against `eagle` hold a letter
    // twice with one copy black
    let mut s = Solver::new(word_list());
    assert_eq!(simulate(&mut s, "apply", "crane"), Some(Ok(3)));
    let mut s = Solver::new(word_list());
    assert_eq!(simulate(&mut s, "eagle", "crane"), Some(Ok(3)));
}

#[test]
fn every_word_of_the_list_is_found() {
    for answer in word_list() {
        let mut s = Solver::new(word_list());
        let r = simulate(&mut s, &answer, "crane");
        assert!(matches!(r, Some(Ok(_))), "{} {:?}", answer, r);
    }
}

#[test]
fn answer_outside_the_list_is_lost() {
    // the answer is not in the list: the solver soon has no answer left
    let mut s = Solver::new(word_list());
    let r = simulate(&mut s, "zzzzz", "crane");
    assert!(matches!(r, Some(Err(FailReason::NoAnswer { .. }))));
}

#[test]
fn true_result_keeps_the_answer() {
    for guess in ["crane", "eerie", "sassy", "apple", "teeth"] {
        for answer in word_list() {
            let mut s = Solver::new(word_list());
            let result = get_result(guess, &answer);
            assert!(s.give_is_safe(guess, &result));
            let out = s.give(guess, &result);
            assert!(out.is_ok(), "{} {}", guess, answer);
            assert!(s.possible_answers(100).contains(&answer), "{} {}", guess, answer);
        }
    }
}

#[test]
fn give_only_removes_answers() {
    let mut s = Solver::new(word_list());
    let before = s.possible_answers(100);
    let _ = s.give("slate", "bbggg");
    let after = s.possible_answers(100);
    assert!(after.iter().all(|w| before.contains(w)));
    assert!(after.len() < before.len());
}

#[test]
fn named_answer_is_the_only_one_left() {
    let mut s = Solver::new(word_list());
    let out = s.give("crane", "ggggb");
    assert_eq!(out, Ok(Some("crank".to_string())));
    assert_eq!(s.possible_answers(100), vec!["crank".to_string()]);
}
