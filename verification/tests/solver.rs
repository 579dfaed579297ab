use wordle_solver::input::parse_turn;
use wordle_solver::model::StateError;
use wordle_solver::report::{check_tiles, give_report};
use wordle_solver::solver::Solver;
use wordle_solver::words::{offset_from_a, word_is_storable};

const WORDS: &str = "crane slate point crank crate grate irate trace react caret cater cheat \
chest chess eerie sassy apple apply angle ankle boost booth brick bring broke brown candy canny \
cable cabin delta dealt dream drone eager eagle early earth";

fn word_list() -> Vec<String> {
    WORDS.split_whitespace().map(|w| w.to_string()).collect()
}

fn solver() -> Solver {
    Solver::new(word_list())
}

fn strings(v: &[&str]) -> Vec<String> {
    v.iter().map(|s| s.to_string()).collect()
}

#[test]
fn offset_of_letters() {
    assert_eq!(offset_from_a('a'), 0);
    assert_eq!(offset_from_a('b'), 1);
    assert_eq!(offset_from_a('z'), 25);
}

#[test]
fn new_keeps_every_word() {
    let s = solver();
    assert_eq!(s.all_words().len(), 38);
    assert_eq!(s.all_words()[0], "crane");
    assert_eq!(s.all_words()[37], "earth");
    assert_eq!(s.possible_count(), 38);
    assert_eq!(s.possible_answers(3), strings(&["crane", "slate", "point"]));
}

#[test]
fn new_counts_a_repeated_word_once() {
    let s = Solver::new(strings(&["apple", "apple", "berry"]));
    assert_eq!(s.all_words().len(), 3);
    assert_eq!(s.possible_count(), 2);
    assert_eq!(s.possible_answers(5), strings(&["apple", "berry"]));
}

#[test]
fn fresh_search_picks_first_word() {
    let s = solver();
    assert!(s.search_is_safe());
    assert_eq!(s.search(), "crane");
}

#[test]
fn give_narrows_to_several() {
    let mut s = solver();
    assert!(s.give_is_safe("slate", "bbggg"));
    assert_eq!(s.give("slate", "bbggg"), Ok(None));
    assert_eq!(s.possible_count(), 3);
    assert_eq!(s.possible_answers(5), strings(&["crate", "grate", "irate"]));
    assert_eq!(s.possible_answers(2), strings(&["crate", "grate"]));
    assert!(s.search_is_safe());
    assert_eq!(s.search(), "caret");
}

#[test]
fn game_reaches_grate() {
    let mut s = solver();
    assert_eq!(s.give("slate", "bbggg"), Ok(None));
    assert_eq!(s.give("caret", "byyyy"), Ok(None));
    assert_eq!(s.possible_count(), 2);
    assert_eq!(s.possible_answers(5), strings(&["grate", "irate"]));
    assert_eq!(s.search(), "grate");
    assert_eq!(s.give("grate", "ggggg"), Ok(Some("grate".to_string())));
    assert_eq!(s.possible_count(), 1);
}

#[test]
fn game_reaches_irate() {
    let mut s = solver();
    assert_eq!(s.give("slate", "bbggg"), Ok(None));
    assert_eq!(s.give("caret", "byyyy"), Ok(None));
    assert_eq!(s.give("grate", "bgggg"), Ok(Some("irate".to_string())));
}

#[test]
fn game_reaches_crate() {
    let mut s = solver();
    assert_eq!(s.give("slate", "bbggg"), Ok(None));
    assert_eq!(s.give("caret", "gyyyy"), Ok(Some("crate".to_string())));
}

#[test]
fn all_green_names_the_word() {
    let mut s = solver();
    assert_eq!(s.give("point", "ggggg"), Ok(Some("point".to_string())));
    assert_eq!(s.possible_answers(5), strings(&["point"]));
}

#[test]
fn wrong_lengths_are_refused_without_change() {
    let mut s = solver();
    assert_eq!(s.give("abc", "bbbbb"), Err(StateError::InvalidInput));
    assert_eq!(s.give("crane", "bbb"), Err(StateError::InvalidInput));
    assert_eq!(s.give("cranes", "bbbbb"), Err(StateError::InvalidInput));
    assert_eq!(s.possible_count(), 38);
}

#[test]
fn bad_letter_stops_after_earlier_tiles() {
    let mut s = solver();
    assert_eq!(s.give("cr4ne", "bbbbb"), Err(StateError::InvalidInput));
    // the tiles for `c` and `r` were applied before the error
    assert_eq!(s.possible_count(), 12);
}

#[test]
fn bad_result_stops_after_earlier_tiles() {
    let mut s = solver();
    assert_eq!(s.give("crane", "bbxbb"), Err(StateError::InvalidInput));
    assert_eq!(s.possible_count(), 12);
    assert_eq!(
        s.possible_answers(5),
        strings(&["slate", "point", "sassy", "apple", "apply"])
    );
}

#[test]
fn uppercase_guess_is_refused() {
    let mut s = solver();
    assert_eq!(s.give("Crane", "bbbbb"), Err(StateError::InvalidInput));
    assert_eq!(s.possible_count(), 38);
}

#[test]
fn no_word_left_is_reported() {
    let mut s = solver();
    assert_eq!(s.give("crane", "gbbbb"), Err(StateError::NoAnswer));
    assert_eq!(s.possible_count(), 0);
}

#[test]
fn repeated_letter_all_black_is_absent() {
    // every copy of `e` is black: the answer holds no `e`, nor `r`, nor `i`
    let mut s = solver();
    assert!(s.give_is_safe("eerie", "bbbbb"));
    assert_eq!(s.give("eerie", "bbbbb"), Ok(None));
    assert_eq!(
        s.possible_answers(10),
        strings(&["sassy", "apply", "boost", "booth", "candy", "canny"])
    );
}

#[test]
fn black_copy_beside_a_green_one_is_present_elsewhere() {
    // `teeth` against `mouth`: the first `t` is black but the fourth is
    // green, and both `e` are black
    let mut s = Solver::new(strings(&["mouth", "teeth"]));
    assert!(s.give_is_safe("teeth", "bbbgg"));
    assert_eq!(s.give("teeth", "bbbgg"), Ok(Some("mouth".to_string())));
    assert_eq!(s.possible_answers(5), strings(&["mouth"]));
}

#[test]
fn too_many_known_letters_is_unsafe() {
    let mut s = solver();
    assert!(s.give_is_safe("abcde", "ggggg"));
    assert_eq!(s.give("abcde", "ggggg"), Err(StateError::NoAnswer));
    assert!(!s.give_is_safe("fghij", "yyyyy"));
    // a malformed result stops before the counts matter
    assert!(s.give_is_safe("fghij", "yyyyq"));
    assert!(s.give_is_safe("fghi", "yyyyy"));
}

#[test]
fn more_greens_than_count_makes_search_unsafe() {
    let mut s = solver();
    assert_eq!(s.give("crane", "gbbbb"), Err(StateError::NoAnswer));
    assert_eq!(s.give("scary", "bgbbb"), Err(StateError::NoAnswer));
    assert!(!s.search_is_safe());
}

#[test]
fn empty_list_search_is_unsafe() {
    let s = Solver::new(Vec::new());
    assert!(!s.search_is_safe());
    assert_eq!(s.possible_count(), 0);
}

#[test]
fn storable_words() {
    assert!(word_is_storable("crane"));
    assert!(word_is_storable("eerie"));
    assert!(word_is_storable(""));
    assert!(word_is_storable("ab"));
    assert!(!word_is_storable("eeeee"));
    assert!(!word_is_storable("cranes"));
    assert!(!word_is_storable("Crane"));
    assert!(!word_is_storable("cr4ne"));
}

#[test]
fn tile_strings() {
    assert!(check_tiles("bygyb"));
    assert!(check_tiles("ggggg"));
    assert!(!check_tiles("bygy"));
    assert!(!check_tiles("bygybg"));
    assert!(!check_tiles("bxgyb"));
}

#[test]
fn report_for_several_answers() {
    let mut s = solver();
    let rep = give_report(&mut s, "slate", "bbggg").unwrap();
    assert_eq!(rep.answer, None);
    assert_eq!(rep.possible_count, Some(3));
    assert_eq!(rep.candidates, Some(strings(&["crate", "grate", "irate"])));
    assert_eq!(rep.next_word, Some("caret".to_string()));
    assert_eq!(rep.error, None);
}

#[test]
fn report_for_the_answer() {
    let mut s = solver();
    let rep = give_report(&mut s, "point", "ggggg").unwrap();
    assert_eq!(rep.answer, Some("point".to_string()));
    assert_eq!(rep.possible_count, Some(1));
    assert_eq!(rep.candidates, None);
    assert_eq!(rep.next_word, None);
    assert_eq!(rep.error, None);
}

#[test]
fn report_errors() {
    let mut s = solver();
    let rep = give_report(&mut s, "slate", "bbgg").unwrap();
    assert_eq!(
        rep.error,
        Some("Invalid result. Use g (green), y (yellow), b (black).".to_string())
    );
    assert_eq!(s.possible_count(), 38);
    let rep = give_report(&mut s, "sl4te", "bbggg").unwrap();
    assert_eq!(rep.error, Some("Invalid input.".to_string()));
    let mut s = solver();
    let rep = give_report(&mut s, "crane", "gbbbb").unwrap();
    assert_eq!(rep.error, Some("No way...".to_string()));
    assert_eq!(rep.possible_count, None);
}

#[test]
fn typed_turns() {
    assert_eq!(
        parse_turn("world bygyb\n"),
        Some(("world".to_string(), "bygyb".to_string()))
    );
    assert_eq!(
        parse_turn("  world \t bygyb  "),
        Some(("world".to_string(), "bygyb".to_string()))
    );
    assert_eq!(parse_turn("world\u{3000}bygyb"), Some(("world".to_string(), "bygyb".to_string())));
    assert_eq!(parse_turn("world"), None);
    assert_eq!(parse_turn(""), None);
    assert_eq!(parse_turn("   \n"), None);
    assert_eq!(parse_turn("a b c"), None);
}

#[test]
fn forced_greens_keep_both_answers() {
    // the result forces the last green of `x`; the count filter of that step
    // tests the count of `x`, so both words, which fit the result, stay
    let mut s = Solver::new(strings(&["aaxbc", "aaxac"]));
    assert!(s.give_is_safe("aaqxc", "ggbyg"));
    assert_eq!(s.give("aaqxc", "ggbyg"), Ok(None));
    assert_eq!(s.possible_answers(5), strings(&["aaxbc", "aaxac"]));
}

#[test]
fn all_black_letter_absent_from_every_word() {
    let mut s = solver();
    assert!(s.give_is_safe("xxxxx", "bbbbb"));
    assert_eq!(s.give("xxxxx", "bbbbb"), Ok(None));
    assert_eq!(s.possible_count(), 38);
}

#[test]
fn give_only_removes_and_search_repeats() {
    let mut s = solver();
    let before = s.possible_answers(100);
    assert_eq!(s.search(), s.search());
    assert_eq!(s.give("slate", "bbggg"), Ok(None));
    let after = s.possible_answers(100);
    assert!(after.iter().all(|w| before.contains(w)));
    assert_eq!(s.search(), "caret");
    assert_eq!(s.search(), "caret");
    // a failed turn removes nothing back
    assert!(s.give_is_safe("grate", "bbbbb"));
    assert_eq!(s.give("grate", "bbbbb"), Err(StateError::NoAnswer));
    assert_eq!(s.possible_count(), 0);
    assert!(s.give_is_safe("slate", "bbggg"));
    assert_eq!(s.give("slate", "bbggg"), Err(StateError::NoAnswer));
}
