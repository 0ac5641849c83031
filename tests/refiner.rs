use rand::rngs::StdRng;
use rand::SeedableRng;
use regex_puzzle::{
    edged_regex, refine_guess, simplify_regex, Example, Matcher, State, Turn, UIContext,
};

fn session(target: &str) -> State {
    let canonical = simplify_regex(target);
    State {
        rng: StdRng::seed_from_u64(3),
        title_screen: false,
        text: String::new(),
        regex: edged_regex(&canonical).unwrap(),
        guessed_regex: None,
        examples: Vec::new(),
        turn: Turn::InProgress,
        ui_context: UIContext::new(),
    }
}

fn submit(state: &mut State, text: &str) {
    state.text = text.to_string();
    state.submit();
    state.update_turn();
}

#[test]
fn converges_on_branch_examples() {
    for (target, branches) in [
        ("0|1", vec!["0", "1"]),
        ("1|23|00", vec!["1", "23", "00"]),
        ("3|2", vec!["3", "2"]),
        ("01|02|33", vec!["01", "02", "33"]),
    ] {
        let mut state = session(target);
        for b in branches {
            submit(&mut state, b);
        }
        assert_eq!(state.regex.as_str(), state.guess_str(), "target {}", target);
        assert!(state.turn == Turn::Finished, "target {}", target);
    }
}

#[test]
fn first_guess_groups_positive_examples() {
    let target = edged_regex("0+").unwrap();
    let examples = vec![
        Example::new("1", &target),
        Example::new("00", &target),
        Example::new("0", &target),
    ];
    assert!(!examples[0].matched && examples[1].matched && examples[2].matched);
    let guess = refine_guess("", &examples).unwrap();
    assert_eq!("^0|00$", guess.as_str());
}

#[test]
fn positive_example_wraps_with_plus() {
    let target = edged_regex("0+").unwrap();
    let examples = vec![Example::new("0", &target), Example::new("000", &target)];
    let guess = refine_guess("^0$", &examples).unwrap();
    assert_eq!("^0+$", guess.as_str());
}

#[test]
fn positive_example_that_fits_no_wrapping_becomes_a_branch() {
    let target = edged_regex("[01]").unwrap();
    let examples = vec![Example::new("0", &target), Example::new("1", &target)];
    let guess = refine_guess("^0$", &examples).unwrap();
    assert_eq!("^[01]$", guess.as_str());
}

#[test]
fn negative_example_leaves_guess_without_repair() {
    let target = edged_regex("0").unwrap();
    let examples = vec![Example::new("0", &target), Example::new("1", &target)];
    assert!(!examples[1].matched);
    let guess = refine_guess("^.$", &examples).unwrap();
    assert_eq!("^.$", guess.as_str());
}

#[test]
fn negative_example_with_quantifier_is_repaired() {
    let target = edged_regex("0").unwrap();
    let examples = vec![Example::new("0", &target), Example::new("0*0", &target)];
    assert!(!examples[1].matched);
    let guess = refine_guess("^.*$", &examples).unwrap();
    assert_eq!("^00$", guess.as_str());
}

#[test]
fn no_positive_examples_give_the_empty_pattern() {
    let target = edged_regex("0").unwrap();
    let examples = vec![Example::new("1", &target)];
    let guess = refine_guess("", &examples).unwrap();
    assert_eq!("^$", guess.as_str());
}

#[test]
fn repeated_example_is_ignored() {
    let mut state = session("0|1");
    submit(&mut state, "0");
    submit(&mut state, "0");
    assert_eq!(1, state.examples.len());
    assert_eq!("^0$", state.guess_str());
    assert!(state.text.is_empty());
}

#[test]
fn typing_and_erasing() {
    let mut state = session("0");
    state.type_digit(2);
    state.type_digit(3);
    assert_eq!("23", state.text);
    state.erase();
    assert_eq!("2", state.text);
    state.erase();
    state.erase();
    assert_eq!("", state.text);
}

#[test]
fn matcher_reports_its_source_and_matches() {
    let m = Matcher::new("^0+$").unwrap();
    assert_eq!("^0+$", m.as_str());
    assert!(m.is_match("000"));
    assert!(!m.is_match("001"));
    assert!(Matcher::new("(").is_err());
    assert!(edged_regex("(").is_err());
    assert_eq!("^0$", edged_regex("0").unwrap().as_str());
    assert_eq!("^0$", edged_regex("^0$").unwrap().as_str());
    assert_eq!("^$", edged_regex("").unwrap().as_str());
}
