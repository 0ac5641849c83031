use rand::rngs::StdRng;
use rand::SeedableRng;
use regex_puzzle::{generate_regex, simplify_regex, Matcher, Times};

#[test]
fn generated_patterns_compile_and_are_canonical() {
    let mut rng = StdRng::seed_from_u64(42);
    for _ in 0..10_000 {
        let m = generate_regex(&mut rng).expect("a pattern within the attempts");
        let text = m.as_str().to_string();
        assert!(text.starts_with('^') && text.ends_with('$'), "{}", text);
        assert!(Matcher::new(&text).is_ok(), "{}", text);
        let body = &text[1..text.len() - 1];
        assert_eq!(body, simplify_regex(body), "{}", text);
    }
}

#[test]
fn generation_is_reproducible_under_a_seed() {
    let mut a = StdRng::seed_from_u64(7);
    let mut b = StdRng::seed_from_u64(7);
    for _ in 0..50 {
        let x = generate_regex(&mut a).unwrap();
        let y = generate_regex(&mut b).unwrap();
        assert_eq!(x.as_str(), y.as_str());
    }
}

#[test]
fn times_suffixes() {
    assert_eq!("", Times::Once.as_str());
    assert_eq!("*", Times::ZeroOrMore.as_str());
    assert_eq!("+", Times::OneOrMore.as_str());
}

#[test]
fn random_times_cover_all_three() {
    let mut rng = StdRng::seed_from_u64(1);
    let mut seen = [false; 3];
    for _ in 0..200 {
        match Times::random(&mut rng) {
            Times::Once => seen[0] = true,
            Times::ZeroOrMore => seen[1] = true,
            Times::OneOrMore => seen[2] = true,
        }
    }
    assert_eq!([true, true, true], seen);
}
