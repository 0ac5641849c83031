use regex_puzzle::simplify_regex;

#[test]
fn lib_minimal() {
    assert_eq!("", simplify_regex(""));
}

#[test]
fn lib_one_digit() {
    assert_eq!("0", simplify_regex("0"));
    assert_eq!("1", simplify_regex("1"));
    assert_eq!("2", simplify_regex("2"));
    assert_eq!("3", simplify_regex("3"));
}

#[test]
fn lib_one_digit_merge() {
    assert_eq!("[01]", simplify_regex("0|1"));
    assert_eq!("[12]", simplify_regex("1|2"));
    assert_eq!("[23]", simplify_regex("2|3"));
    assert_eq!("[03]", simplify_regex("3|0"));
}

#[test]
fn lib_one_digit_plus() {
    assert_eq!("0+", simplify_regex("0+"));
    assert_eq!("1+", simplify_regex("1+"));
    assert_eq!("2+", simplify_regex("2+"));
    assert_eq!("3+", simplify_regex("3+"));
}

#[test]
fn or_empty() {
    assert_eq!("|0", simplify_regex("|0"));
    assert_eq!("|1", simplify_regex("1|"));
}

#[test]
fn found_example_1() {
    assert_eq!(".|1+|[012]*", simplify_regex("(1)+|.|1+|[012]*"));
}
