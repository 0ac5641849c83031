use regex_puzzle::remove_parens;

#[test]
fn remove_parens_minimal() {
    assert_eq!("", remove_parens(""));
}

#[test]
fn one_digit_no_parens() {
    assert_eq!("0", remove_parens("0"));
    assert_eq!("1", remove_parens("1"));
    assert_eq!("2", remove_parens("2"));
    assert_eq!("3", remove_parens("3"));
}

#[test]
fn remove_parens_one_digit() {
    assert_eq!("0", remove_parens("(0)"));
    assert_eq!("1", remove_parens("(1)"));
    assert_eq!("2", remove_parens("(2)"));
    assert_eq!("3", remove_parens("(3)"));
}

#[test]
fn one_digit_times() {
    assert_eq!("0*", remove_parens("(0)*"));
    assert_eq!("1+", remove_parens("(1)+"));
}

#[test]
fn one_digit_star_and_plus() {
    assert_eq!("0*", remove_parens("(0*)*"));
    assert_eq!("1*", remove_parens("(1*)+"));
    assert_eq!("2*", remove_parens("(2+)*"));
    assert_eq!("3+", remove_parens("(3+)+"));
}
