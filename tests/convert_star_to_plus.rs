use regex_puzzle::convert_star_to_plus;

#[test]
fn convert_star_to_plus_minimal() {
    assert_eq!("", convert_star_to_plus(""));
}

#[test]
fn convert_star_to_plus_one_digit() {
    assert_eq!("0", convert_star_to_plus("0"));
    assert_eq!("1", convert_star_to_plus("1"));
    assert_eq!("2", convert_star_to_plus("2"));
    assert_eq!("3", convert_star_to_plus("3"));
}

#[test]
fn one_digit_star_to_plus() {
    assert_eq!("0+", convert_star_to_plus("00*"));
    assert_eq!("1+", convert_star_to_plus("11*"));
    assert_eq!("2+", convert_star_to_plus("22*"));
    assert_eq!("3+", convert_star_to_plus("33*"));
}

#[test]
fn one_digit_plus_to_plus() {
    assert_eq!("0+", convert_star_to_plus("0+"));
    assert_eq!("1+", convert_star_to_plus("1+"));
    assert_eq!("2+", convert_star_to_plus("2+"));
    assert_eq!("3+", convert_star_to_plus("3+"));
}
