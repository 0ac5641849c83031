use regex_puzzle::get_matching_paren_index;

#[test]
fn minimal_none() {
    assert_eq!(None, get_matching_paren_index("", 0));
    assert_eq!(None, get_matching_paren_index("(", 0));
}

#[test]
fn minimal_find() {
    assert_eq!(Some(1), get_matching_paren_index("()", 0));
}

#[test]
fn inner() {
    assert_eq!(Some(3), get_matching_paren_index("1(2)3", 1));
}

#[test]
fn nested() {
    assert_eq!(Some(4), get_matching_paren_index("(1(2)3)", 2));
    assert_eq!(Some(6), get_matching_paren_index("(1(2)3)", 0));
}

#[test]
fn unbalanced_inner_is_none() {
    assert_eq!(None, get_matching_paren_index("((1)", 0));
    assert_eq!(None, get_matching_paren_index("()", 5));
}
