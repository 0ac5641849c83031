use regex_puzzle::{
    collect_sub_regexes, convert_empty_or_plus_to_star, get_sub_regexes, merge_into_classes,
    simplify_regex, simplify_regex_once, sort_sub_regexes,
};

fn assert_sorted_unique(pattern: &str) {
    let branches = get_sub_regexes(pattern);
    for pair in branches.windows(2) {
        assert!(pair[0] < pair[1], "{:?} not strictly ascending", branches);
    }
}

#[test]
fn canonicalizing_twice_changes_nothing() {
    for p in ["", "0", "0|1|2|3", "(1)+|.|1+|[012]*", "3|2|1|0|0", "00*|11*", "((0))*|1", "^0|1$", "|0|0+", "[01]0|[23]0"] {
        let once = simplify_regex(p);
        assert_eq!(once, simplify_regex(&once), "input {}", p);
        assert_eq!(once, simplify_regex_once(&once), "input {}", p);
    }
}

#[test]
fn canonical_branches_ascend_without_duplicates() {
    for p in ["3|2|1", "2+|1+|0+|2+", "(1)+|.|1+|[012]*", "1|11|1", "23|3|[01]2"] {
        assert_sorted_unique(&simplify_regex(p));
    }
}

#[test]
fn full_union_renders_as_dot() {
    assert_eq!(".", merge_into_classes("[012]|3"));
    assert_eq!(".", merge_into_classes("[01]|[23]"));
    assert_eq!(".", simplify_regex("0|1|2|3"));
    assert_eq!("0.", merge_into_classes("0[01]|0[23]"));
}

#[test]
fn unions_render_ascending() {
    assert_eq!("[013]", merge_into_classes("[31]|0"));
    assert_eq!("[12]0", merge_into_classes("20|10"));
}

#[test]
fn star_to_plus_through_canonicalize() {
    assert_eq!("0+", simplify_regex("00*"));
    assert_eq!("1+", simplify_regex("11*"));
    assert_eq!("0+", simplify_regex("0+"));
    assert_eq!("[01]+", simplify_regex("[01][01]*"));
}

#[test]
fn paren_identities_through_canonicalize() {
    assert_eq!("0*", simplify_regex("(0*)*"));
    assert_eq!("1*", simplify_regex("(1*)+"));
    assert_eq!("2*", simplify_regex("(2+)*"));
    assert_eq!("3+", simplify_regex("(3+)+"));
}

#[test]
fn empty_branch_absorbed_by_plus_sibling() {
    assert_eq!("|0", simplify_regex("|0"));
    assert_eq!("0*", simplify_regex("0+|"));
    assert_eq!("1*|2", convert_empty_or_plus_to_star("1+||2"));
    assert_eq!("|2", convert_empty_or_plus_to_star("|2"));
    assert_eq!("0|1", convert_empty_or_plus_to_star("0|1"));
}

#[test]
fn sort_dedupes_and_strips_anchors() {
    assert_eq!("0|1", sort_sub_regexes("^1|0|1$"));
    assert_eq!("0", sort_sub_regexes("0|0"));
    assert_eq!("1|2", sort_sub_regexes("(2)|1"));
}

#[test]
fn branches_split_and_join() {
    assert_eq!(vec!["0".to_string(), "".to_string(), "2".to_string()], get_sub_regexes("^0||2$"));
    assert_eq!(vec!["".to_string()], get_sub_regexes(""));
    assert_eq!("0||2", collect_sub_regexes(vec!["0".to_string(), "".to_string(), "2".to_string()]));
    assert_eq!("[01]", collect_sub_regexes(vec!["[01]".to_string()]));
    assert_eq!("", collect_sub_regexes(Vec::new()));
}

#[test]
fn tail_kept_after_a_merge() {
    assert_eq!("[01]|3+", merge_into_classes("0|1|3+"));
    assert_eq!("0+1", simplify_regex("00*1"));
}
