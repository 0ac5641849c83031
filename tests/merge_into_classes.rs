use regex_puzzle::merge::class_mismatch_indices;
use regex_puzzle::merge_into_classes;

#[test]
fn merge_into_classes_minimal() {
    assert_eq!("", merge_into_classes(""));
}

#[test]
fn merge_into_classes_one_digit() {
    assert_eq!("0", merge_into_classes("0"));
    assert_eq!("1", merge_into_classes("1"));
    assert_eq!("2", merge_into_classes("2"));
    assert_eq!("3", merge_into_classes("3"));
}

#[test]
fn merge_into_classes_one_digit_merge() {
    assert_eq!("[01]", merge_into_classes("0|1"));
    assert_eq!("[12]", merge_into_classes("1|2"));
    assert_eq!("[23]", merge_into_classes("2|3"));
    assert_eq!("[03]", merge_into_classes("3|0"));
}

#[test]
fn merge_into_classes_one_digit_plus() {
    assert_eq!("0+", merge_into_classes("0+"));
    assert_eq!("1+", merge_into_classes("1+"));
    assert_eq!("2+", merge_into_classes("2+"));
    assert_eq!("3+", merge_into_classes("3+"));
}

fn atoms(list: &[&str]) -> Vec<Vec<char>> {
    list.iter().map(|t| t.chars().collect()).collect()
}

#[test]
fn mismatch_indices_list_every_class_pair() {
    assert_eq!(Some(vec![0]), class_mismatch_indices(&atoms(&["0", "+"]), &atoms(&["1", "+"])));
    assert_eq!(None, class_mismatch_indices(&atoms(&["0", "+"]), &atoms(&["1", "*"])));
    assert_eq!(Some(vec![0]), class_mismatch_indices(&atoms(&["0"]), &atoms(&["0"])));
    assert_eq!(Some(vec![0, 2]), class_mismatch_indices(&atoms(&["0", "(", "[12]"]), &atoms(&["3", "(", "[12]"])));
    assert_eq!(None, class_mismatch_indices(&atoms(&["0"]), &atoms(&["0", "1"])));
}
