use tagmap::sequence::{copy_window, element, replace_suffix, resize, set_element, splice};
use tagmap::Value;

fn items(values: &[u64]) -> Vec<Value> {
    values.iter().map(|v| Value::U64(*v)).collect()
}

#[test]
fn element_or_placeholder() {
    let s = items(&[1, 2]);
    assert_eq!(element(&s, 1), Value::U64(2));
    assert_eq!(element(&s, 2), Value::Unit);
    assert_eq!(element(&s, usize::MAX), Value::Unit);
}

#[test]
fn window_copies_and_pads() {
    let s = items(&[1, 2, 3]);
    assert_eq!(copy_window(&s, 1, 2), items(&[2, 3]));
    assert_eq!(copy_window(&s, 2, 3), vec![Value::U64(3), Value::Unit, Value::Unit]);
    assert_eq!(copy_window(&s, 0, 0), items(&[]));
    assert_eq!(copy_window(&s, usize::MAX, 1), vec![Value::Unit]);
}

#[test]
fn resize_cuts_or_pads() {
    let mut s = items(&[1, 2, 3]);
    resize(&mut s, 2);
    assert_eq!(s, items(&[1, 2]));
    resize(&mut s, 4);
    assert_eq!(s, vec![Value::U64(1), Value::U64(2), Value::Unit, Value::Unit]);
    resize(&mut s, 4);
    assert_eq!(s.len(), 4);
    resize(&mut s, 0);
    assert_eq!(s, items(&[]));
}

#[test]
fn set_element_grows() {
    let mut s = items(&[1]);
    set_element(&mut s, 0, Value::U64(5));
    assert_eq!(s, items(&[5]));
    set_element(&mut s, 2, Value::U64(6));
    assert_eq!(s, vec![Value::U64(5), Value::Unit, Value::U64(6)]);
}

#[test]
fn splice_replaces_the_window() {
    let mut s = items(&[1, 2, 3, 4, 5]);
    splice(&mut s, 1, 2, items(&[9, 9]));
    assert_eq!(s, items(&[1, 9, 9, 4, 5]));
    splice(&mut s, 4, 4, items(&[0]));
    assert_eq!(s, items(&[1, 9, 9, 4, 0]));
    splice(&mut s, 5, 6, items(&[7, 8]));
    assert_eq!(s, items(&[1, 9, 9, 4, 0, 7, 8]));
    let mut short = items(&[1]);
    splice(&mut short, 3, 4, items(&[7, 8]));
    assert_eq!(short, vec![Value::U64(1), Value::Unit, Value::Unit, Value::U64(7), Value::U64(8)]);
}

#[test]
fn replace_suffix_drops_the_rest() {
    let mut s = items(&[1, 2, 3, 4, 5]);
    replace_suffix(&mut s, 2, items(&[9]));
    assert_eq!(s, items(&[1, 2, 9]));
    replace_suffix(&mut s, 4, items(&[8]));
    assert_eq!(s, vec![Value::U64(1), Value::U64(2), Value::U64(9), Value::Unit, Value::U64(8)]);
}

#[test]
fn sequence_of_items() {
    assert_eq!(Value::sequence(items(&[1, 2])), Value::Sequence(items(&[1, 2])));
}
