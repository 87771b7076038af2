use tagmap::{Error, ErrorKind, Tag, TagId, TagMap, Value};

fn tag(text: &str) -> Tag {
    Tag::parse(text).unwrap()
}

fn n(v: u64) -> Value {
    Value::U64(v)
}

fn seq(items: &[u64]) -> Value {
    Value::Sequence(items.iter().map(|v| Value::U64(*v)).collect())
}

fn map_with(name: &str, value: Value) -> TagMap {
    let mut m = TagMap::new();
    m.set(tag(name), value).unwrap();
    m
}

fn stored(m: &TagMap, name: &str) -> Option<Value> {
    m.tags().get(&TagId::Str(name.to_owned())).cloned()
}

#[test]
fn set_single_index_on_empty_map_pads_with_units() {
    let mut m = TagMap::new();
    m.set(tag("x[2]"), n(5)).unwrap();
    assert_eq!(stored(&m, "x"), Some(Value::Sequence(vec![Value::Unit, Value::Unit, n(5)])));
    assert_eq!(m.tags().len(), 1);
}

#[test]
fn get_bounded_range() {
    let mut m = map_with("x", seq(&[1, 2, 3]));
    assert_eq!(m.get(&tag("x[1-2]")), Ok(seq(&[2, 3])));
    assert_eq!(stored(&m, "x"), Some(seq(&[1, 2, 3])));
}

#[test]
fn set_bounded_range() {
    let mut m = map_with("x", seq(&[1, 2, 3]));
    m.set(tag("x[1-2]"), seq(&[9, 9])).unwrap();
    assert_eq!(stored(&m, "x"), Some(seq(&[1, 9, 9])));
}

#[test]
fn delete_removes_and_may_be_repeated() {
    let mut m = map_with("x", seq(&[1, 2, 3]));
    assert_eq!(m.delete(tag("x")), Ok(()));
    assert_eq!(stored(&m, "x"), None);
    assert_eq!(m.tags().len(), 0);
    assert_eq!(m.delete(tag("x")), Ok(()));
    assert_eq!(m.tags().len(), 0);
}

#[test]
fn delete_of_a_range_is_refused() {
    let mut empty = TagMap::new();
    let e = empty.delete(tag("x[1]")).unwrap_err();
    assert_eq!(e, Error::CanNotDeleteRange);
    assert_eq!(e.kind(), ErrorKind::InvalidParams);

    let mut m = map_with("x", seq(&[1, 2, 3]));
    assert_eq!(m.delete(tag("x[1]")), Err(Error::CanNotDeleteRange));
    assert_eq!(m.delete(tag("x[1-]")), Err(Error::CanNotDeleteRange));
    assert_eq!(m.delete(tag("x[-1]")), Err(Error::CanNotDeleteRange));
    assert_eq!(stored(&m, "x"), Some(seq(&[1, 2, 3])));
}

#[test]
fn get_of_a_missing_tag_is_not_found() {
    let mut m = TagMap::new();
    let e = m.get(&tag("missing")).unwrap_err();
    assert_eq!(e, Error::NoSuchTag);
    assert_eq!(e.kind(), ErrorKind::NotFound);
    assert_eq!(m.get(&tag("missing[1]")), Err(Error::NoSuchTag));
}

#[test]
fn splice_keeps_what_follows_the_window() {
    let mut m = map_with("x", seq(&[1, 2, 3, 4, 5]));
    m.set(tag("x[1-2]"), seq(&[9, 9])).unwrap();
    assert_eq!(stored(&m, "x"), Some(seq(&[1, 9, 9, 4, 5])));
}

#[test]
fn splice_beyond_the_end_pads_the_gap() {
    let mut m = map_with("x", seq(&[1, 2]));
    m.set(tag("x[4-5]"), seq(&[8, 9])).unwrap();
    assert_eq!(
        stored(&m, "x"),
        Some(Value::Sequence(vec![n(1), n(2), Value::Unit, Value::Unit, n(8), n(9)]))
    );
}

#[test]
fn splice_over_the_end_grows_the_sequence() {
    let mut m = map_with("x", seq(&[1, 2, 3]));
    m.set(tag("x[2-4]"), seq(&[7, 8, 9])).unwrap();
    assert_eq!(stored(&m, "x"), Some(seq(&[1, 2, 7, 8, 9])));
    m.set(tag("x[-1]"), seq(&[5, 6])).unwrap();
    assert_eq!(stored(&m, "x"), Some(seq(&[5, 6, 7, 8, 9])));
}

#[test]
fn set_without_range_stores_the_value_whole() {
    let mut m = TagMap::new();
    m.set(tag("x"), n(1)).unwrap();
    assert_eq!(stored(&m, "x"), Some(n(1)));
    m.set(tag("x"), seq(&[1, 2])).unwrap();
    assert_eq!(stored(&m, "x"), Some(seq(&[1, 2])));
    m.set(tag("x"), Value::Unit).unwrap();
    assert_eq!(stored(&m, "x"), Some(Value::Unit));
    assert_eq!(m.get(&tag("x")), Ok(Value::Unit));
}

#[test]
fn set_single_index_on_a_stored_sequence() {
    let mut m = map_with("x", seq(&[1, 2, 3]));
    m.set(tag("x[1]"), n(9)).unwrap();
    assert_eq!(stored(&m, "x"), Some(seq(&[1, 9, 3])));
    m.set(tag("x[5]"), n(7)).unwrap();
    assert_eq!(
        stored(&m, "x"),
        Some(Value::Sequence(vec![n(1), n(9), n(3), Value::Unit, Value::Unit, n(7)]))
    );
    m.set(tag("x[-0]"), n(4)).unwrap();
    assert_eq!(m.get(&tag("x[0]")), Ok(n(4)));
    m.set(tag("x[0]"), seq(&[1])).unwrap();
    assert_eq!(m.get(&tag("x[0]")), Ok(seq(&[1])));
}

#[test]
fn set_open_range_replaces_the_suffix() {
    let mut m = map_with("x", seq(&[1, 2, 3, 4, 5]));
    m.set(tag("x[2-]"), seq(&[9])).unwrap();
    assert_eq!(stored(&m, "x"), Some(seq(&[1, 2, 9])));
    m.set(tag("x[5-]"), seq(&[7, 8])).unwrap();
    assert_eq!(
        stored(&m, "x"),
        Some(Value::Sequence(vec![n(1), n(2), n(9), Value::Unit, Value::Unit, n(7), n(8)]))
    );
    m.set(tag("x[1-]"), seq(&[])).unwrap();
    assert_eq!(stored(&m, "x"), Some(seq(&[1])));
}

#[test]
fn set_range_on_a_missing_tag_builds_a_sequence() {
    let mut m = TagMap::new();
    m.set(tag("a[2-3]"), seq(&[5, 6])).unwrap();
    assert_eq!(stored(&m, "a"), Some(Value::Sequence(vec![Value::Unit, Value::Unit, n(5), n(6)])));
    m.set(tag("b[1-]"), seq(&[5, 6, 7])).unwrap();
    assert_eq!(stored(&m, "b"), Some(Value::Sequence(vec![Value::Unit, n(5), n(6), n(7)])));
    m.set(tag("c[-1]"), seq(&[5, 6])).unwrap();
    assert_eq!(stored(&m, "c"), Some(seq(&[5, 6])));
    m.set(tag("d[1]"), seq(&[5])).unwrap();
    assert_eq!(stored(&m, "d"), Some(Value::Sequence(vec![Value::Unit, n(5)])));
    m.set(tag("e[0]"), n(5)).unwrap();
    assert_eq!(stored(&m, "e"), Some(seq(&[5])));
}

#[test]
fn set_refuses_a_wrong_length() {
    let mut m = map_with("x", seq(&[1, 2, 3]));
    let e = m.set(tag("x[1-2]"), seq(&[9])).unwrap_err();
    assert_eq!(e, Error::InvalidValueSeqLen);
    assert_eq!(e.kind(), ErrorKind::InvalidParams);
    assert_eq!(m.set(tag("x[1-2]"), seq(&[9, 9, 9])), Err(Error::InvalidValueSeqLen));
    assert_eq!(m.set(tag("x[1-2]"), seq(&[])), Err(Error::InvalidValueSeqLen));
    assert_eq!(stored(&m, "x"), Some(seq(&[1, 2, 3])));

    assert_eq!(m.set(tag("y[1-2]"), seq(&[9])), Err(Error::InvalidValueSeqLen));
    assert_eq!(m.set(tag("y[1]"), seq(&[9, 9])), Err(Error::InvalidValueSeqLen));
    assert_eq!(m.set(tag("y[1]"), seq(&[])), Err(Error::InvalidValueSeqLen));
    assert_eq!(stored(&m, "y"), None);
}

#[test]
fn set_refuses_a_scalar_for_a_range() {
    let mut m = map_with("x", seq(&[1, 2, 3]));
    let e = m.set(tag("x[1-2]"), n(9)).unwrap_err();
    assert_eq!(e, Error::ValueIsNotASeq);
    assert_eq!(e.kind(), ErrorKind::InvalidParams);
    assert_eq!(m.set(tag("x[1-]"), n(9)), Err(Error::ValueIsNotASeq));
    assert_eq!(stored(&m, "x"), Some(seq(&[1, 2, 3])));

    assert_eq!(m.set(tag("y[1-2]"), n(9)), Err(Error::ValueIsNotASeq));
    assert_eq!(m.set(tag("y[1-]"), n(9)), Err(Error::ValueIsNotASeq));
    assert_eq!(stored(&m, "y"), None);
}

#[test]
fn set_refuses_a_range_on_a_stored_scalar() {
    let mut m = map_with("x", n(1));
    let e = m.set(tag("x[1]"), n(9)).unwrap_err();
    assert_eq!(e, Error::TagIsNotAnArray);
    assert_eq!(e.kind(), ErrorKind::InvalidParams);
    assert_eq!(m.set(tag("x[1-2]"), seq(&[1, 2])), Err(Error::TagIsNotAnArray));
    assert_eq!(m.set(tag("x[1-]"), seq(&[1, 2])), Err(Error::TagIsNotAnArray));
    assert_eq!(stored(&m, "x"), Some(n(1)));
}

#[test]
fn get_refuses_a_range_on_a_stored_scalar() {
    let mut m = map_with("x", n(1));
    let e = m.get(&tag("x[0]")).unwrap_err();
    assert_eq!(e, Error::TagIsNotASeq);
    assert_eq!(e.kind(), ErrorKind::InvalidData);
    assert_eq!(m.get(&tag("x[0-1]")), Err(Error::TagIsNotASeq));
    assert_eq!(m.get(&tag("x")), Ok(n(1)));
}

#[test]
fn get_reads_units_beyond_the_end() {
    let mut m = map_with("x", seq(&[1, 2, 3]));
    assert_eq!(m.get(&tag("x[1]")), Ok(n(2)));
    assert_eq!(m.get(&tag("x[3]")), Ok(Value::Unit));
    assert_eq!(m.get(&tag("x[100]")), Ok(Value::Unit));
    assert_eq!(m.get(&tag("x[2-4]")), Ok(Value::Sequence(vec![n(3), Value::Unit, Value::Unit])));
    assert_eq!(m.get(&tag("x[7-8]")), Ok(Value::Sequence(vec![Value::Unit, Value::Unit])));
    assert_eq!(m.get(&tag("x[-1]")), Ok(seq(&[1, 2])));
    assert_eq!(m.get(&tag("x[-0]")), Ok(n(1)));
}

#[test]
fn get_open_range_reads_to_the_end() {
    let mut m = map_with("x", seq(&[1, 2, 3]));
    assert_eq!(m.get(&tag("x[1-]")), Ok(seq(&[2, 3])));
    assert_eq!(m.get(&tag("x[0-]")), Ok(seq(&[1, 2, 3])));
    assert_eq!(m.get(&tag("x[3-]")), Ok(seq(&[])));
    assert_eq!(m.get(&tag("x[9-]")), Ok(seq(&[])));
}

#[test]
fn get_returns_a_copy() {
    let nested = Value::Mapping(vec![(
        Value::String("k".to_owned()),
        Value::Sequence(vec![
            Value::Bytes(vec![1, 2]),
            Value::Option(Some(Box::new(Value::F64(4607182418800017408)))),
            Value::Newtype(Box::new(Value::Char('c'))),
            Value::Option(None),
            Value::I8(-1),
        ]),
    )]);
    let mut m = map_with("x", nested.clone());
    assert_eq!(m.get(&tag("x")), Ok(nested.clone()));
    assert_eq!(stored(&m, "x"), Some(nested));
}

#[test]
fn repeating_a_set_changes_nothing() {
    let cases = [
        ("x", n(4)),
        ("x", seq(&[4, 5])),
        ("x[1]", n(4)),
        ("x[4]", n(4)),
        ("x[1-2]", seq(&[4, 5])),
        ("x[2-4]", seq(&[4, 5, 6])),
        ("x[6-7]", seq(&[4, 5])),
        ("x[1-]", seq(&[4, 5])),
        ("x[5-]", seq(&[4])),
        ("y", n(4)),
        ("y[3]", n(4)),
        ("y[1-2]", seq(&[4, 5])),
        ("y[1-]", seq(&[4, 5])),
        ("x[1-2]", n(4)),
        ("y[1-2]", seq(&[4])),
    ];
    for (text, value) in cases {
        let mut once = map_with("x", seq(&[1, 2, 3]));
        let first = once.set(tag(text), value.clone());
        let mut twice = map_with("x", seq(&[1, 2, 3]));
        let _ = twice.set(tag(text), value.clone());
        let second = twice.set(tag(text), value.clone());
        assert_eq!(first, second, "{}", text);
        assert_eq!(stored(&once, "x"), stored(&twice, "x"), "{}", text);
        assert_eq!(stored(&once, "y"), stored(&twice, "y"), "{}", text);
        assert_eq!(once.tags().len(), twice.tags().len());
    }
}

#[test]
fn first_write_of_a_one_element_sequence_at_an_index_stores_the_element() {
    let mut m = TagMap::new();
    m.set(tag("x[2]"), seq(&[7])).unwrap();
    assert_eq!(stored(&m, "x"), Some(Value::Sequence(vec![Value::Unit, Value::Unit, n(7)])));
    m.set(tag("x[2]"), seq(&[7])).unwrap();
    assert_eq!(stored(&m, "x"), Some(Value::Sequence(vec![Value::Unit, Value::Unit, seq(&[7])])));
}

#[test]
fn walk_is_in_ascending_order() {
    let mut m = TagMap::new();
    let ids = [
        TagId::Num(7),
        TagId::Str("pump".to_owned()),
        TagId::Num(2),
        TagId::Str("".to_owned()),
        TagId::Str("valve".to_owned()),
        TagId::Str("pu".to_owned()),
        TagId::Num(30),
        TagId::Str("Pump".to_owned()),
        TagId::Num(7),
    ];
    for (i, id) in ids.iter().enumerate() {
        m.set(Tag::new0(id.clone()), n(i as u64)).unwrap();
    }
    let table = m.tags();
    assert_eq!(table.len(), 8);
    let walked: Vec<TagId> = (0..table.len()).map(|i| table.id_at(i).clone()).collect();
    let mut sorted = ids.to_vec();
    sorted.sort();
    sorted.dedup();
    assert_eq!(walked, sorted);
    for i in 1..table.len() {
        assert!(table.id_at(i - 1) < table.id_at(i));
    }
    assert_eq!(table.get(&TagId::Num(7)), Some(&n(8)));
    assert_eq!(table.value_at(0), &n(3));
}

#[test]
fn direct_changes_through_the_table() {
    let mut m = TagMap::default();
    assert_eq!(m.tag_mut().insert(TagId::Num(2), n(20)), None);
    assert_eq!(m.tag_mut().insert(TagId::Num(1), n(10)), None);
    assert_eq!(m.tag_mut().insert(TagId::Num(2), n(21)), Some(n(20)));
    assert_eq!(m.get(&Tag::from(2u64)), Ok(n(21)));
    assert_eq!(m.tags().position(&TagId::Num(1)), Ok(0));
    assert_eq!(m.tags().position(&TagId::Num(2)), Ok(1));
    assert_eq!(m.tags().position(&TagId::Num(0)), Err(0));
    assert_eq!(m.tags().position(&TagId::Num(3)), Err(2));
    assert_eq!(m.tag_mut().replace_at(0, n(11)), n(10));
    assert_eq!(m.get(&Tag::from(1u64)), Ok(n(11)));
    assert_eq!(m.tag_mut().remove(&TagId::Num(1)), Some(n(11)));
    assert_eq!(m.tag_mut().remove(&TagId::Num(1)), None);
    assert_eq!(m.tags().len(), 1);
    assert_eq!(m.get(&Tag::from(1u64)), Err(Error::NoSuchTag));
}

#[test]
fn clone_holds_the_same_entries() {
    let mut m = map_with("x", seq(&[1, 2, 3]));
    m.set(tag("y"), n(4)).unwrap();
    let mut c = m.clone();
    assert_eq!(c.tags().len(), 2);
    assert_eq!(stored(&c, "x"), Some(seq(&[1, 2, 3])));
    assert_eq!(stored(&c, "y"), Some(n(4)));
    c.set(tag("x[0]"), n(9)).unwrap();
    assert_eq!(stored(&c, "x"), Some(seq(&[9, 2, 3])));
    assert_eq!(stored(&m, "x"), Some(seq(&[1, 2, 3])));
}
