use tagmap::{Order, TagId};

fn name(s: &str) -> TagId {
    TagId::Str(s.to_owned())
}

#[test]
fn names_order_before_numbers() {
    let a = name("zzz");
    let b = TagId::Num(0);
    assert_eq!(a.order(&b), Order::Less);
    assert_eq!(b.order(&a), Order::Greater);
    assert!(a < b);
}

#[test]
fn names_order_by_their_bytes() {
    assert_eq!(name("a").order(&name("b")), Order::Less);
    assert_eq!(name("b").order(&name("a")), Order::Greater);
    assert_eq!(name("a").order(&name("a")), Order::Equal);
    assert_eq!(name("a").order(&name("ab")), Order::Less);
    assert_eq!(name("ab").order(&name("a")), Order::Greater);
    assert_eq!(name("").order(&name("a")), Order::Less);
    assert_eq!(name("").order(&name("")), Order::Equal);
    assert_eq!(name("Z").order(&name("a")), Order::Less);
    assert_eq!(name("z").order(&name("\u{e9}")), Order::Less);
    assert_eq!(name("\u{ffff}").order(&name("\u{10000}")), Order::Less);
}

#[test]
fn numbers_order_by_value() {
    assert_eq!(TagId::Num(2).order(&TagId::Num(10)), Order::Less);
    assert_eq!(TagId::Num(10).order(&TagId::Num(2)), Order::Greater);
    assert_eq!(TagId::Num(10).order(&TagId::Num(10)), Order::Equal);
}

#[test]
fn order_agrees_with_the_comparison_operators() {
    let ids = [
        name(""),
        name("a"),
        name("ab"),
        name("b"),
        name("\u{e9}"),
        name("\u{10000}"),
        TagId::Num(0),
        TagId::Num(5),
        TagId::Num(u64::MAX),
    ];
    for a in &ids {
        for b in &ids {
            let expected = if a < b {
                Order::Less
            } else if a == b {
                Order::Equal
            } else {
                Order::Greater
            };
            assert_eq!(a.order(b), expected);
        }
    }
}

#[test]
fn id_text() {
    assert_eq!(TagId::Num(0).to_string(), "0");
    assert_eq!(TagId::Num(9).to_string(), "9");
    assert_eq!(TagId::Num(10).to_string(), "10");
    assert_eq!(TagId::Num(1234567890).to_string(), "1234567890");
    assert_eq!(TagId::Num(u64::MAX).to_string(), "18446744073709551615");
    assert_eq!(name("sensor").to_string(), "sensor");
}

#[test]
fn as_str_gives_the_name_only() {
    assert_eq!(name("sensor").as_str(), Some("sensor"));
    assert_eq!(TagId::Num(3).as_str(), None);
}

#[test]
fn clone_is_equal() {
    assert_eq!(name("sensor").clone(), name("sensor"));
    assert_eq!(TagId::Num(3).clone(), TagId::Num(3));
}
