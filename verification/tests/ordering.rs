use record_id::id::Id;
use record_id::thing::Thing;

fn t(tb: &str, id: Id) -> Thing {
    Thing { tb: String::from(tb), id }
}

#[test]
fn order_by_id_within_table() {
    assert!(t("a", Id::Number(1)) < t("a", Id::Number(2)));
    assert!(t("a", Id::Text(String::from("x"))) < t("a", Id::Text(String::from("y"))));
    // Numbers sort before texts.
    assert!(t("a", Id::Number(999)) < t("a", Id::Text(String::from("0"))));
}

#[test]
fn order_by_table_first() {
    assert!(t("a", Id::Number(2)) < t("b", Id::Number(1)));
    assert!(t("a", Id::Text(String::from("z"))) < t("b", Id::Number(0)));
    assert!(t("ab", Id::Number(1)) < t("b", Id::Number(1)));
}

#[test]
fn order_consistent_with_equality() {
    let x = t("a", Id::Number(1));
    let y = t("a", Id::Number(1));
    assert_eq!(x, y);
    assert!(!(x < y));
    assert!(!(y < x));
    assert!(x <= y && x >= y);
}
