use record_id::id::Id;
use record_id::thing::{thing, Thing};

#[test]
fn thing_normal() {
    let sql = "test:id";
    let res = thing(sql);
    assert!(res.is_ok());
    let out = res.unwrap().1;
    assert_eq!("test:id", out.to_text());
    assert_eq!(
        out,
        Thing {
            tb: String::from("test"),
            id: Id::from(String::from("id")),
        }
    );
}

#[test]
fn thing_quoted_backtick() {
    let sql = "`test`:`id`";
    let res = thing(sql);
    assert!(res.is_ok());
    let out = res.unwrap().1;
    assert_eq!("test:id", out.to_text());
    assert_eq!(
        out,
        Thing {
            tb: String::from("test"),
            id: Id::from(String::from("id")),
        }
    );
}

#[test]
fn thing_quoted_brackets() {
    let sql = "\u{27E8}test\u{27E9}:\u{27E8}id\u{27E9}";
    let res = thing(sql);
    assert!(res.is_ok());
    let out = res.unwrap().1;
    assert_eq!("test:id", out.to_text());
    assert_eq!(
        out,
        Thing {
            tb: String::from("test"),
            id: Id::from(String::from("id")),
        }
    );
}

#[test]
fn thing_quoting_equivalence() {
    let plain = thing("test:id").unwrap().1;
    let backtick = thing("`test`:`id`").unwrap().1;
    let brackets = thing("\u{27E8}test\u{27E9}:\u{27E8}id\u{27E9}").unwrap().1;
    assert_eq!(plain, backtick);
    assert_eq!(plain, brackets);
    assert_eq!(plain.tb, "test");
    assert_eq!(plain.id, Id::from(String::from("id")));
    assert_eq!(plain.to_text(), "test:id");
    assert_eq!(backtick.to_text(), "test:id");
    assert_eq!(brackets.to_text(), "test:id");
}

#[test]
fn thing_numeric_id() {
    let res = thing("test:42");
    let out = res.unwrap().1;
    assert_eq!(out, Thing { tb: String::from("test"), id: Id::Number(42) });
    assert_eq!(out.to_text(), "test:42");
}

#[test]
fn thing_negative_numeric_id() {
    let out = thing("test:-7").unwrap().1;
    assert_eq!(out, Thing { tb: String::from("test"), id: Id::Number(-7) });
    assert_eq!(out.to_text(), "test:-7");
}

#[test]
fn thing_leaves_remainder() {
    let (rest, out) = thing("test:id AND more").unwrap();
    assert_eq!(rest, " AND more");
    assert_eq!(out.tb, "test");
    assert_eq!(out.id, Id::from(String::from("id")));
}

#[test]
fn thing_numeric_overflow_is_text() {
    // One past the largest machine integer: read back as a text id.
    let out = thing("test:9223372036854775808").unwrap().1;
    assert_eq!(
        out,
        Thing {
            tb: String::from("test"),
            id: Id::Text(String::from("9223372036854775808")),
        }
    );
}

#[test]
fn thing_bracket_escape() {
    // A backslash protects the closing bracket inside the quoted form.
    let out = thing("\u{27E8}a\\\u{27E9}b\u{27E9}:1").unwrap().1;
    assert_eq!(out.tb, "a\u{27E9}b");
    assert_eq!(out.id, Id::Number(1));
}

#[test]
fn thing_from_parts() {
    let a = Thing::from((String::from("person"), Id::Number(1)));
    let b = Thing::from((String::from("person"), 1i64));
    let c = Thing::from((String::from("person"), String::from("1")));
    assert_eq!(a, b);
    assert_ne!(a, c);
    assert_eq!(c.id, Id::Text(String::from("1")));
}
