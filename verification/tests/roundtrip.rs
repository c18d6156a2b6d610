use record_id::encode::{deserialize, serialize, DecodeError, Encoded, EncodedField, FieldValue};
use record_id::id::Id;
use record_id::thing::{thing, Thing};

fn parse_whole(s: &str) -> Thing {
    let (rest, t) = thing(s).unwrap();
    assert_eq!(rest, "");
    t
}

#[test]
fn render_parse_roundtrip_safe_table() {
    let t = Thing { tb: String::from("person"), id: Id::from(String::from("tobie")) };
    assert_eq!(parse_whole(&t.to_text()), t);
    let n = Thing { tb: String::from("person"), id: Id::Number(1001) };
    assert_eq!(parse_whole(&n.to_text()), n);
}

#[test]
fn render_parse_roundtrip_quoted_table() {
    let t = Thing { tb: String::from("my table"), id: Id::from(String::from("id")) };
    let text = t.to_text();
    assert_eq!(text, "`my table`:id");
    assert_eq!(parse_whole(&text), t);
}

#[test]
fn render_parse_roundtrip_escapes() {
    let t = Thing {
        tb: String::from("we`ird\\name"),
        id: Id::Text(String::from("a:b")),
    };
    let text = t.to_text();
    assert_eq!(text, "`we\\`ird\\\\name`:`a:b`");
    assert_eq!(parse_whole(&text), t);
}

#[test]
fn render_parse_roundtrip_numeric_text_id() {
    // A text id spelled like a number must come back as a text id.
    let t = Thing { tb: String::from("t"), id: Id::Text(String::from("007")) };
    let text = t.to_text();
    assert_eq!(text, "t:`007`");
    assert_eq!(parse_whole(&text), t);
}

#[test]
fn render_parse_roundtrip_negative_number() {
    let t = Thing { tb: String::from("t"), id: Id::Number(-9223372036854775808) };
    assert_eq!(t.to_text(), "t:-9223372036854775808");
    assert_eq!(parse_whole(&t.to_text()), t);
}

#[test]
fn structured_roundtrip() {
    let t = Thing { tb: String::from("person"), id: Id::Number(7) };
    let enc = serialize(&t, false);
    assert_eq!(deserialize(&enc).unwrap(), t);
}

#[test]
fn structured_roundtrip_escaping_table() {
    // The raw table string is preserved exactly, no escaping applied.
    let t = Thing {
        tb: String::from("my `odd` table"),
        id: Id::Text(String::from("x y")),
    };
    let enc = serialize(&t, false);
    match &enc {
        Encoded::Record(fields) => {
            assert_eq!(fields.len(), 2);
            assert_eq!(fields[0].name, "table");
            match &fields[0].value {
                FieldValue::Text(s) => assert_eq!(s, "my `odd` table"),
                FieldValue::Int(_) => panic!("table field must be a string"),
            }
            assert_eq!(fields[1].name, "id");
        }
        Encoded::Text(_) => panic!("structured mode must be a record"),
    }
    assert_eq!(deserialize(&enc).unwrap(), t);
}

#[test]
fn human_readable_is_unescaped() {
    let t = Thing { tb: String::from("my table"), id: Id::from(String::from("id")) };
    match serialize(&t, true) {
        Encoded::Text(s) => assert_eq!(s, "my table:id"),
        Encoded::Record(_) => panic!("human-readable mode must be a plain string"),
    }
}

#[test]
fn human_readable_is_write_only() {
    let t = Thing { tb: String::from("person"), id: Id::Number(1) };
    let enc = serialize(&t, true);
    assert_eq!(deserialize(&enc).unwrap_err(), DecodeError::FieldMissing);
}

#[test]
fn decode_missing_table_field() {
    let rec = Encoded::Record(vec![EncodedField {
        name: String::from("id"),
        value: FieldValue::Int(1),
    }]);
    assert_eq!(deserialize(&rec).unwrap_err(), DecodeError::FieldMissing);
}

#[test]
fn decode_missing_id_field() {
    let rec = Encoded::Record(vec![EncodedField {
        name: String::from("table"),
        value: FieldValue::Text(String::from("t")),
    }]);
    assert_eq!(deserialize(&rec).unwrap_err(), DecodeError::FieldMissing);
}

#[test]
fn decode_table_type_mismatch() {
    let rec = Encoded::Record(vec![
        EncodedField { name: String::from("table"), value: FieldValue::Int(3) },
        EncodedField { name: String::from("id"), value: FieldValue::Int(1) },
    ]);
    assert_eq!(deserialize(&rec).unwrap_err(), DecodeError::FieldTypeMismatch);
}

#[test]
fn parse_empty_quoted_table() {
    let t = parse_whole("``:id");
    assert_eq!(t.tb, "");
    assert_eq!(t.id, Id::from(String::from("id")));
    assert_eq!(t.to_text(), "``:id");
}
