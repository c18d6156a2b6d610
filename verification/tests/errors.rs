use record_id::thing::{thing, ParseError};

#[test]
fn missing_separator() {
    let res = thing("test");
    assert_eq!(res.unwrap_err(), ParseError::MissingSeparator(4));
}

#[test]
fn missing_separator_wrong_char() {
    let res = thing("test id");
    assert_eq!(res.unwrap_err(), ParseError::MissingSeparator(4));
}

#[test]
fn malformed_table_empty() {
    let res = thing(":id");
    assert_eq!(res.unwrap_err(), ParseError::MalformedTable(0));
}

#[test]
fn malformed_table_unterminated_quote() {
    let res = thing("`test:id");
    assert_eq!(res.unwrap_err(), ParseError::MalformedTable(0));
}

#[test]
fn component_failure_empty() {
    let res = thing("test:");
    assert_eq!(res.unwrap_err(), ParseError::ComponentParseFailure(5));
}

#[test]
fn component_failure_bad_char() {
    let res = thing("test:!");
    assert_eq!(res.unwrap_err(), ParseError::ComponentParseFailure(5));
}

#[test]
fn component_failure_bare_minus() {
    let res = thing("test:-x");
    assert_eq!(res.unwrap_err(), ParseError::ComponentParseFailure(5));
}
