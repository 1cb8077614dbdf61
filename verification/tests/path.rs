use serde_lax::{Path, Segment};

#[test]
fn root_renders_as_dollar() {
    assert_eq!(Path(Vec::new()).to_string(), "$");
}

#[test]
fn identifier_keys_use_dot_notation() {
    let path = Path(vec![
        Segment::Key("customer".to_owned()),
        Segment::Key("tags".to_owned()),
        Segment::Index(2),
    ]);
    assert_eq!(path.to_string(), "$.customer.tags[2]");
}

#[test]
fn non_identifier_keys_are_quoted() {
    let path = Path(vec![
        Segment::Key("weird key".to_owned()),
        Segment::Key("id".to_owned()),
    ]);
    assert_eq!(path.to_string(), "$[\"weird key\"].id");
}

#[test]
fn empty_and_digit_leading_keys_are_quoted() {
    let path = Path(vec![
        Segment::Key(String::new()),
        Segment::Key("0ops".to_owned()),
    ]);
    assert_eq!(path.to_string(), "$[\"\"][\"0ops\"]");
}
