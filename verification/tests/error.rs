use serde_lax::error::describe_value;
use serde_lax::{Context, Error, JsonValue};

fn doc(text: &str) -> JsonValue {
    serde_lax::from_str::<JsonValue>(text).expect("valid JSON")
}

#[test]
fn missing_field_lines_append_the_field_to_the_path() {
    let mut cx = Context::new();
    cx.with_key("customer", |cx| {
        cx.missing_field("id", "u64");
        cx.missing_field("full name", "string");
    });
    let err = Error::decode("Customer object".to_owned(), cx.into_issues());
    assert_eq!(
        err.to_string(),
        "failed to decode into Customer object: 2 issues\n  at $.customer.id: missing required field (expected u64)\n  at $.customer[\"full name\"]: missing required field (expected string)"
    );
}

#[test]
fn custom_lines_render_the_message_verbatim() {
    let mut cx = Context::new();
    cx.with_index(1, |cx| cx.custom("timestamp is in the future"));
    let err = Error::decode("array of Event".to_owned(), cx.into_issues());
    assert_eq!(
        err.to_string(),
        "failed to decode into array of Event: 1 issue\n  at $[1]: timestamp is in the future"
    );
}

fn mismatched_array(issue_count: usize) -> Error {
    let input = format!("[{}]", vec![r#""bad""#; issue_count].join(","));
    serde_lax::from_str::<Vec<u64>>(&input).expect_err("array elements must mismatch")
}

#[test]
fn display_renders_all_one_hundred_issues_without_summary() {
    let err = mismatched_array(100);
    let rendered = err.to_string();
    let lines = rendered.lines().collect::<Vec<_>>();

    assert_eq!(err.issues().len(), 100);
    assert_eq!(lines.len(), 101);
    assert_eq!(lines[0], "failed to decode into array of u64: 100 issues");
    assert_eq!(
        lines.last().copied(),
        Some("  at $[99]: expected u64, found string \"bad\"")
    );
    assert!(!rendered.contains("not shown"));
}

#[test]
fn display_summarizes_one_issue_over_the_cap() {
    let err = mismatched_array(101);
    let lines = err
        .to_string()
        .lines()
        .map(str::to_owned)
        .collect::<Vec<_>>();

    assert_eq!(err.issues().len(), 101);
    assert_eq!(lines.len(), 102);
    assert_eq!(lines[0], "failed to decode into array of u64: 101 issues");
    assert_eq!(
        lines.last().map(String::as_str),
        Some("  … and 1 more issue (not shown)")
    );
}

#[test]
fn display_summarizes_multiple_issues_over_the_cap() {
    let err = mismatched_array(102);
    let lines = err
        .to_string()
        .lines()
        .map(str::to_owned)
        .collect::<Vec<_>>();

    assert_eq!(err.issues().len(), 102);
    assert_eq!(lines[0], "failed to decode into array of u64: 102 issues");
    assert_eq!(
        lines.last().map(String::as_str),
        Some("  … and 2 more issues (not shown)")
    );
}

#[test]
fn describes_primitives() {
    assert_eq!(describe_value(&doc("null")), "null");
    assert_eq!(describe_value(&doc("true")), "boolean true");
    assert_eq!(describe_value(&doc("300")), "number 300");
    assert_eq!(describe_value(&doc("1.5")), "number 1.5");
    assert_eq!(describe_value(&doc("-3")), "number -3");
    assert_eq!(describe_value(&doc("\"abc\"")), "string \"abc\"");
}

#[test]
fn long_strings_are_truncated_to_forty_chars() {
    let long = "xxxxxxxxxxxxxxxxxxxxxxxxxxxxxxxxxxxxxxxxxxxxxxxxxx";
    assert_eq!(
        describe_value(&JsonValue::String(long.to_owned())),
        "string \"xxxxxxxxxxxxxxxxxxxxxxxxxxxxxxxxxxxxxxxx…\""
    );
}

#[test]
fn forty_char_strings_are_not_truncated() {
    let exact = "yyyyyyyyyyyyyyyyyyyyyyyyyyyyyyyyyyyyyyyy";
    assert_eq!(
        describe_value(&JsonValue::String(exact.to_owned())),
        "string \"yyyyyyyyyyyyyyyyyyyyyyyyyyyyyyyyyyyyyyyy\""
    );
}

#[test]
fn describes_arrays_by_length() {
    assert_eq!(describe_value(&doc("[1, 2, 3]")), "array (len 3)");
    assert_eq!(describe_value(&doc("[]")), "array (len 0)");
}

#[test]
fn describes_objects_by_keys() {
    assert_eq!(describe_value(&doc("{}")), "object (empty)");
    assert_eq!(
        describe_value(&doc(r#"{"a": 1, "b": 2}"#)),
        "object with keys \"a\", \"b\" (2 total)"
    );
}

#[test]
fn large_objects_list_only_five_keys() {
    let value = doc(r#"{"a": 1, "b": 2, "c": 3, "d": 4, "e": 5, "f": 6, "g": 7}"#);
    assert_eq!(
        describe_value(&value),
        "object with keys \"a\", \"b\", \"c\", \"d\", \"e\", … (7 total)"
    );
}
