use serde_lax::{Context, JsonNumber, JsonValue};

#[test]
fn path_is_restored_after_scoped_calls() {
    let mut cx = Context::new();
    cx.with_key("outer", |cx| {
        cx.with_index(3, |cx| cx.mismatch("u64", &JsonValue::Null));
    });
    cx.mismatch("bool", &JsonValue::Number(JsonNumber::PosInt(1)));
    let issues = cx.into_issues();
    assert_eq!(issues.len(), 2);
    assert_eq!(issues[0].path.to_string(), "$.outer[3]");
    assert_eq!(issues[1].path.to_string(), "$");
}
