//! Concrete instances of the properties the library proves of itself.

use std::collections::{BTreeMap, HashMap};

use serde_lax::derive::{decode_field, decode_field_or, decode_optional_field, object_fields};
use serde_lax::{from_slice, from_str, from_value, Context, Error, FromJson, Issue, IssueKind, JsonValue, Path, Segment};

fn value_of(text: &str) -> JsonValue {
    from_str::<JsonValue>(text).expect("valid JSON")
}

fn decode_err<T: FromJson>(text: &str) -> Error {
    match from_str::<T>(text) {
        Ok(_) => panic!("decode unexpectedly succeeded"),
        Err(err) => err,
    }
}

fn paths(err: &Error) -> Vec<String> {
    err.issues().iter().map(|issue| issue.path.to_string()).collect()
}

#[test]
fn nested_issues_stay_under_the_path_where_decoding_started() {
    let err = decode_err::<HashMap<String, Vec<u64>>>(r#"{"a": [1, "x"], "b": 3}"#);
    assert_eq!(paths(&err), vec!["$.a[1]".to_owned(), "$.b".to_owned()]);
    for path in paths(&err) {
        assert!(path.starts_with('$'));
    }
}

#[test]
fn array_issues_come_in_index_order_and_grow_with_the_array() {
    let err = decode_err::<Vec<u64>>(r#"[1, "x", 3, "y"]"#);
    assert_eq!(paths(&err), vec!["$[1]".to_owned(), "$[3]".to_owned()]);
    let longer = decode_err::<Vec<u64>>(r#"[1, "x", 3, "y", null]"#);
    assert_eq!(paths(&longer), vec!["$[1]".to_owned(), "$[3]".to_owned(), "$[4]".to_owned()]);
    assert_eq!(from_str::<Vec<u64>>("[1, 2, 3]").expect("decodes"), vec![1, 2, 3]);
}

#[test]
fn null_is_none_and_other_values_decode_as_the_inner_type() {
    assert_eq!(from_str::<Option<u64>>("null").expect("decodes"), None);
    assert_eq!(from_str::<Option<u64>>("5").expect("decodes"), Some(5));
    let err = decode_err::<Option<u64>>(r#""x""#);
    assert_eq!(
        err.to_string(),
        "failed to decode into optional u64: 1 issue\n  at $: expected u64, found string \"x\""
    );
}

#[test]
fn a_box_reports_as_its_contents() {
    let err = decode_err::<Box<u64>>(r#""x""#);
    assert_eq!(
        err.to_string(),
        "failed to decode into u64: 1 issue\n  at $: expected u64, found string \"x\""
    );
    assert_eq!(*from_str::<Box<u64>>("9").expect("decodes"), 9);
}

#[test]
fn values_are_never_coerced() {
    assert_eq!(
        decode_err::<u64>(r#""1500""#).to_string(),
        "failed to decode into u64: 1 issue\n  at $: expected u64, found string \"1500\""
    );
    assert_eq!(
        decode_err::<bool>(r#""true""#).to_string(),
        "failed to decode into bool: 1 issue\n  at $: expected bool, found string \"true\""
    );
    assert_eq!(
        decode_err::<String>("5").to_string(),
        "failed to decode into string: 1 issue\n  at $: expected string, found number 5"
    );
    assert_eq!(
        decode_err::<u64>("1.5").to_string(),
        "failed to decode into u64: 1 issue\n  at $: expected u64, found number 1.5"
    );
    assert_eq!(
        decode_err::<u64>("-3").to_string(),
        "failed to decode into u64: 1 issue\n  at $: expected u64, found number -3"
    );
}

#[test]
fn paths_render_segment_by_segment() {
    let mut path = Path(Vec::new());
    assert_eq!(path.to_string(), "$");
    path.0.push(Segment::Key("a".to_owned()));
    assert_eq!(path.to_string(), "$.a");
    path.0.push(Segment::Index(2));
    assert_eq!(path.to_string(), "$.a[2]");
    path.0.push(Segment::Key("b c".to_owned()));
    assert_eq!(path.to_string(), "$.a[2][\"b c\"]");
    path.0.push(Segment::Key("_ok1".to_owned()));
    assert_eq!(path.to_string(), "$.a[2][\"b c\"]._ok1");
}

fn many_strings(count: usize) -> String {
    let items: Vec<&str> = std::iter::repeat("\"s\"").take(count).collect();
    format!("[{}]", items.join(","))
}

#[test]
fn rendering_shows_at_most_one_hundred_issues() {
    let exactly = decode_err::<Vec<u64>>(&many_strings(100));
    assert_eq!(exactly.issues().len(), 100);
    let text = exactly.to_string();
    assert!(text.starts_with("failed to decode into array of u64: 100 issues\n  at $[0]: expected u64"));
    assert_eq!(text.lines().count(), 101);
    assert!(!text.contains("not shown"));

    let one_over = decode_err::<Vec<u64>>(&many_strings(101));
    assert_eq!(one_over.issues().len(), 101);
    let text = one_over.to_string();
    assert!(text.ends_with("\n  at $[99]: expected u64, found string \"s\"\n  \u{2026} and 1 more issue (not shown)"));
    assert_eq!(text.lines().count(), 102);

    let three_over = decode_err::<Vec<u64>>(&many_strings(103));
    assert_eq!(three_over.issues().len(), 103);
    assert!(three_over.to_string().ends_with("\n  \u{2026} and 3 more issues (not shown)"));
}

#[test]
fn found_strings_show_at_most_forty_characters() {
    let forty_one = "abcdefghijklmnopqrstuvwxyzABCDEFGHIJKLMNO";
    assert_eq!(forty_one.chars().count(), 41);
    let err = decode_err::<u64>(&format!("\"{forty_one}\""));
    assert_eq!(
        err.to_string(),
        "failed to decode into u64: 1 issue\n  at $: expected u64, found string \"abcdefghijklmnopqrstuvwxyzABCDEFGHIJKLMN\u{2026}\""
    );
    let err = decode_err::<u64>("\"\u{e9}\u{e9}\"");
    assert_eq!(
        err.to_string(),
        "failed to decode into u64: 1 issue\n  at $: expected u64, found string \"\u{e9}\u{e9}\""
    );
}

#[test]
fn found_strings_are_debug_quoted() {
    let err = decode_err::<u64>(r#""a\"b\nc""#);
    assert_eq!(
        err.to_string(),
        "failed to decode into u64: 1 issue\n  at $: expected u64, found string \"a\\\"b\\nc\""
    );
}

#[test]
fn found_numbers_keep_their_sign_and_text() {
    assert_eq!(
        decode_err::<bool>("-42").to_string(),
        "failed to decode into bool: 1 issue\n  at $: expected bool, found number -42"
    );
    assert_eq!(
        decode_err::<bool>("18446744073709551615").to_string(),
        "failed to decode into bool: 1 issue\n  at $: expected bool, found number 18446744073709551615"
    );
    assert_eq!(
        decode_err::<bool>("2.5e3").to_string(),
        "failed to decode into bool: 1 issue\n  at $: expected bool, found number 2500.0"
    );
}

#[derive(Debug, PartialEq)]
struct Settings {
    name: String,
    retries: u32,
    note: Option<String>,
}

impl FromJson for Settings {
    fn expected() -> String {
        "object `Settings`".to_owned()
    }

    fn from_json(value: &JsonValue, cx: &mut Context) -> Option<Self> {
        let fields = object_fields(value, &Self::expected(), cx)?;
        let name = decode_field::<String>(fields, "name", cx);
        let retries = decode_field_or::<u32>(fields, "retries", 3, cx);
        let note = decode_optional_field::<String>(fields, "note", cx);
        Some(Settings {
            name: name?,
            retries: retries?,
            note: note?,
        })
    }
}

#[test]
fn unknown_members_are_ignored_and_absent_fields_fall_back() {
    let settings: Settings = from_str(r#"{"extra": [1, 2], "name": "x", "other": {}}"#).expect("decodes");
    assert_eq!(
        settings,
        Settings {
            name: "x".to_owned(),
            retries: 3,
            note: None,
        }
    );
    let settings: Settings = from_str(r#"{"name": "x", "retries": 7, "note": null}"#).expect("decodes");
    assert_eq!(settings.retries, 7);
    assert_eq!(settings.note, None);
    let settings: Settings = from_str(r#"{"name": "x", "note": "hi"}"#).expect("decodes");
    assert_eq!(settings.note, Some("hi".to_owned()));
}

#[test]
fn a_missing_required_field_is_one_issue_at_the_object() {
    let err = decode_err::<Settings>(r#"{"retries": "many"}"#);
    assert_eq!(
        err.to_string(),
        "failed to decode into object `Settings`: 2 issues\n  at $.name: missing required field (expected string)\n  at $.retries: expected u32, found string \"many\""
    );
    assert_eq!(
        err.issues()[0].kind,
        IssueKind::MissingField {
            field: "name".to_owned(),
            expected: "string".to_owned()
        }
    );
    assert_eq!(err.issues()[0].path.to_string(), "$");
}

#[test]
fn a_scoped_segment_is_popped_and_issues_are_counted() {
    let mut cx = Context::new();
    assert_eq!(cx.issue_count(), 0);
    let seen = cx.with_key("first name", |cx| {
        cx.with_index(0, |cx| {
            cx.custom("deep");
            cx.issue_count()
        })
    });
    assert_eq!(seen, 1);
    cx.missing_field("x", "u8");
    assert_eq!(cx.issue_count(), 2);
    let issues = cx.into_issues();
    assert_eq!(issues[0].path.to_string(), "$[\"first name\"][0]");
    assert_eq!(issues[1].path.to_string(), "$");
    let err = Error::decode("thing".to_owned(), issues);
    assert_eq!(
        err.to_string(),
        "failed to decode into thing: 2 issues\n  at $[\"first name\"][0]: deep\n  at $.x: missing required field (expected u8)"
    );
}

#[test]
fn syntax_errors_carry_the_parser_message() {
    let err = decode_err::<u64>("{");
    assert!(err.is_syntax());
    assert!(err.issues().is_empty());
    assert!(err.to_string().starts_with("failed to parse JSON: "));
    assert!(err.to_string().len() > "failed to parse JSON: ".len());

    let err = match from_slice::<u64>(b"[1,") {
        Ok(_) => panic!("must fail"),
        Err(err) => err,
    };
    assert!(err.is_syntax());
    assert!(err.issues().is_empty());
    assert!(err.to_string().starts_with("failed to parse JSON: "));
}

#[test]
fn slices_decode_like_text() {
    assert_eq!(from_slice::<Vec<i32>>(b"[-1, 2]").expect("decodes"), vec![-1, 2]);
    let err = match from_slice::<Vec<i32>>(b"[-1, true]") {
        Ok(_) => panic!("must fail"),
        Err(err) => err,
    };
    assert!(!err.is_syntax());
    assert_eq!(
        err.to_string(),
        "failed to decode into array of i32: 1 issue\n  at $[1]: expected i32, found boolean true"
    );
}

#[test]
fn a_json_value_decodes_as_itself() {
    let value = value_of(r#"{"b": [1, -2, 2.5, "s", null, true], "a": {}}"#);
    let copy = from_value::<JsonValue>(&value).expect("decodes");
    assert_eq!(copy, value);
    assert_eq!(value.clone(), value);
}

#[test]
fn an_error_built_from_issues_lists_them_all() {
    let issue = Issue {
        path: Path(vec![Segment::Index(4)]),
        kind: IssueKind::Mismatch {
            expected: "u8".to_owned(),
            found: "null".to_owned(),
        },
    };
    let err = Error::decode("array of u8".to_owned(), vec![issue.clone(), issue]);
    assert!(!err.is_syntax());
    assert_eq!(err.issues().len(), 2);
    assert_eq!(
        err.to_string(),
        "failed to decode into array of u8: 2 issues\n  at $[4]: expected u8, found null\n  at $[4]: expected u8, found null"
    );
    let syntax = Error::syntax("bad".to_owned());
    assert_eq!(syntax.to_string(), "failed to parse JSON: bad");
    assert!(syntax.is_syntax());
}

#[test]
fn decoded_maps_hold_every_member() {
    let map = from_str::<BTreeMap<String, u8>>(r#"{"b": 2, "a": 1}"#).expect("decodes");
    assert_eq!(map.len(), 2);
    assert_eq!(map.get("a"), Some(&1));
    assert_eq!(map.get("b"), Some(&2));
    let map = from_str::<HashMap<String, Vec<bool>>>(r#"{"x": [true], "y": []}"#).expect("decodes");
    assert_eq!(map.len(), 2);
    assert_eq!(map.get("x"), Some(&vec![true]));
    assert_eq!(map.get("y"), Some(&Vec::new()));
    assert!(from_str::<BTreeMap<String, u8>>("{}").expect("decodes").is_empty());
}

#[test]
fn the_path_is_back_after_every_scoped_call() {
    let mut cx = Context::new();
    cx.with_key("a", |cx| {
        cx.with_index(7, |cx| cx.mismatch("u8", &JsonValue::Null));
        cx.custom("inside");
    });
    cx.custom("outside");
    let issues = cx.into_issues();
    let rendered: Vec<String> = issues.iter().map(|issue| issue.path.to_string()).collect();
    assert_eq!(rendered, vec!["$.a[7]".to_owned(), "$.a".to_owned(), "$".to_owned()]);
}

#[test]
fn containers_of_any_element_type_report_the_wrong_shape() {
    assert_eq!(from_str::<Option<Settings>>("null").expect("decodes"), None);
    let err = decode_err::<Vec<Settings>>("5");
    assert_eq!(
        err.to_string(),
        "failed to decode into array of object `Settings`: 1 issue\n  at $: expected array of object `Settings`, found number 5"
    );
    let err = decode_err::<BTreeMap<String, Settings>>("[]");
    assert_eq!(
        err.to_string(),
        "failed to decode into object of object `Settings`: 1 issue\n  at $: expected object of object `Settings`, found array (len 0)"
    );
}

#[test]
fn parsed_objects_list_their_keys_in_ascending_order() {
    let err = decode_err::<u8>(r#"{"g": 1, "b": 2, "f": 3, "a": 4, "e": 5, "c": 6}"#);
    assert_eq!(
        err.to_string(),
        "failed to decode into u8: 1 issue\n  at $: expected u8, found object with keys \"a\", \"b\", \"c\", \"e\", \"f\", \u{2026} (6 total)"
    );
    let err = decode_err::<Vec<u8>>(r#"{"b": 1, "a": 2}"#);
    assert!(err.to_string().ends_with("found object with keys \"a\", \"b\" (2 total)"));
}
