use std::collections::{BTreeMap, HashMap};

use serde_lax::{from_value, FromJson, IssueKind, JsonValue};

fn value_of(text: &str) -> JsonValue {
    serde_lax::from_str::<JsonValue>(text).expect("valid JSON")
}

fn decode_err<T: FromJson>(value: &JsonValue) -> serde_lax::Error {
    match from_value::<T>(value) {
        Ok(_) => panic!("decode unexpectedly succeeded"),
        Err(err) => err,
    }
}

#[test]
fn unsigned_integers_happy_and_mismatch() {
    assert_eq!(from_value::<u8>(&value_of("255")).expect("decodes"), 255);
    assert_eq!(from_value::<u16>(&value_of("65535")).expect("decodes"), 65535);
    assert_eq!(from_value::<u32>(&value_of("7")).expect("decodes"), 7);
    assert_eq!(from_value::<u64>(&value_of("1")).expect("decodes"), 1);
    assert_eq!(from_value::<usize>(&value_of("9")).expect("decodes"), 9);

    assert_eq!(
        decode_err::<u8>(&value_of("\"nope\"")).to_string(),
        "failed to decode into u8: 1 issue\n  at $: expected u8, found string \"nope\""
    );
    assert_eq!(
        decode_err::<u16>(&value_of("true")).to_string(),
        "failed to decode into u16: 1 issue\n  at $: expected u16, found boolean true"
    );
    assert_eq!(
        decode_err::<u32>(&value_of("null")).to_string(),
        "failed to decode into u32: 1 issue\n  at $: expected u32, found null"
    );
    assert_eq!(
        decode_err::<u64>(&value_of("[]")).to_string(),
        "failed to decode into u64: 1 issue\n  at $: expected u64, found array (len 0)"
    );
    assert_eq!(
        decode_err::<usize>(&value_of("{}")).to_string(),
        "failed to decode into usize: 1 issue\n  at $: expected usize, found object (empty)"
    );
}

#[test]
fn signed_integers_happy_and_mismatch() {
    assert_eq!(from_value::<i8>(&value_of("-128")).expect("decodes"), -128);
    assert_eq!(from_value::<i16>(&value_of("-1")).expect("decodes"), -1);
    assert_eq!(from_value::<i32>(&value_of("42")).expect("decodes"), 42);
    assert_eq!(from_value::<i64>(&value_of("-9")).expect("decodes"), -9);
    assert_eq!(from_value::<isize>(&value_of("0")).expect("decodes"), 0);

    assert_eq!(
        decode_err::<i8>(&value_of("\"x\"")).to_string(),
        "failed to decode into i8: 1 issue\n  at $: expected i8, found string \"x\""
    );
    assert_eq!(
        decode_err::<i16>(&value_of("false")).to_string(),
        "failed to decode into i16: 1 issue\n  at $: expected i16, found boolean false"
    );
    assert_eq!(
        decode_err::<i32>(&value_of("null")).to_string(),
        "failed to decode into i32: 1 issue\n  at $: expected i32, found null"
    );
    assert_eq!(
        decode_err::<i64>(&value_of("1.25")).to_string(),
        "failed to decode into i64: 1 issue\n  at $: expected i64, found number 1.25"
    );
    assert_eq!(
        decode_err::<isize>(&value_of("\"z\"")).to_string(),
        "failed to decode into isize: 1 issue\n  at $: expected isize, found string \"z\""
    );
}

#[test]
fn integer_out_of_range_reports_the_number() {
    assert_eq!(
        decode_err::<u8>(&value_of("300")).to_string(),
        "failed to decode into u8: 1 issue\n  at $: expected u8, found number 300"
    );
    assert_eq!(
        decode_err::<i8>(&value_of("200")).to_string(),
        "failed to decode into i8: 1 issue\n  at $: expected i8, found number 200"
    );
}

#[test]
fn negative_number_for_unsigned_is_a_mismatch() {
    assert_eq!(
        decode_err::<u64>(&value_of("-3")).to_string(),
        "failed to decode into u64: 1 issue\n  at $: expected u64, found number -3"
    );
}

#[test]
fn float_where_integer_expected_is_a_mismatch() {
    assert_eq!(
        decode_err::<u64>(&value_of("1.5")).to_string(),
        "failed to decode into u64: 1 issue\n  at $: expected u64, found number 1.5"
    );
}

#[test]
fn bool_happy_and_mismatch() {
    assert!(from_value::<bool>(&value_of("true")).expect("decodes"));
    assert!(!from_value::<bool>(&value_of("false")).expect("decodes"));
    assert_eq!(
        decode_err::<bool>(&value_of("1")).to_string(),
        "failed to decode into bool: 1 issue\n  at $: expected bool, found number 1"
    );
}

#[test]
fn string_happy_and_no_number_coercion() {
    assert_eq!(from_value::<String>(&value_of("\"hi\"")).expect("decodes"), "hi");
    assert_eq!(
        decode_err::<String>(&value_of("12")).to_string(),
        "failed to decode into string: 1 issue\n  at $: expected string, found number 12"
    );
}

#[test]
fn option_null_value_and_mismatch() {
    assert_eq!(
        from_value::<Option<u64>>(&value_of("null")).expect("decodes"),
        None
    );
    assert_eq!(
        from_value::<Option<u64>>(&value_of("5")).expect("decodes"),
        Some(5)
    );
    assert_eq!(
        decode_err::<Option<u64>>(&value_of("\"5\"")).to_string(),
        "failed to decode into optional u64: 1 issue\n  at $: expected u64, found string \"5\""
    );
}

#[test]
fn vec_accumulates_every_element_failure() {
    let err = decode_err::<Vec<u64>>(&value_of(r#"["1500", 2, null, 4, false]"#));
    assert_eq!(err.issues().len(), 3);
    assert_eq!(
        err.to_string(),
        "failed to decode into array of u64: 3 issues\n  at $[0]: expected u64, found string \"1500\"\n  at $[2]: expected u64, found null\n  at $[4]: expected u64, found boolean false"
    );
}

#[test]
fn vec_mismatch_on_non_array() {
    assert_eq!(
        decode_err::<Vec<u64>>(&value_of("1")).to_string(),
        "failed to decode into array of u64: 1 issue\n  at $: expected array of u64, found number 1"
    );
}

#[test]
fn maps_accumulate_every_value_failure() {
    let value = value_of(r#"{"a": 1, "b": "no", "c": null}"#);
    let err = decode_err::<BTreeMap<String, u64>>(&value);
    assert_eq!(err.issues().len(), 2);
    assert_eq!(
        err.to_string(),
        "failed to decode into object of u64: 2 issues\n  at $.b: expected u64, found string \"no\"\n  at $.c: expected u64, found null"
    );

    let err = decode_err::<HashMap<String, u64>>(&value);
    assert_eq!(err.issues().len(), 2);

    let ok: BTreeMap<String, u64> = from_value(&value_of(r#"{"a": 1, "b": 2}"#)).expect("decodes");
    assert_eq!(ok.len(), 2);
    let ok: HashMap<String, u64> = from_value(&value_of(r#"{"a": 1}"#)).expect("decodes");
    assert_eq!(ok.len(), 1);
}

#[test]
fn map_mismatch_on_non_object() {
    assert_eq!(
        decode_err::<BTreeMap<String, bool>>(&value_of("[]")).to_string(),
        "failed to decode into object of bool: 1 issue\n  at $: expected object of bool, found array (len 0)"
    );
}

#[test]
fn nested_paths_render_every_segment() {
    type Nested = BTreeMap<String, BTreeMap<String, Vec<BTreeMap<String, u64>>>>;
    let value = value_of(r#"{"a": {"b": [{"c": 1}, {"c": 2}, {"c": "bad"}]}}"#);
    let err = decode_err::<Nested>(&value);
    assert_eq!(err.issues().len(), 1);
    assert_eq!(err.issues()[0].path.to_string(), "$.a.b[2].c");
}

#[test]
fn non_identifier_map_keys_are_quoted_in_paths() {
    let err = decode_err::<BTreeMap<String, u64>>(&value_of(r#"{"weird key": null}"#));
    assert_eq!(
        err.to_string(),
        "failed to decode into object of u64: 1 issue\n  at $[\"weird key\"]: expected u64, found null"
    );
}

#[test]
fn long_found_strings_are_truncated() {
    let long = "a".repeat(60);
    let err = decode_err::<u64>(&JsonValue::String(long));
    let expected = format!(
        "failed to decode into u64: 1 issue\n  at $: expected u64, found string \"{}…\"",
        "a".repeat(40)
    );
    assert_eq!(err.to_string(), expected);
}

#[test]
fn found_object_descriptions() {
    assert_eq!(
        decode_err::<u64>(&value_of("{}")).to_string(),
        "failed to decode into u64: 1 issue\n  at $: expected u64, found object (empty)"
    );
    let big = value_of(r#"{"k1": 1, "k2": 2, "k3": 3, "k4": 4, "k5": 5, "k6": 6}"#);
    assert_eq!(
        decode_err::<u64>(&big).to_string(),
        "failed to decode into u64: 1 issue\n  at $: expected u64, found object with keys \"k1\", \"k2\", \"k3\", \"k4\", \"k5\", … (6 total)"
    );
}

#[test]
fn box_delegates() {
    assert_eq!(Box::<u64>::expected(), "u64");
    assert_eq!(*from_value::<Box<u64>>(&value_of("7")).expect("decodes"), 7);
    assert_eq!(
        decode_err::<Box<u64>>(&value_of("null")).to_string(),
        "failed to decode into u64: 1 issue\n  at $: expected u64, found null"
    );
}

#[test]
fn value_accepts_anything() {
    let value = value_of(r#"{"anything": [1, "two", null]}"#);
    assert_eq!(
        from_value::<JsonValue>(&value).expect("decodes"),
        value
    );
    assert_eq!(JsonValue::expected(), "any JSON value");
}

#[test]
fn mismatch_issue_exposes_expected_and_found() {
    let err = decode_err::<Vec<u64>>(&value_of(r#"["x"]"#));
    match &err.issues()[0].kind {
        IssueKind::Mismatch { expected, found } => {
            assert_eq!(expected.as_str(), "u64");
            assert_eq!(found, "string \"x\"");
        }
        other => panic!("unexpected kind: {other:?}"),
    }
}

#[test]
fn expected_strings_compose() {
    assert_eq!(Option::<String>::expected(), "optional string");
    assert_eq!(Vec::<u64>::expected(), "array of u64");
    assert_eq!(BTreeMap::<String, bool>::expected(), "object of bool");
    assert_eq!(
        Vec::<Option<Vec<u8>>>::expected(),
        "array of optional array of u8"
    );
}
