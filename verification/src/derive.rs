//! The runtime side of `#[derive(Deserialize)]`: the decoding steps a derived
//! implementation performs for structs with named fields and for enums of
//! unit variants, and the `rename_all` case conventions.

use vstd::prelude::*;
use vstd::string::*;

use crate::context::Context;
use crate::error::{mismatch_issue, IssueKindModel, IssueModel};
use crate::impls::FromJson;
use crate::json::{json_as_str, lemma_object_model, model_entries, Json, JsonValue};
use crate::path::{Segment, SegmentModel};
use crate::text::{debug_quoted, push_char, quote_debug, same_text};

verus! {

/// The members of an object, modelled.
pub open spec fn members(fields: Seq<(String, JsonValue)>) -> Seq<(Seq<char>, Json)> {
    model_entries(fields, fields.len())
}

/// Whether `i` is the first member named `name`.
pub open spec fn is_first_member(entries: Seq<(Seq<char>, Json)>, name: Seq<char>, i: int) -> bool {
    &&& 0 <= i < entries.len()
    &&& entries[i].0 == name
    &&& forall|j: int| 0 <= j < i ==> (#[trigger] entries[j]).0 != name
}

/// The value of the first member named `name`, if there is one.
pub open spec fn member_value(entries: Seq<(Seq<char>, Json)>, name: Seq<char>) -> Option<Json> {
    if exists|i: int| is_first_member(entries, name, i) {
        Some(entries[choose|i: int| is_first_member(entries, name, i)].1)
    } else {
        None
    }
}

/// The issues of a required field: the issues of its value at the path of
/// the field, or a missing-field issue at the object's path.
pub open spec fn field_issues<T: FromJson>(entries: Seq<(Seq<char>, Json)>, name: Seq<char>, at: Seq<SegmentModel>) -> Seq<IssueModel> {
    match member_value(entries, name) {
        Some(v) => T::spec_issues(v, at.push(SegmentModel::Key(name))),
        None => seq![IssueModel { path: at, kind: IssueKindModel::MissingField { field: name, expected: T::spec_expected() } }],
    }
}

/// The issues of a field that may be absent: none when absent, the issues of
/// its value otherwise.
pub open spec fn optional_field_issues<T: FromJson>(entries: Seq<(Seq<char>, Json)>, name: Seq<char>, at: Seq<SegmentModel>) -> Seq<IssueModel> {
    match member_value(entries, name) {
        Some(v) => T::spec_issues(v, at.push(SegmentModel::Key(name))),
        None => Seq::empty(),
    }
}

/// The first member named `name`, if any.
pub fn find_member<'a>(fields: &'a Vec<(String, JsonValue)>, name: &str) -> (r: Option<&'a JsonValue>)
    ensures
        r matches Some(v) ==> member_value(members(fields@), name@) == Some(v@),
        r is None ==> member_value(members(fields@), name@) is None,
{
    proof { lemma_object_model(*fields); }
    let ghost ms = members(fields@);
    let mut i: usize = 0;
    while i < fields.len()
        invariant
            i <= fields@.len(),
            ms == members(fields@),
            ms.len() == fields@.len(),
            forall|j: int| 0 <= j < fields@.len() ==> #[trigger] ms[j] == (fields@[j].0@, fields@[j].1@),
            forall|j: int| 0 <= j < i ==> (#[trigger] ms[j]).0 != name@,
        decreases fields@.len() - i,
    {
        if same_text(fields[i].0.as_str(), name) {
            proof {
                assert(is_first_member(ms, name@, i as int));
                let k = choose|k: int| is_first_member(ms, name@, k);
                assert(k == i) by {
                    if k < i {
                        assert(ms[k].0 != name@);
                    } else if k > i {
                        assert(ms[i as int].0 == name@);
                    }
                }
            }
            return Some(&fields[i].1);
        }
        i = i + 1;
    }
    proof {
        assert forall|k: int| !is_first_member(ms, name@, k) by {
            if 0 <= k < ms.len() {
                assert(ms[k].0 != name@);
            }
        }
    }
    None
}

/// The members of an object value, or a mismatch issue with `expected` when
/// the value is not an object.
pub fn object_fields<'a>(value: &'a JsonValue, expected: &str, cx: &mut Context) -> (r: Option<&'a Vec<(String, JsonValue)>>)
    ensures
        r matches Some(fields) ==> value@ == Json::Object(members(fields@)) && final(cx)@ == old(cx)@,
        r is None ==> !(value@ is Object) && final(cx)@.path == old(cx)@.path
            && final(cx)@.issues == old(cx)@.issues.push(mismatch_issue(old(cx)@.path, expected@, value@)),
{
    match value {
        JsonValue::Object(fields) => Some(fields),
        _ => {
            cx.mismatch(expected, value);
            None
        }
    }
}

/// Decodes the required field `name`: records a missing-field issue when the
/// object has no such member, decodes the member's value under the field's
/// key otherwise.
pub fn decode_field<T: FromJson>(fields: &Vec<(String, JsonValue)>, name: &str, cx: &mut Context) -> (r: Option<T>)
    ensures
        T::obeys_from_json() ==> {
            &&& final(cx)@.path == old(cx)@.path
            &&& final(cx)@.issues == old(cx)@.issues + field_issues::<T>(members(fields@), name@, old(cx)@.path)
            &&& r is Some <==> field_issues::<T>(members(fields@), name@, old(cx)@.path).len() == 0
            &&& r matches Some(out) ==> member_value(members(fields@), name@) matches Some(v) && T::spec_decodes(v, out)
        },
{
    match find_member(fields, name) {
        Some(v) => decode_member(v, name, cx),
        None => {
            let expected = T::expected();
            cx.missing_field(name, expected.as_str());
            None
        }
    }
}

/// Decodes a field that may be absent: `None` when the object has no such
/// member, the decoded member otherwise. An `Option<_>` field uses this, so
/// that both an absent member and `null` decode as `None`.
pub fn decode_optional_field<T: FromJson>(fields: &Vec<(String, JsonValue)>, name: &str, cx: &mut Context) -> (r: Option<Option<T>>)
    ensures
        T::obeys_from_json() ==> {
            &&& final(cx)@.path == old(cx)@.path
            &&& final(cx)@.issues == old(cx)@.issues + optional_field_issues::<Option<T>>(members(fields@), name@, old(cx)@.path)
            &&& r is Some <==> optional_field_issues::<Option<T>>(members(fields@), name@, old(cx)@.path).len() == 0
            &&& r matches Some(out) ==> match member_value(members(fields@), name@) {
                Some(v) => <Option<T> as FromJson>::spec_decodes(v, out),
                None => out is None,
            }
        },
{
    match find_member(fields, name) {
        Some(v) => decode_member(v, name, cx),
        None => {
            assert(old(cx)@.issues + Seq::<IssueModel>::empty() =~= old(cx)@.issues);
            Some(None)
        }
    }
}

/// Decodes a field with a fallback: `fallback` when the object has no such
/// member (as `#[lax(default)]` asks), the decoded member otherwise.
pub fn decode_field_or<T: FromJson>(fields: &Vec<(String, JsonValue)>, name: &str, fallback: T, cx: &mut Context) -> (r: Option<T>)
    ensures
        T::obeys_from_json() ==> {
            &&& final(cx)@.path == old(cx)@.path
            &&& final(cx)@.issues == old(cx)@.issues + optional_field_issues::<T>(members(fields@), name@, old(cx)@.path)
            &&& r is Some <==> optional_field_issues::<T>(members(fields@), name@, old(cx)@.path).len() == 0
            &&& r matches Some(out) ==> match member_value(members(fields@), name@) {
                Some(v) => T::spec_decodes(v, out),
                None => out == fallback,
            }
        },
{
    match find_member(fields, name) {
        Some(v) => decode_member(v, name, cx),
        None => {
            assert(old(cx)@.issues + Seq::<IssueModel>::empty() =~= old(cx)@.issues);
            Some(fallback)
        }
    }
}

/// Decodes a member's value with its key pushed onto the path.
fn decode_member<T: FromJson>(value: &JsonValue, name: &str, cx: &mut Context) -> (r: Option<T>)
    ensures
        T::obeys_from_json() ==> {
            &&& final(cx)@.path == old(cx)@.path
            &&& final(cx)@.issues == old(cx)@.issues + T::spec_issues(value@, old(cx)@.path.push(SegmentModel::Key(name@)))
            &&& r is Some <==> T::spec_issues(value@, old(cx)@.path.push(SegmentModel::Key(name@))).len() == 0
            &&& r matches Some(out) ==> T::spec_decodes(value@, out)
        },
{
    cx.enter(Segment::Key(String::from_str(name)));
    let r = T::from_json(value, cx);
    cx.leave();
    assert(old(cx)@.path.push(SegmentModel::Key(name@)).drop_last() =~= old(cx)@.path);
    r
}

/// The expectation of a derived struct: ``object `Name` ``.
pub open spec fn object_expected_text(name: Seq<char>) -> Seq<char> {
    "object `"@ + name + "`"@
}

/// The expectation of a derived struct named `name`.
pub fn object_expected(name: &str) -> (r: String)
    ensures
        r@ == object_expected_text(name@),
{
    let mut out = String::from_str("object `");
    out.append(name);
    out.append("`");
    out
}

/// The debug-quoted names, separated by ` | `.
pub open spec fn quoted_alternatives(names: Seq<Seq<char>>) -> Seq<char>
    decreases names.len(),
{
    if names.len() == 0 {
        Seq::empty()
    } else if names.len() == 1 {
        debug_quoted(names[0])
    } else {
        quoted_alternatives(names.drop_last()) + " | "@ + debug_quoted(names.last())
    }
}

/// The expectation of a derived enum of unit variants: `one of "A" | "B"`.
pub open spec fn one_of_text(names: Seq<Seq<char>>) -> Seq<char> {
    "one of "@ + quoted_alternatives(names)
}

/// The views of a list of names.
pub open spec fn names_model(names: Seq<&str>) -> Seq<Seq<char>> {
    names.map_values(|n: &str| n@)
}

/// The expectation of a derived enum whose variants go by `names`.
pub fn one_of_expected(names: &[&str]) -> (r: String)
    ensures
        r@ == one_of_text(names_model(names@)),
{
    let ghost ns = names_model(names@);
    let mut out = String::from_str("one of ");
    let ghost start = out@;
    let mut i: usize = 0;
    while i < names.len()
        invariant
            i <= names@.len(),
            ns == names_model(names@),
            ns.len() == names@.len(),
            out@ == start + quoted_alternatives(ns.take(i as int)),
        decreases names@.len() - i,
    {
        if i > 0 {
            out.append(" | ");
        }
        let quoted = quote_debug(names[i]);
        out.append(quoted.as_str());
        proof {
            let t = ns.take(i + 1);
            assert(t.drop_last() =~= ns.take(i as int));
            assert(t.last() == names@[i as int]@);
            if i == 0 {
                assert(ns.take(0) =~= Seq::<Seq<char>>::empty());
                assert(start + Seq::<char>::empty() == start);
            }
        }
        i = i + 1;
    }
    assert(ns.take(names@.len() as int) =~= ns);
    out
}

/// The index of the first of `names` equal to `text`, if any.
pub open spec fn variant_index(names: Seq<Seq<char>>, text: Seq<char>) -> Option<int> {
    if exists|i: int| 0 <= i < names.len() && names[i] == text {
        Some(choose|i: int| 0 <= i < names.len() && names[i] == text && forall|j: int| 0 <= j < i ==> names[j] != text)
    } else {
        None
    }
}

/// Decodes an enum of unit variants: a string naming one of the variants
/// gives that variant's index; anything else records a mismatch with
/// `one of "A" | "B" …` as the expectation.
pub fn decode_unit_variant(value: &JsonValue, names: &[&str], cx: &mut Context) -> (r: Option<usize>)
    ensures
        final(cx)@.path == old(cx)@.path,
        r matches Some(i) ==> final(cx)@.issues == old(cx)@.issues,
        r matches Some(i) ==> (json_as_str(value@) matches Some(s) && variant_index(names_model(names@), s) == Some(i as int)),
        r is None ==> final(cx)@.issues == old(cx)@.issues.push(mismatch_issue(old(cx)@.path, one_of_text(names_model(names@)), value@)),
        r is None ==> !(json_as_str(value@) matches Some(s) && variant_index(names_model(names@), s) is Some),
{
    let ghost ns = names_model(names@);
    if let Some(text) = value.as_str() {
        let mut i: usize = 0;
        while i < names.len()
            invariant
                i <= names@.len(),
                ns == names_model(names@),
                ns.len() == names@.len(),
                forall|j: int| 0 <= j < i ==> ns[j] != text@,
                json_as_str(value@) == Some(text@),
            decreases names@.len() - i,
        {
            if same_text(names[i], text) {
                proof {
                    assert(ns[i as int] == names@[i as int]@);
                    assert(ns[i as int] == text@);
                    assert(0 <= i < ns.len() && ns[i as int] == text@ && forall|j: int| 0 <= j < i ==> ns[j] != text@);
                    let k = choose|k: int| 0 <= k < ns.len() && ns[k] == text@ && forall|j: int| 0 <= j < k ==> ns[j] != text@;
                    assert(k == i) by {
                        if k < i {
                            assert(ns[k] != text@);
                        } else if k > i {
                            assert(ns[i as int] == text@);
                        }
                    }
                    assert(exists|j: int| 0 <= j < ns.len() && ns[j] == text@);
                    assert(variant_index(ns, text@) == Some(i as int));
                }
                return Some(i);
            }
            i = i + 1;
        }
    }
    let expected = one_of_expected(names);
    cx.mismatch(expected.as_str(), value);
    None
}

} // verus!
