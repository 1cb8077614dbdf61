//! The `FromJson` trait and its implementations for std types.

use std::collections::{BTreeMap, HashMap};

use vstd::pervasive::arbitrary;
use vstd::prelude::*;
use vstd::string::*;

use crate::context::{entered, Context, ContextModel};
use crate::error::{describe, mismatch_issue, IssueKindModel, IssueModel};
use crate::json::{json_as_bool, json_as_i64, json_as_str, json_as_u64, lemma_array_model, lemma_object_model, Json, JsonValue};
use crate::path::{Segment, SegmentModel};

verus! {

/// Types that can be decoded from a JSON value while reporting every issue.
///
/// An implementation records an issue at the current path (or below it) for
/// every part of the value that does not fit, returns `None` exactly when it
/// recorded an issue, and leaves the context's path as it found it.
///
/// The clauses of `expected` and `from_json` bind every implementation that
/// sets [`FromJson::obeys_from_json`]: each implementation in this crate does,
/// with its own specifications, and the verifier holds it to them. An
/// implementation written outside verified code keeps the default, so nothing
/// is claimed of it; its author is still expected to meet the clauses.
pub trait FromJson: Sized {
    /// Whether this implementation is held to the clauses below.
    open spec fn obeys_from_json() -> bool {
        false
    }

    /// What the type expects, e.g. `u64` or `array of string`.
    open spec fn spec_expected() -> Seq<char> {
        arbitrary()
    }

    /// The issues that decoding `value` at path `at` records, in order.
    open spec fn spec_issues(value: Json, at: Seq<SegmentModel>) -> Seq<IssueModel> {
        arbitrary()
    }

    /// Whether `out` is a value that decoding `value` yields.
    open spec fn spec_decodes(value: Json, out: Self) -> bool {
        arbitrary()
    }

    /// What the type expects, as shown in issues and error headers.
    fn expected() -> (r: String)
        ensures
            Self::obeys_from_json() ==> r@ == Self::spec_expected(),
    ;

    /// Decodes `value`, recording an issue in `cx` for everything that does
    /// not fit.
    fn from_json(value: &JsonValue, cx: &mut Context) -> (r: Option<Self>)
        ensures
            Self::obeys_from_json() ==> {
                &&& final(cx)@.path == old(cx)@.path
                &&& final(cx)@.issues == old(cx)@.issues + Self::spec_issues(value@, old(cx)@.path)
                &&& r is Some <==> Self::spec_issues(value@, old(cx)@.path).len() == 0
                &&& r matches Some(out) ==> Self::spec_decodes(value@, out)
            },
    ;
}

/// `after` is `before` with one mismatch recorded at its path: the found
/// value is described from `value`, and the expectation starts with
/// `prefix`.
pub open spec fn mismatch_recorded(before: ContextModel, after: ContextModel, prefix: Seq<char>, value: Json) -> bool {
    &&& after.path == before.path
    &&& after.issues.len() == before.issues.len() + 1
    &&& after.issues.take(before.issues.len() as int) == before.issues
    &&& after.issues.last().path == before.path
    &&& after.issues.last().kind matches IssueKindModel::Mismatch { expected, found }
    &&& prefix.is_prefix_of(expected)
    &&& found == describe(value)
}

/// The issues of a value that must be an integer no larger than `max`.
pub open spec fn unsigned_issues(value: Json, at: Seq<SegmentModel>, max: nat, expected: Seq<char>) -> Seq<IssueModel> {
    match json_as_u64(value) {
        Some(n) if n <= max => Seq::empty(),
        _ => seq![mismatch_issue(at, expected, value)],
    }
}

/// The issues of a value that must be an integer between `min` and `max`.
pub open spec fn signed_issues(value: Json, at: Seq<SegmentModel>, min: int, max: int, expected: Seq<char>) -> Seq<IssueModel> {
    match json_as_i64(value) {
        Some(n) if min <= n <= max => Seq::empty(),
        _ => seq![mismatch_issue(at, expected, value)],
    }
}

/// The issues of a value that must be of one shape, as `ok` says.
pub open spec fn shape_issues(ok: bool, value: Json, at: Seq<SegmentModel>, expected: Seq<char>) -> Seq<IssueModel> {
    if ok { Seq::empty() } else { seq![mismatch_issue(at, expected, value)] }
}

impl FromJson for u8 {
    open spec fn obeys_from_json() -> bool { true }

    open spec fn spec_expected() -> Seq<char> { "u8"@ }

    open spec fn spec_issues(value: Json, at: Seq<SegmentModel>) -> Seq<IssueModel> {
        unsigned_issues(value, at, u8::MAX as nat, Self::spec_expected())
    }

    open spec fn spec_decodes(value: Json, out: Self) -> bool {
        json_as_u64(value) == Some(out as u64)
    }

    fn expected() -> (r: String) {
        String::from_str("u8")
    }

    fn from_json(value: &JsonValue, cx: &mut Context) -> (r: Option<Self>) {
        if let Some(n) = value.as_u64() {
            if n <= 255 {
                return Some(n as u8);
            }
        }
        cx.mismatch(Self::expected().as_str(), value);
        None
    }
}

/// The issues of the first `n` array elements, each decoded at its index.
pub open spec fn element_issues<T: FromJson>(items: Seq<Json>, at: Seq<SegmentModel>, n: nat) -> Seq<IssueModel>
    decreases n,
{
    if n == 0 || n > items.len() {
        Seq::empty()
    } else {
        element_issues::<T>(items, at, (n - 1) as nat) + T::spec_issues(items[n - 1], at.push(SegmentModel::Index((n - 1) as usize)))
    }
}

/// The issues of the first `n` members of an object, each decoded at its key.
pub open spec fn member_issues<V: FromJson>(entries: Seq<(Seq<char>, Json)>, at: Seq<SegmentModel>, n: nat) -> Seq<IssueModel>
    decreases n,
{
    if n == 0 || n > entries.len() {
        Seq::empty()
    } else {
        member_issues::<V>(entries, at, (n - 1) as nat) + V::spec_issues(entries[n - 1].1, at.push(SegmentModel::Key(entries[n - 1].0)))
    }
}

/// Appends `prefix` to the text of `what`.
fn prefixed(prefix: &str, what: String) -> (r: String)
    ensures
        r@ == prefix@ + what@,
        prefix@.is_prefix_of(r@),
{
    let mut out = String::from_str(prefix);
    out.append(what.as_str());
    assert(prefix@ =~= out@.subrange(0, prefix@.len() as int));
    out
}

impl<T: FromJson> FromJson for Vec<T> {
    open spec fn obeys_from_json() -> bool { T::obeys_from_json() }

    open spec fn spec_expected() -> Seq<char> { "array of "@ + T::spec_expected() }

    open spec fn spec_issues(value: Json, at: Seq<SegmentModel>) -> Seq<IssueModel> {
        match value {
            Json::Array(items) => element_issues::<T>(items, at, items.len()),
            _ => seq![mismatch_issue(at, Self::spec_expected(), value)],
        }
    }

    open spec fn spec_decodes(value: Json, out: Self) -> bool {
        &&& value matches Json::Array(items)
        &&& out@.len() == items.len()
        &&& forall|i: int| 0 <= i < items.len() ==> T::spec_decodes(items[i], #[trigger] out@[i])
    }

    fn expected() -> (r: String)
        ensures
            "array of "@.is_prefix_of(r@),
    {
        prefixed("array of ", T::expected())
    }

    fn from_json(value: &JsonValue, cx: &mut Context) -> (r: Option<Self>)
        ensures
            !(value@ is Array) ==> r is None && mismatch_recorded(old(cx)@, final(cx)@, "array of "@, value@),
    {
        let items = match value {
            JsonValue::Array(items) => items,
            _ => {
                let expected = Self::expected();
                cx.mismatch(expected.as_str(), value);
                assert(cx@.issues.take(old(cx)@.issues.len() as int) =~= old(cx)@.issues);
                return None;
            }
        };
        proof { lemma_array_model(*items); }
        let ghost ms = value@->Array_0;
        let ghost at = old(cx)@.path;
        let ghost start = old(cx)@.issues;
        let mut out: Vec<T> = Vec::new();
        let mut failed = false;
        let mut i: usize = 0;
        while i < items.len()
            invariant
                i <= items@.len(),
                ms.len() == items@.len(),
                forall|j: int| 0 <= j < items@.len() ==> #[trigger] ms[j] == items@[j]@,
                T::obeys_from_json() ==> cx@.path == at,
                T::obeys_from_json() ==> cx@.issues == start + element_issues::<T>(ms, at, i as nat),
                T::obeys_from_json() ==> failed == (element_issues::<T>(ms, at, i as nat).len() > 0),
                T::obeys_from_json() && !failed ==> out@.len() == i,
                T::obeys_from_json() && !failed ==> forall|j: int| 0 <= j < i ==> T::spec_decodes(ms[j], #[trigger] out@[j]),
            decreases items@.len() - i,
        {
            cx.enter(Segment::Index(i));
            let decoded = T::from_json(&items[i], cx);
            cx.leave();
            proof {
                assert(at.push(SegmentModel::Index(i)).drop_last() =~= at);
            }
            match decoded {
                Some(v) => out.push(v),
                None => failed = true,
            }
            i = i + 1;
        }
        if failed {
            None
        } else {
            Some(out)
        }
    }
}

impl FromJson for u16 {
    open spec fn obeys_from_json() -> bool { true }

    open spec fn spec_expected() -> Seq<char> { "u16"@ }

    open spec fn spec_issues(value: Json, at: Seq<SegmentModel>) -> Seq<IssueModel> {
        unsigned_issues(value, at, u16::MAX as nat, Self::spec_expected())
    }

    open spec fn spec_decodes(value: Json, out: Self) -> bool {
        json_as_u64(value) == Some(out as u64)
    }

    fn expected() -> (r: String) {
        String::from_str("u16")
    }

    fn from_json(value: &JsonValue, cx: &mut Context) -> (r: Option<Self>) {
        if let Some(n) = value.as_u64() {
            if n <= 65535 {
                return Some(n as u16);
            }
        }
        cx.mismatch(Self::expected().as_str(), value);
        None
    }
}

impl FromJson for u32 {
    open spec fn obeys_from_json() -> bool { true }

    open spec fn spec_expected() -> Seq<char> { "u32"@ }

    open spec fn spec_issues(value: Json, at: Seq<SegmentModel>) -> Seq<IssueModel> {
        unsigned_issues(value, at, u32::MAX as nat, Self::spec_expected())
    }

    open spec fn spec_decodes(value: Json, out: Self) -> bool {
        json_as_u64(value) == Some(out as u64)
    }

    fn expected() -> (r: String) {
        String::from_str("u32")
    }

    fn from_json(value: &JsonValue, cx: &mut Context) -> (r: Option<Self>) {
        if let Some(n) = value.as_u64() {
            if n <= 4294967295 {
                return Some(n as u32);
            }
        }
        cx.mismatch(Self::expected().as_str(), value);
        None
    }
}

impl FromJson for usize {
    open spec fn obeys_from_json() -> bool { true }

    open spec fn spec_expected() -> Seq<char> { "usize"@ }

    open spec fn spec_issues(value: Json, at: Seq<SegmentModel>) -> Seq<IssueModel> {
        unsigned_issues(value, at, usize::MAX as nat, Self::spec_expected())
    }

    open spec fn spec_decodes(value: Json, out: Self) -> bool {
        json_as_u64(value) == Some(out as u64)
    }

    fn expected() -> (r: String) {
        String::from_str("usize")
    }

    fn from_json(value: &JsonValue, cx: &mut Context) -> (r: Option<Self>) {
        if let Some(n) = value.as_u64() {
            if n <= usize::MAX as u64 {
                return Some(n as usize);
            }
        }
        cx.mismatch(Self::expected().as_str(), value);
        None
    }
}

impl FromJson for i8 {
    open spec fn obeys_from_json() -> bool { true }

    open spec fn spec_expected() -> Seq<char> { "i8"@ }

    open spec fn spec_issues(value: Json, at: Seq<SegmentModel>) -> Seq<IssueModel> {
        signed_issues(value, at, -128 as int, 127 as int, Self::spec_expected())
    }

    open spec fn spec_decodes(value: Json, out: Self) -> bool {
        json_as_i64(value) == Some(out as i64)
    }

    fn expected() -> (r: String) {
        String::from_str("i8")
    }

    fn from_json(value: &JsonValue, cx: &mut Context) -> (r: Option<Self>) {
        if let Some(n) = value.as_i64() {
            if -128 <= n && n <= 127 {
                return Some(n as i8);
            }
        }
        cx.mismatch(Self::expected().as_str(), value);
        None
    }
}

impl FromJson for i16 {
    open spec fn obeys_from_json() -> bool { true }

    open spec fn spec_expected() -> Seq<char> { "i16"@ }

    open spec fn spec_issues(value: Json, at: Seq<SegmentModel>) -> Seq<IssueModel> {
        signed_issues(value, at, -32768 as int, 32767 as int, Self::spec_expected())
    }

    open spec fn spec_decodes(value: Json, out: Self) -> bool {
        json_as_i64(value) == Some(out as i64)
    }

    fn expected() -> (r: String) {
        String::from_str("i16")
    }

    fn from_json(value: &JsonValue, cx: &mut Context) -> (r: Option<Self>) {
        if let Some(n) = value.as_i64() {
            if -32768 <= n && n <= 32767 {
                return Some(n as i16);
            }
        }
        cx.mismatch(Self::expected().as_str(), value);
        None
    }
}

impl FromJson for i32 {
    open spec fn obeys_from_json() -> bool { true }

    open spec fn spec_expected() -> Seq<char> { "i32"@ }

    open spec fn spec_issues(value: Json, at: Seq<SegmentModel>) -> Seq<IssueModel> {
        signed_issues(value, at, -2147483648 as int, 2147483647 as int, Self::spec_expected())
    }

    open spec fn spec_decodes(value: Json, out: Self) -> bool {
        json_as_i64(value) == Some(out as i64)
    }

    fn expected() -> (r: String) {
        String::from_str("i32")
    }

    fn from_json(value: &JsonValue, cx: &mut Context) -> (r: Option<Self>) {
        if let Some(n) = value.as_i64() {
            if -2147483648 <= n && n <= 2147483647 {
                return Some(n as i32);
            }
        }
        cx.mismatch(Self::expected().as_str(), value);
        None
    }
}

impl FromJson for isize {
    open spec fn obeys_from_json() -> bool { true }

    open spec fn spec_expected() -> Seq<char> { "isize"@ }

    open spec fn spec_issues(value: Json, at: Seq<SegmentModel>) -> Seq<IssueModel> {
        signed_issues(value, at, isize::MIN as int, isize::MAX as int, Self::spec_expected())
    }

    open spec fn spec_decodes(value: Json, out: Self) -> bool {
        json_as_i64(value) == Some(out as i64)
    }

    fn expected() -> (r: String) {
        String::from_str("isize")
    }

    fn from_json(value: &JsonValue, cx: &mut Context) -> (r: Option<Self>) {
        if let Some(n) = value.as_i64() {
            if isize::MIN as i64 <= n && n <= isize::MAX as i64 {
                return Some(n as isize);
            }
        }
        cx.mismatch(Self::expected().as_str(), value);
        None
    }
}

impl FromJson for u64 {
    open spec fn obeys_from_json() -> bool { true }

    open spec fn spec_expected() -> Seq<char> { "u64"@ }

    open spec fn spec_issues(value: Json, at: Seq<SegmentModel>) -> Seq<IssueModel> {
        shape_issues(json_as_u64(value) is Some, value, at, Self::spec_expected())
    }

    open spec fn spec_decodes(value: Json, out: Self) -> bool {
        json_as_u64(value) == Some(out)
    }

    fn expected() -> (r: String) {
        String::from_str("u64")
    }

    fn from_json(value: &JsonValue, cx: &mut Context) -> (r: Option<Self>) {
        match value.as_u64() {
            Some(n) => Some(n),
            None => {
                cx.mismatch(Self::expected().as_str(), value);
                None
            }
        }
    }
}

impl FromJson for i64 {
    open spec fn obeys_from_json() -> bool { true }

    open spec fn spec_expected() -> Seq<char> { "i64"@ }

    open spec fn spec_issues(value: Json, at: Seq<SegmentModel>) -> Seq<IssueModel> {
        shape_issues(json_as_i64(value) is Some, value, at, Self::spec_expected())
    }

    open spec fn spec_decodes(value: Json, out: Self) -> bool {
        json_as_i64(value) == Some(out)
    }

    fn expected() -> (r: String) {
        String::from_str("i64")
    }

    fn from_json(value: &JsonValue, cx: &mut Context) -> (r: Option<Self>) {
        match value.as_i64() {
            Some(n) => Some(n),
            None => {
                cx.mismatch(Self::expected().as_str(), value);
                None
            }
        }
    }
}

impl FromJson for bool {
    open spec fn obeys_from_json() -> bool { true }

    open spec fn spec_expected() -> Seq<char> { "bool"@ }

    open spec fn spec_issues(value: Json, at: Seq<SegmentModel>) -> Seq<IssueModel> {
        shape_issues(json_as_bool(value) is Some, value, at, Self::spec_expected())
    }

    open spec fn spec_decodes(value: Json, out: Self) -> bool {
        json_as_bool(value) == Some(out)
    }

    fn expected() -> (r: String) {
        String::from_str("bool")
    }

    fn from_json(value: &JsonValue, cx: &mut Context) -> (r: Option<Self>) {
        match value.as_bool() {
            Some(b) => Some(b),
            None => {
                cx.mismatch(Self::expected().as_str(), value);
                None
            }
        }
    }
}

impl FromJson for String {
    open spec fn obeys_from_json() -> bool { true }

    open spec fn spec_expected() -> Seq<char> { "string"@ }

    open spec fn spec_issues(value: Json, at: Seq<SegmentModel>) -> Seq<IssueModel> {
        shape_issues(json_as_str(value) is Some, value, at, Self::spec_expected())
    }

    open spec fn spec_decodes(value: Json, out: Self) -> bool {
        json_as_str(value) == Some(out@)
    }

    fn expected() -> (r: String) {
        String::from_str("string")
    }

    fn from_json(value: &JsonValue, cx: &mut Context) -> (r: Option<Self>) {
        match value.as_str() {
            Some(s) => Some(String::from_str(s)),
            None => {
                cx.mismatch(Self::expected().as_str(), value);
                None
            }
        }
    }
}

impl<T: FromJson> FromJson for Option<T> {
    open spec fn obeys_from_json() -> bool { T::obeys_from_json() }

    open spec fn spec_expected() -> Seq<char> { "optional "@ + T::spec_expected() }

    open spec fn spec_issues(value: Json, at: Seq<SegmentModel>) -> Seq<IssueModel> {
        if value is Null { Seq::empty() } else { T::spec_issues(value, at) }
    }

    open spec fn spec_decodes(value: Json, out: Self) -> bool {
        if value is Null {
            out is None
        } else {
            out matches Some(x) && T::spec_decodes(value, x)
        }
    }

    fn expected() -> (r: String) {
        prefixed("optional ", T::expected())
    }

    fn from_json(value: &JsonValue, cx: &mut Context) -> (r: Option<Self>)
        ensures
            value@ is Null ==> (r matches Some(inner) && inner is None) && final(cx)@ == old(cx)@,
    {
        if value.is_null() {
            return Some(None);
        }
        match T::from_json(value, cx) {
            Some(v) => Some(Some(v)),
            None => None,
        }
    }
}

impl<T: FromJson> FromJson for Box<T> {
    open spec fn obeys_from_json() -> bool { T::obeys_from_json() }

    open spec fn spec_expected() -> Seq<char> { T::spec_expected() }

    open spec fn spec_issues(value: Json, at: Seq<SegmentModel>) -> Seq<IssueModel> {
        T::spec_issues(value, at)
    }

    open spec fn spec_decodes(value: Json, out: Self) -> bool {
        T::spec_decodes(value, *out)
    }

    fn expected() -> (r: String) {
        T::expected()
    }

    fn from_json(value: &JsonValue, cx: &mut Context) -> (r: Option<Self>) {
        match T::from_json(value, cx) {
            Some(v) => Some(Box::new(v)),
            None => None,
        }
    }
}

impl FromJson for JsonValue {
    open spec fn obeys_from_json() -> bool { true }

    open spec fn spec_expected() -> Seq<char> { "any JSON value"@ }

    open spec fn spec_issues(value: Json, at: Seq<SegmentModel>) -> Seq<IssueModel> {
        Seq::empty()
    }

    open spec fn spec_decodes(value: Json, out: Self) -> bool {
        out@ == value
    }

    fn expected() -> (r: String) {
        String::from_str("any JSON value")
    }

    fn from_json(value: &JsonValue, cx: &mut Context) -> (r: Option<Self>) {
        assert(old(cx)@.issues + Seq::<IssueModel>::empty() =~= old(cx)@.issues);
        Some(value.duplicate())
    }
}

/// Whether the first `n` members have pairwise different keys.
pub open spec fn distinct_keys(entries: Seq<(Seq<char>, Json)>, n: nat) -> bool {
    forall|a: int, b: int| 0 <= a < b < n ==> (#[trigger] entries[a]).0 != (#[trigger] entries[b]).0
}

/// Whether `v` is what one of the first `n` members named `key` decodes to.
pub open spec fn decoded_member<V: FromJson>(entries: Seq<(Seq<char>, Json)>, n: nat, key: Seq<char>, v: V) -> bool {
    exists|j: int| 0 <= j < n && (#[trigger] entries[j]).0 == key && V::spec_decodes(entries[j].1, v)
}

/// Whether some key of `m` is named `key`.
pub open spec fn has_key_named<V>(m: Map<String, V>, key: Seq<char>) -> bool {
    exists|k: String| k@ == key && #[trigger] m.contains_key(k)
}

/// Whether the map `m` holds what the first `n` members decode to: every key
/// of `m` names one of those members and holds what that member decodes to,
/// and each of those members has its key in `m`.
pub open spec fn holds_members<V: FromJson>(entries: Seq<(Seq<char>, Json)>, n: nat, m: Map<String, V>) -> bool {
    &&& forall|k: String| #[trigger] m.contains_key(k) ==> decoded_member::<V>(entries, n, k@, m[k])
    &&& forall|j: int| 0 <= j < n ==> has_key_named(m, (#[trigger] entries[j]).0)
}

/// What a map filled from the first `n` members is: it holds what they
/// decode to, and when their keys differ it has one key for each of them.
pub open spec fn filled<V: FromJson>(entries: Seq<(Seq<char>, Json)>, n: nat, m: Map<String, V>) -> bool {
    &&& holds_members::<V>(entries, n, m)
    &&& m.dom().finite()
    &&& distinct_keys(entries, n) ==> m.len() == n
}

proof fn lemma_holds_none<V: FromJson>(entries: Seq<(Seq<char>, Json)>, m: Map<String, V>)
    requires
        m == Map::<String, V>::empty(),
    ensures
        filled::<V>(entries, 0, m),
{
    assert(m.dom() =~= Set::<String>::empty());
}

proof fn lemma_holds_next<V: FromJson>(entries: Seq<(Seq<char>, Json)>, n: nat, m: Map<String, V>, k: String, v: V)
    requires
        n < entries.len(),
        filled::<V>(entries, n, m),
        k@ == entries[n as int].0,
        V::spec_decodes(entries[n as int].1, v),
    ensures
        filled::<V>(entries, n + 1, m.insert(k, v)),
{
    let m2 = m.insert(k, v);
    assert forall|k2: String| #[trigger] m2.contains_key(k2) implies decoded_member::<V>(entries, n + 1, k2@, m2[k2]) by {
        if k2 == k {
            assert(entries[n as int].0 == k2@ && V::spec_decodes(entries[n as int].1, m2[k2]));
        } else {
            assert(m.contains_key(k2));
            let j = choose|j: int| 0 <= j < n && (#[trigger] entries[j]).0 == k2@ && V::spec_decodes(entries[j].1, m[k2]);
            assert(0 <= j < n + 1 && entries[j].0 == k2@ && V::spec_decodes(entries[j].1, m2[k2]));
        }
    }
    assert forall|j: int| 0 <= j < n + 1 implies has_key_named(m2, (#[trigger] entries[j]).0) by {
        if j == n {
            assert(k@ == entries[j].0 && m2.contains_key(k));
        } else {
            assert(has_key_named(m, entries[j].0));
            let k3 = choose|k3: String| k3@ == entries[j].0 && #[trigger] m.contains_key(k3);
            assert(m2.contains_key(k3));
        }
    }
    if distinct_keys(entries, n + 1) {
        assert(distinct_keys(entries, n));
        if m.contains_key(k) {
            let j = choose|j: int| 0 <= j < n && (#[trigger] entries[j]).0 == k@ && V::spec_decodes(entries[j].1, m[k]);
            assert(entries[j].0 != entries[n as int].0);
        }
        assert(m2.dom() =~= m.dom().insert(k));
    }
}

/// Inserts a decoded member into a hash map.
///
/// Trusted: calls `HashMap::insert`, which the standard library documents as
/// adding the pair, or replacing the value under an equal key. vstd states
/// this only under `obeys_key_model::<String>()`, which it leaves open for
/// `String`; `String`'s `Eq` and `Hash` are those of its characters, so the
/// contract states it outright.
#[verifier::external_body]
fn insert_hashed<V>(m: &mut HashMap<String, V>, key: String, value: V)
    ensures
        final(m)@ == old(m)@.insert(key, value),
{
    m.insert(key, value);
}

/// Inserts a decoded member into an ordered map.
///
/// Trusted: calls `BTreeMap::insert`, which the standard library documents as
/// adding the pair, or replacing the value under an equal key. vstd states
/// this only under `obeys_cmp::<String>()`, which it leaves open for `String`;
/// `String`'s order is the order of its characters, so the contract states it
/// outright.
#[verifier::external_body]
fn insert_ordered<V>(m: &mut BTreeMap<String, V>, key: String, value: V)
    ensures
        final(m)@ == old(m)@.insert(key, value),
{
    m.insert(key, value);
}

impl<V: FromJson> FromJson for HashMap<String, V> {
    open spec fn obeys_from_json() -> bool { V::obeys_from_json() }

    open spec fn spec_expected() -> Seq<char> { "object of "@ + V::spec_expected() }

    open spec fn spec_issues(value: Json, at: Seq<SegmentModel>) -> Seq<IssueModel> {
        match value {
            Json::Object(entries) => member_issues::<V>(entries, at, entries.len()),
            _ => seq![mismatch_issue(at, Self::spec_expected(), value)],
        }
    }

    open spec fn spec_decodes(value: Json, out: Self) -> bool {
        &&& value matches Json::Object(entries)
        &&& holds_members::<V>(entries, entries.len(), out@)
        &&& distinct_keys(entries, entries.len()) ==> out@.len() == entries.len()
    }

    fn expected() -> (r: String)
        ensures
            "object of "@.is_prefix_of(r@),
    {
        prefixed("object of ", V::expected())
    }

    fn from_json(value: &JsonValue, cx: &mut Context) -> (r: Option<Self>)
        ensures
            !(value@ is Object) ==> r is None && mismatch_recorded(old(cx)@, final(cx)@, "object of "@, value@),
    {
        let entries = match value {
            JsonValue::Object(entries) => entries,
            _ => {
                let expected = Self::expected();
                cx.mismatch(expected.as_str(), value);
                assert(cx@.issues.take(old(cx)@.issues.len() as int) =~= old(cx)@.issues);
                return None;
            }
        };
        proof { lemma_object_model(*entries); }
        let ghost ms = value@->Object_0;
        let ghost at = old(cx)@.path;
        let ghost start = old(cx)@.issues;
        let mut out: HashMap<String, V> = HashMap::new();
        let mut failed = false;
        let mut i: usize = 0;
        proof { lemma_holds_none::<V>(ms, out@); }
        while i < entries.len()
            invariant
                i <= entries@.len(),
                ms.len() == entries@.len(),
                forall|j: int| 0 <= j < entries@.len() ==> #[trigger] ms[j] == (entries@[j].0@, entries@[j].1@),
                V::obeys_from_json() ==> cx@.path == at,
                V::obeys_from_json() ==> cx@.issues == start + member_issues::<V>(ms, at, i as nat),
                V::obeys_from_json() ==> failed == (member_issues::<V>(ms, at, i as nat).len() > 0),
                V::obeys_from_json() && !failed ==> filled::<V>(ms, i as nat, out@),
            decreases entries@.len() - i,
        {
            let key = &entries[i].0;
            cx.enter(Segment::Key(key.clone()));
            let decoded = V::from_json(&entries[i].1, cx);
            cx.leave();
            proof {
                assert(at.push(SegmentModel::Key(key@)).drop_last() =~= at);
            }
            match decoded {
                Some(v) => {
                    let ghost before = out@;
                    let k = key.clone();
                    proof {
                        if V::obeys_from_json() && !failed {
                            lemma_holds_next::<V>(ms, i as nat, before, k, v);
                        }
                    }
                    insert_hashed(&mut out, k, v);
                }
                None => failed = true,
            }
            i = i + 1;
        }
        if failed {
            None
        } else {
            Some(out)
        }
    }
}

impl<V: FromJson> FromJson for BTreeMap<String, V> {
    open spec fn obeys_from_json() -> bool { V::obeys_from_json() }

    open spec fn spec_expected() -> Seq<char> { "object of "@ + V::spec_expected() }

    open spec fn spec_issues(value: Json, at: Seq<SegmentModel>) -> Seq<IssueModel> {
        match value {
            Json::Object(entries) => member_issues::<V>(entries, at, entries.len()),
            _ => seq![mismatch_issue(at, Self::spec_expected(), value)],
        }
    }

    open spec fn spec_decodes(value: Json, out: Self) -> bool {
        &&& value matches Json::Object(entries)
        &&& holds_members::<V>(entries, entries.len(), out@)
        &&& distinct_keys(entries, entries.len()) ==> out@.len() == entries.len()
    }

    fn expected() -> (r: String)
        ensures
            "object of "@.is_prefix_of(r@),
    {
        prefixed("object of ", V::expected())
    }

    fn from_json(value: &JsonValue, cx: &mut Context) -> (r: Option<Self>)
        ensures
            !(value@ is Object) ==> r is None && mismatch_recorded(old(cx)@, final(cx)@, "object of "@, value@),
    {
        let entries = match value {
            JsonValue::Object(entries) => entries,
            _ => {
                let expected = Self::expected();
                cx.mismatch(expected.as_str(), value);
                assert(cx@.issues.take(old(cx)@.issues.len() as int) =~= old(cx)@.issues);
                return None;
            }
        };
        proof { lemma_object_model(*entries); }
        let ghost ms = value@->Object_0;
        let ghost at = old(cx)@.path;
        let ghost start = old(cx)@.issues;
        let mut out: BTreeMap<String, V> = BTreeMap::new();
        let mut failed = false;
        let mut i: usize = 0;
        proof { lemma_holds_none::<V>(ms, out@); }
        while i < entries.len()
            invariant
                i <= entries@.len(),
                ms.len() == entries@.len(),
                forall|j: int| 0 <= j < entries@.len() ==> #[trigger] ms[j] == (entries@[j].0@, entries@[j].1@),
                V::obeys_from_json() ==> cx@.path == at,
                V::obeys_from_json() ==> cx@.issues == start + member_issues::<V>(ms, at, i as nat),
                V::obeys_from_json() ==> failed == (member_issues::<V>(ms, at, i as nat).len() > 0),
                V::obeys_from_json() && !failed ==> filled::<V>(ms, i as nat, out@),
            decreases entries@.len() - i,
        {
            let key = &entries[i].0;
            cx.enter(Segment::Key(key.clone()));
            let decoded = V::from_json(&entries[i].1, cx);
            cx.leave();
            proof {
                assert(at.push(SegmentModel::Key(key@)).drop_last() =~= at);
            }
            match decoded {
                Some(v) => {
                    let ghost before = out@;
                    let k = key.clone();
                    proof {
                        if V::obeys_from_json() && !failed {
                            lemma_holds_next::<V>(ms, i as nat, before, k, v);
                        }
                    }
                    insert_ordered(&mut out, k, v);
                }
                None => failed = true,
            }
            i = i + 1;
        }
        if failed {
            None
        } else {
            Some(out)
        }
    }
}

} // verus!
