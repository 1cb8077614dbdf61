//! Properties of the library as a whole, proved over the specifications the
//! functions themselves state.

use std::collections::{BTreeMap, HashMap};

use vstd::prelude::*;

use crate::context::{entered, left, recorded, ContextModel};
use crate::derive::{field_issues, is_first_member, member_value, one_of_text, optional_field_issues, quoted_alternatives};
use crate::error::Error;
use crate::rename::{ascii_lower, ascii_upper, field_name, pascal_of_field, RenameRule};
use crate::decode_outcome;
use crate::error::{
    describe, issue_noun, mismatch_issue, quoted_keys, render_issue, IssueKindModel, render_decode_error, render_hidden, render_issues, shown_issue_count, shown_string,
    IssueModel, MAX_DISPLAYED_ISSUES,
};
use crate::impls::{distinct_keys, element_issues, member_issues, FromJson};
use crate::json::{json_as_i64, json_as_str, json_as_u64, keys_ascending, parsed_document, text_before, Json, NumberModel};
use crate::path::{is_identifier_key, render_path, render_segment, SegmentModel};
use crate::text::{debug_quoted, decimal};

verus! {

/// Whether every issue lies at `at` or below it.
pub open spec fn located(issues: Seq<IssueModel>, at: Seq<SegmentModel>) -> bool {
    forall|i: int| 0 <= i < issues.len() ==> at.is_prefix_of(#[trigger] issues[i].path)
}

/// Whether every issue that decoding into `T` records lies at or below the
/// path where decoding started, whatever the value and the path.
pub open spec fn issues_stay_located<T: FromJson>() -> bool {
    forall|v: Json, p: Seq<SegmentModel>| #[trigger] located(T::spec_issues(v, p), p)
}

proof fn lemma_prefix_extend(at: Seq<SegmentModel>, s: SegmentModel, q: Seq<SegmentModel>)
    requires
        at.push(s).is_prefix_of(q),
    ensures
        at.is_prefix_of(q),
{
    assert forall|i: int| 0 <= i < at.len() implies at[i] == q[i] by {
        assert(at.push(s)[i] == at[i]);
    }
}

proof fn lemma_located_concat(a: Seq<IssueModel>, b: Seq<IssueModel>, at: Seq<SegmentModel>)
    requires
        located(a, at),
        located(b, at),
    ensures
        located(a + b, at),
{
    assert forall|i: int| 0 <= i < (a + b).len() implies at.is_prefix_of(#[trigger] (a + b)[i].path) by {
        if i < a.len() {
            assert((a + b)[i] == a[i]);
        } else {
            assert((a + b)[i] == b[i - a.len()]);
        }
    }
}

proof fn lemma_located_deeper(issues: Seq<IssueModel>, at: Seq<SegmentModel>, s: SegmentModel)
    requires
        located(issues, at.push(s)),
    ensures
        located(issues, at),
{
    assert forall|i: int| 0 <= i < issues.len() implies at.is_prefix_of(#[trigger] issues[i].path) by {
        lemma_prefix_extend(at, s, issues[i].path);
    }
}

proof fn lemma_mismatch_located(at: Seq<SegmentModel>, expected: Seq<char>, value: Json)
    ensures
        located(seq![mismatch_issue(at, expected, value)], at),
{
    assert(at.is_prefix_of(at));
}

proof fn lemma_element_issues_located<T: FromJson>(items: Seq<Json>, at: Seq<SegmentModel>, n: nat)
    requires
        issues_stay_located::<T>(),
    ensures
        located(element_issues::<T>(items, at, n), at),
    decreases n,
{
    if n > 0 && n <= items.len() {
        lemma_element_issues_located::<T>(items, at, (n - 1) as nat);
        let s = SegmentModel::Index((n - 1) as usize);
        assert(located(T::spec_issues(items[n - 1], at.push(s)), at.push(s)));
        lemma_located_deeper(T::spec_issues(items[n - 1], at.push(s)), at, s);
        lemma_located_concat(element_issues::<T>(items, at, (n - 1) as nat), T::spec_issues(items[n - 1], at.push(s)), at);
    }
}

proof fn lemma_member_issues_located<V: FromJson>(entries: Seq<(Seq<char>, Json)>, at: Seq<SegmentModel>, n: nat)
    requires
        issues_stay_located::<V>(),
    ensures
        located(member_issues::<V>(entries, at, n), at),
    decreases n,
{
    if n > 0 && n <= entries.len() {
        lemma_member_issues_located::<V>(entries, at, (n - 1) as nat);
        let s = SegmentModel::Key(entries[n - 1].0);
        assert(located(V::spec_issues(entries[n - 1].1, at.push(s)), at.push(s)));
        lemma_located_deeper(V::spec_issues(entries[n - 1].1, at.push(s)), at, s);
        lemma_located_concat(member_issues::<V>(entries, at, (n - 1) as nat), V::spec_issues(entries[n - 1].1, at.push(s)), at);
    }
}

/// Scalars record their issues exactly where they are decoded: every issue
/// that decoding into an integer, `bool`, `String` or a JSON value records
/// lies at or below the path where decoding started.
pub proof fn law_scalar_issues_are_located()
    ensures
        issues_stay_located::<u8>(),
        issues_stay_located::<u16>(),
        issues_stay_located::<u32>(),
        issues_stay_located::<u64>(),
        issues_stay_located::<usize>(),
        issues_stay_located::<i8>(),
        issues_stay_located::<i16>(),
        issues_stay_located::<i32>(),
        issues_stay_located::<i64>(),
        issues_stay_located::<isize>(),
        issues_stay_located::<bool>(),
        issues_stay_located::<String>(),
        issues_stay_located::<crate::json::JsonValue>(),
{
    assert forall|v: Json, p: Seq<SegmentModel>| #[trigger] located(<u8 as FromJson>::spec_issues(v, p), p) by { lemma_mismatch_located(p, "u8"@, v); }
    assert forall|v: Json, p: Seq<SegmentModel>| #[trigger] located(<u16 as FromJson>::spec_issues(v, p), p) by { lemma_mismatch_located(p, "u16"@, v); }
    assert forall|v: Json, p: Seq<SegmentModel>| #[trigger] located(<u32 as FromJson>::spec_issues(v, p), p) by { lemma_mismatch_located(p, "u32"@, v); }
    assert forall|v: Json, p: Seq<SegmentModel>| #[trigger] located(<u64 as FromJson>::spec_issues(v, p), p) by { lemma_mismatch_located(p, "u64"@, v); }
    assert forall|v: Json, p: Seq<SegmentModel>| #[trigger] located(<usize as FromJson>::spec_issues(v, p), p) by { lemma_mismatch_located(p, "usize"@, v); }
    assert forall|v: Json, p: Seq<SegmentModel>| #[trigger] located(<i8 as FromJson>::spec_issues(v, p), p) by { lemma_mismatch_located(p, "i8"@, v); }
    assert forall|v: Json, p: Seq<SegmentModel>| #[trigger] located(<i16 as FromJson>::spec_issues(v, p), p) by { lemma_mismatch_located(p, "i16"@, v); }
    assert forall|v: Json, p: Seq<SegmentModel>| #[trigger] located(<i32 as FromJson>::spec_issues(v, p), p) by { lemma_mismatch_located(p, "i32"@, v); }
    assert forall|v: Json, p: Seq<SegmentModel>| #[trigger] located(<i64 as FromJson>::spec_issues(v, p), p) by { lemma_mismatch_located(p, "i64"@, v); }
    assert forall|v: Json, p: Seq<SegmentModel>| #[trigger] located(<isize as FromJson>::spec_issues(v, p), p) by { lemma_mismatch_located(p, "isize"@, v); }
    assert forall|v: Json, p: Seq<SegmentModel>| #[trigger] located(<bool as FromJson>::spec_issues(v, p), p) by { lemma_mismatch_located(p, "bool"@, v); }
    assert forall|v: Json, p: Seq<SegmentModel>| #[trigger] located(<String as FromJson>::spec_issues(v, p), p) by { lemma_mismatch_located(p, "string"@, v); }
}

/// Containers keep their issues where they belong: when every issue of the
/// element (or member) type lies at or below where it is decoded, so does
/// every issue of arrays, optional values, boxes and string-keyed maps of it.
pub proof fn law_container_issues_are_located<T: FromJson>()
    requires
        issues_stay_located::<T>(),
    ensures
        issues_stay_located::<Vec<T>>(),
        issues_stay_located::<Option<T>>(),
        issues_stay_located::<Box<T>>(),
        issues_stay_located::<HashMap<String, T>>(),
        issues_stay_located::<BTreeMap<String, T>>(),
{
    assert forall|v: Json, p: Seq<SegmentModel>| #[trigger] located(<Vec<T> as FromJson>::spec_issues(v, p), p) by {
        match v {
            Json::Array(items) => lemma_element_issues_located::<T>(items, p, items.len()),
            _ => lemma_mismatch_located(p, <Vec<T> as FromJson>::spec_expected(), v),
        }
    }
    assert forall|v: Json, p: Seq<SegmentModel>| #[trigger] located(<Option<T> as FromJson>::spec_issues(v, p), p) by {
        if !(v is Null) {
            assert(located(T::spec_issues(v, p), p));
        }
    }
    assert forall|v: Json, p: Seq<SegmentModel>| #[trigger] located(<Box<T> as FromJson>::spec_issues(v, p), p) by {
        assert(located(T::spec_issues(v, p), p));
    }
    assert forall|v: Json, p: Seq<SegmentModel>| #[trigger] located(<HashMap<String, T> as FromJson>::spec_issues(v, p), p) by {
        match v {
            Json::Object(entries) => lemma_member_issues_located::<T>(entries, p, entries.len()),
            _ => lemma_mismatch_located(p, <HashMap<String, T> as FromJson>::spec_expected(), v),
        }
    }
    assert forall|v: Json, p: Seq<SegmentModel>| #[trigger] located(<BTreeMap<String, T> as FromJson>::spec_issues(v, p), p) by {
        match v {
            Json::Object(entries) => lemma_member_issues_located::<T>(entries, p, entries.len()),
            _ => lemma_mismatch_located(p, <BTreeMap<String, T> as FromJson>::spec_expected(), v),
        }
    }
}

proof fn lemma_element_issues_empty<T: FromJson>(items: Seq<Json>, at: Seq<SegmentModel>, n: nat)
    requires
        n <= items.len(),
    ensures
        element_issues::<T>(items, at, n).len() == 0
            <==> forall|i: int| 0 <= i < n ==> (#[trigger] T::spec_issues(items[i], at.push(SegmentModel::Index(i as usize)))).len() == 0,
    decreases n,
{
    if n > 0 {
        lemma_element_issues_empty::<T>(items, at, (n - 1) as nat);
        let last = T::spec_issues(items[n - 1], at.push(SegmentModel::Index((n - 1) as usize)));
        if last.len() != 0 {
            assert(!(forall|i: int| 0 <= i < n ==> (#[trigger] T::spec_issues(items[i], at.push(SegmentModel::Index(i as usize)))).len() == 0)) by {
                let i = n - 1;
                assert(T::spec_issues(items[i], at.push(SegmentModel::Index(i as usize))).len() != 0);
            }
        }
    }
}

/// An array decodes exactly when every element decodes at its index; the
/// array's issues are the elements' issues, in index order, so appending an
/// element appends that element's issues, reported at its index.
pub proof fn law_array_decodes_iff_every_element_decodes<T: FromJson>(items: Seq<Json>, item: Json, at: Seq<SegmentModel>)
    ensures
        <Vec<T> as FromJson>::spec_issues(Json::Array(items), at).len() == 0
            <==> forall|i: int| 0 <= i < items.len() ==> (#[trigger] T::spec_issues(items[i], at.push(SegmentModel::Index(i as usize)))).len() == 0,
        items.len() < usize::MAX ==> <Vec<T> as FromJson>::spec_issues(Json::Array(items.push(item)), at)
            == <Vec<T> as FromJson>::spec_issues(Json::Array(items), at) + T::spec_issues(item, at.push(SegmentModel::Index(items.len() as usize))),
{
    lemma_element_issues_empty::<T>(items, at, items.len());
    let longer = items.push(item);
    lemma_element_issues_prefix::<T>(longer, items, at, items.len());
}

proof fn lemma_element_issues_prefix<T: FromJson>(a: Seq<Json>, b: Seq<Json>, at: Seq<SegmentModel>, n: nat)
    requires
        n <= a.len(),
        n <= b.len(),
        forall|i: int| 0 <= i < n ==> a[i] == b[i],
    ensures
        element_issues::<T>(a, at, n) == element_issues::<T>(b, at, n),
    decreases n,
{
    if n > 0 {
        lemma_element_issues_prefix::<T>(a, b, at, (n - 1) as nat);
    }
}

/// `null` decodes as `None` for every optional type and records nothing;
/// any other value decodes as the inner type would, with the same issues.
pub proof fn law_option_null_is_none<T: FromJson>(value: Json, at: Seq<SegmentModel>)
    ensures
        <Option<T> as FromJson>::spec_issues(Json::Null, at).len() == 0,
        <Option<T> as FromJson>::spec_decodes(Json::Null, None),
        !(value is Null) ==> <Option<T> as FromJson>::spec_issues(value, at) == T::spec_issues(value, at),
        <Option<T> as FromJson>::spec_expected() == "optional "@ + T::spec_expected(),
{
}

/// A box decodes, describes and reports exactly as its contents.
pub proof fn law_box_delegates<T: FromJson>(value: Json, at: Seq<SegmentModel>)
    ensures
        <Box<T> as FromJson>::spec_issues(value, at) == T::spec_issues(value, at),
        <Box<T> as FromJson>::spec_expected() == T::spec_expected(),
{
}

/// No coercion: a string never decodes as a number or a boolean, a number
/// never decodes as a string, a number with a fraction or exponent never
/// decodes as an integer, and a negative integer never decodes as an unsigned
/// one; each records one mismatch at the value.
pub proof fn law_no_coercion(s: Seq<char>, at: Seq<SegmentModel>, n: NumberModel, text: Seq<char>, neg: i64)
    ensures
        <u64 as FromJson>::spec_issues(Json::String(s), at) == seq![mismatch_issue(at, "u64"@, Json::String(s))],
        <i64 as FromJson>::spec_issues(Json::String(s), at) == seq![mismatch_issue(at, "i64"@, Json::String(s))],
        <u8 as FromJson>::spec_issues(Json::String(s), at) == seq![mismatch_issue(at, "u8"@, Json::String(s))],
        <bool as FromJson>::spec_issues(Json::String(s), at) == seq![mismatch_issue(at, "bool"@, Json::String(s))],
        <String as FromJson>::spec_issues(Json::Number(n), at) == seq![mismatch_issue(at, "string"@, Json::Number(n))],
        <u64 as FromJson>::spec_issues(Json::Number(NumberModel::Float(text)), at)
            == seq![mismatch_issue(at, "u64"@, Json::Number(NumberModel::Float(text)))],
        <i64 as FromJson>::spec_issues(Json::Number(NumberModel::Float(text)), at)
            == seq![mismatch_issue(at, "i64"@, Json::Number(NumberModel::Float(text)))],
        <u64 as FromJson>::spec_issues(Json::Number(NumberModel::NegInt(neg)), at)
            == seq![mismatch_issue(at, "u64"@, Json::Number(NumberModel::NegInt(neg)))],
{
}

/// Paths render segment by segment: the text of a longer path is the text of
/// the shorter one followed by the text of the added segment.
pub proof fn law_path_renders_segment_by_segment(path: Seq<SegmentModel>, segment: SegmentModel)
    ensures
        render_path(Seq::empty()) == seq!['$'],
        render_path(path.push(segment)) == render_path(path) + render_segment(segment),
        render_path(path).len() >= 1 && render_path(path)[0] == '$',
    decreases path.len(),
{
    assert(path.push(segment).drop_last() =~= path);
    if path.len() > 0 {
        law_path_renders_segment_by_segment(path.drop_last(), path.last());
        assert(render_path(path) == render_path(path.drop_last()) + render_segment(path.last()));
    }
}

/// The rendered error shows the first hundred issues at most; a summary line
/// appears exactly when there are more, counting the hidden ones.
pub proof fn law_rendering_caps_at_one_hundred(target: Seq<char>, issues: Seq<IssueModel>)
    ensures
        render_decode_error(target, issues) == "failed to decode into "@ + target + ": "@ + decimal(issues.len()) + " "@
            + issue_noun(issues.len()) + render_issues(issues.take(shown_issue_count(issues.len()) as int))
            + render_hidden(issues.len()),
        shown_issue_count(issues.len()) == if issues.len() <= MAX_DISPLAYED_ISSUES { issues.len() } else { MAX_DISPLAYED_ISSUES as nat },
        render_hidden(issues.len()) == Seq::<char>::empty() <==> issues.len() <= MAX_DISPLAYED_ISSUES,
{
    if issues.len() > MAX_DISPLAYED_ISSUES {
        reveal_strlit("\n  \u{2026} and 1 more issue (not shown)");
        reveal_strlit("\n  \u{2026} and ");
        assert(render_hidden(issues.len()).len() > 0);
    }
}

/// The lines of two runs of issues, one after the other, are the lines of
/// the first run followed by those of the second.
proof fn lemma_render_issues_concat(a: Seq<IssueModel>, b: Seq<IssueModel>)
    ensures
        render_issues(a + b) == render_issues(a) + render_issues(b),
    decreases b.len(),
{
    if b.len() == 0 {
        assert(a + b =~= a);
        assert(render_issues(a) + Seq::<char>::empty() =~= render_issues(a));
    } else {
        lemma_render_issues_concat(a, b.drop_last());
        assert((a + b).drop_last() =~= a + b.drop_last());
        assert((a + b).last() == b.last());
        assert(render_issues(a) + render_issues(b.drop_last()) + render_issue(b.last())
            =~= render_issues(a) + (render_issues(b.drop_last()) + render_issue(b.last())));
    }
}

/// Every shown issue has its own line, in place: the rendered error is the
/// header, the lines of the issues before it, its line, the lines of the
/// shown issues after it, and the summary. Its line names its path and then
/// says what went wrong: the expectation and the found value for a mismatch,
/// the field (appended to the path, in dot notation when it is an identifier
/// and quoted otherwise) and its expectation for a missing field, and the
/// message verbatim for a custom issue.
pub proof fn law_each_shown_issue_renders_on_its_line(target: Seq<char>, issues: Seq<IssueModel>, i: int)
    requires
        0 <= i < shown_issue_count(issues.len()),
    ensures
        render_decode_error(target, issues) == "failed to decode into "@ + target + ": "@ + decimal(issues.len()) + " "@
            + issue_noun(issues.len()) + render_issues(issues.take(i)) + render_issue(issues[i])
            + render_issues(issues.subrange(i + 1, shown_issue_count(issues.len()) as int)) + render_hidden(issues.len()),
        render_issue(issues[i]) == "\n  at "@ + match issues[i].kind {
            IssueKindModel::Mismatch { expected, found } =>
                render_path(issues[i].path) + ": expected "@ + expected + ", found "@ + found,
            IssueKindModel::MissingField { field, expected } => render_path(issues[i].path) + (if is_identifier_key(field) {
                seq!['.'] + field
            } else {
                seq!['['] + debug_quoted(field) + seq![']']
            }) + ": missing required field (expected "@ + expected + ")"@,
            IssueKindModel::Custom { message } => render_path(issues[i].path) + ": "@ + message,
        },
{
    let n = shown_issue_count(issues.len()) as int;
    let before = issues.take(i);
    let after = issues.subrange(i + 1, n);
    assert(issues.take(n) =~= before + seq![issues[i]] + after);
    lemma_render_issues_concat(before + seq![issues[i]], after);
    lemma_render_issues_concat(before, seq![issues[i]]);
    let one = seq![issues[i]];
    assert(one.drop_last() =~= Seq::<IssueModel>::empty());
    assert(render_issues(Seq::<IssueModel>::empty()) == Seq::<char>::empty());
    assert(render_issues(one) == render_issues(one.drop_last()) + render_issue(one.last()));
    assert(render_issues(one) =~= render_issue(issues[i]));
    let head = "failed to decode into "@ + target + ": "@ + decimal(issues.len()) + " "@ + issue_noun(issues.len());
    assert(head + (render_issues(before) + render_issue(issues[i]) + render_issues(after)) + render_hidden(issues.len())
        =~= head + render_issues(before) + render_issue(issues[i]) + render_issues(after) + render_hidden(issues.len()));
}

/// In a parsed document the members of every object have distinct keys, so
/// decoding such an object into a string-keyed map gives one key per member.
pub proof fn law_parsed_objects_have_distinct_keys(entries: Seq<(Seq<char>, Json)>)
    requires
        parsed_document(Json::Object(entries)),
    ensures
        distinct_keys(entries, entries.len()),
{
    assert forall|a: int, b: int| 0 <= a < b < entries.len() implies (#[trigger] entries[a]).0 != (#[trigger] entries[b]).0 by {
        let x = entries[a].0;
        let y = entries[b].0;
        assert(text_before(x, y));
        let k = choose|k: int| #![trigger x.take(k), y.take(k)] 0 <= k <= x.len() && k <= y.len() && x.take(k) == y.take(k) && ((k < x.len() && k < y.len() && x[k] < y[k]) || (k == x.len() && k < y.len()));
        if x == y {
            assert(x.len() == y.len());
        }
    }
}

/// A found object of a parsed document is described by its smallest keys:
/// its first five keys (all of them when there are fewer), which come in
/// ascending order, then `, …` when there are more, and its member count.
pub proof fn law_found_objects_show_their_smallest_keys(entries: Seq<(Seq<char>, Json)>)
    requires
        parsed_document(Json::Object(entries)),
        entries.len() > 0,
    ensures
        describe(Json::Object(entries)) == "object with keys "@ + quoted_keys(
            entries.take(if entries.len() > 5 { 5 } else { entries.len() as int }),
        ) + (if entries.len() > 5 { ", \u{2026}"@ } else { Seq::<char>::empty() }) + " ("@ + decimal(entries.len()) + " total)"@,
        keys_ascending(entries),
{
    if entries.len() <= 5 {
        assert(entries.take(entries.len() as int) =~= entries);
        assert(quoted_keys(entries) + Seq::<char>::empty() =~= quoted_keys(entries));
    }
}

/// Found strings show at most forty characters: a longer string shows its
/// first forty characters and an ellipsis, a shorter one shows in full.
pub proof fn law_found_strings_are_shortened(s: Seq<char>)
    ensures
        s.len() <= 40 ==> shown_string(s) == s,
        s.len() > 40 ==> shown_string(s).len() == 41 && shown_string(s).take(40) == s.take(40)
            && shown_string(s)[40] == '\u{2026}',
{
    if s.len() > 40 {
        assert(shown_string(s).take(40) =~= s.take(40));
    }
}

/// Unknown members are ignored: adding a member under another name, anywhere
/// in an object, changes nothing about the member a field decodes from.
pub proof fn law_other_members_are_ignored(entries: Seq<(Seq<char>, Json)>, pos: int, other: (Seq<char>, Json), name: Seq<char>)
    requires
        0 <= pos <= entries.len(),
        other.0 != name,
    ensures
        member_value(entries.insert(pos, other), name) == member_value(entries, name),
{
    let bigger = entries.insert(pos, other);
    if exists|i: int| is_first_member(entries, name, i) {
        let i = choose|i: int| is_first_member(entries, name, i);
        let j = if i < pos { i } else { i + 1 };
        assert(bigger[j] == entries[i]);
        assert forall|k: int| 0 <= k < j implies (#[trigger] bigger[k]).0 != name by {
            if k < pos {
                assert(bigger[k] == entries[k]);
            } else if k > pos {
                assert(bigger[k] == entries[k - 1]);
            }
        }
        assert(is_first_member(bigger, name, j));
        let j2 = choose|j2: int| is_first_member(bigger, name, j2);
        assert(j2 == j) by {
            if j2 < j {
                assert(bigger[j2].0 != name);
            } else if j2 > j {
                assert(bigger[j].0 == name);
            }
        }
    } else {
        assert forall|j: int| !is_first_member(bigger, name, j) by {
            if 0 <= j < bigger.len() && bigger[j].0 == name {
                if j < pos {
                    assert(bigger[j] == entries[j]);
                    lemma_first_member_exists(entries, name, j);
                } else if j > pos {
                    assert(bigger[j] == entries[j - 1]);
                    lemma_first_member_exists(entries, name, j - 1);
                }
            }
        }
    }
}

/// A field of an optional type is `None` both when the object lacks the
/// member and when the member is `null`, and neither records an issue; a
/// required field that is absent records exactly one missing-field issue at
/// the object's path.
pub proof fn law_absent_or_null_optional_field_is_none<T: FromJson>(entries: Seq<(Seq<char>, Json)>, name: Seq<char>, at: Seq<SegmentModel>)
    requires
        member_value(entries, name) is None || member_value(entries, name) == Some(Json::Null),
    ensures
        optional_field_issues::<Option<T>>(entries, name, at).len() == 0,
        member_value(entries, name) is None ==> field_issues::<T>(entries, name, at)
            == seq![IssueModel { path: at, kind: IssueKindModel::MissingField { field: name, expected: T::spec_expected() } }],
{
}

/// Decoding an element or a member pops exactly the segment it pushed: when
/// the inner decoding leaves the path as it found it, the path afterwards is
/// the path before.
pub proof fn law_scoped_segment_is_popped(before: ContextModel, segment: SegmentModel, inner: Seq<SegmentModel>)
    requires
        inner == entered(before, segment).path,
    ensures
        left(inner) == before.path,
{
    assert(before.path.push(segment).drop_last() =~= before.path);
}

/// Recording an issue adds exactly one issue, at the end, at the current
/// path, and leaves every earlier issue and the path as they were.
pub proof fn law_recording_keeps_earlier_issues(cx: ContextModel, kind: IssueKindModel)
    ensures
        recorded(cx, kind).path == cx.path,
        recorded(cx, kind).issues.len() == cx.issues.len() + 1,
        recorded(cx, kind).issues.take(cx.issues.len() as int) == cx.issues,
        recorded(cx, kind).issues.last() == (IssueModel { path: cx.path, kind }),
{
    assert(recorded(cx, kind).issues.take(cx.issues.len() as int) =~= cx.issues);
}

/// A member named `name` at `k` means there is a first such member.
proof fn lemma_first_member_exists(entries: Seq<(Seq<char>, Json)>, name: Seq<char>, k: int)
    requires
        0 <= k < entries.len(),
        entries[k].0 == name,
    ensures
        exists|i: int| is_first_member(entries, name, i),
    decreases k,
{
    if exists|j: int| 0 <= j < k && (#[trigger] entries[j]).0 == name {
        let j = choose|j: int| 0 <= j < k && (#[trigger] entries[j]).0 == name;
        lemma_first_member_exists(entries, name, j);
    } else {
        assert(is_first_member(entries, name, k));
    }
}

/// Unsigned integers decode exactly the JSON integers in their range: a value
/// whose integer `n` is at most the type's maximum decodes to `n`, and every
/// other value (another integer, a negative or fractional number, or no
/// number at all) is refused.
pub proof fn law_unsigned_integers_decode_their_whole_range(
    j: Json,
    r8: Result<u8, Error>,
    r16: Result<u16, Error>,
    r32: Result<u32, Error>,
    rsize: Result<usize, Error>,
    r64: Result<u64, Error>,
)
    requires
        decode_outcome::<u8>(j, r8),
        decode_outcome::<u16>(j, r16),
        decode_outcome::<u32>(j, r32),
        decode_outcome::<usize>(j, rsize),
        decode_outcome::<u64>(j, r64),
    ensures
        r8 is Ok <==> (json_as_u64(j) matches Some(n) && n <= 255),
        r16 is Ok <==> (json_as_u64(j) matches Some(n) && n <= 65535),
        r32 is Ok <==> (json_as_u64(j) matches Some(n) && n <= 4294967295),
        rsize is Ok <==> (json_as_u64(j) matches Some(n) && n <= usize::MAX),
        r64 is Ok <==> json_as_u64(j) is Some,
        r8 matches Ok(v) ==> json_as_u64(j) == Some(v as u64),
        r16 matches Ok(v) ==> json_as_u64(j) == Some(v as u64),
        r32 matches Ok(v) ==> json_as_u64(j) == Some(v as u64),
        rsize matches Ok(v) ==> json_as_u64(j) == Some(v as u64),
        r64 matches Ok(v) ==> json_as_u64(j) == Some(v),
{
}

/// Signed integers decode exactly the JSON integers in their range: a value
/// whose integer `n` lies between the type's minimum and maximum decodes to
/// `n`, and every other value is refused.
pub proof fn law_signed_integers_decode_their_whole_range(
    j: Json,
    r8: Result<i8, Error>,
    r16: Result<i16, Error>,
    r32: Result<i32, Error>,
    rsize: Result<isize, Error>,
    r64: Result<i64, Error>,
)
    requires
        decode_outcome::<i8>(j, r8),
        decode_outcome::<i16>(j, r16),
        decode_outcome::<i32>(j, r32),
        decode_outcome::<isize>(j, rsize),
        decode_outcome::<i64>(j, r64),
    ensures
        r8 is Ok <==> (json_as_i64(j) matches Some(n) && -128 <= n <= 127),
        r16 is Ok <==> (json_as_i64(j) matches Some(n) && -32768 <= n <= 32767),
        r32 is Ok <==> (json_as_i64(j) matches Some(n) && -2147483648 <= n <= 2147483647),
        rsize is Ok <==> (json_as_i64(j) matches Some(n) && isize::MIN <= n <= isize::MAX),
        r64 is Ok <==> json_as_i64(j) is Some,
        r8 matches Ok(v) ==> json_as_i64(j) == Some(v as i64),
        r16 matches Ok(v) ==> json_as_i64(j) == Some(v as i64),
        r32 matches Ok(v) ==> json_as_i64(j) == Some(v as i64),
        rsize matches Ok(v) ==> json_as_i64(j) == Some(v as i64),
        r64 matches Ok(v) ==> json_as_i64(j) == Some(v),
{
}

/// A JSON string decodes into a `String` holding exactly its characters,
/// whatever its length; any other value is refused.
pub proof fn law_strings_decode_to_all_their_characters(j: Json, r: Result<String, Error>)
    requires
        decode_outcome::<String>(j, r),
    ensures
        r is Ok <==> j is String,
        j matches Json::String(s) ==> (r matches Ok(out) && out@ == s),
{
}

/// A JSON boolean decodes into `bool` as itself; any other value is refused.
pub proof fn law_booleans_decode_as_themselves(j: Json, r: Result<bool, Error>)
    requires
        decode_outcome::<bool>(j, r),
    ensures
        r is Ok <==> j is Bool,
        j matches Json::Bool(b) ==> r == Ok::<bool, Error>(b),
{
}

/// How many characters of `s` are not underscores.
pub open spec fn letter_count(s: Seq<char>) -> nat
    decreases s.len(),
{
    if s.len() == 0 {
        0
    } else {
        letter_count(s.drop_last()) + if s.last() == '_' { 0nat } else { 1nat }
    }
}

proof fn lemma_letter_count_prefix(s: Seq<char>, i: int)
    requires
        0 <= i < s.len(),
        s[i] != '_',
    ensures
        letter_count(s.take(i)) < letter_count(s),
    decreases s.len(),
{
    let t = s.drop_last();
    if i == s.len() - 1 {
        assert(s.take(i) =~= t);
    } else {
        assert(s.take(i) =~= t.take(i));
        lemma_letter_count_prefix(t, i);
    }
}

/// The character that stands for `s[i]` in the `PascalCase` form of `s`.
pub open spec fn raised_at(s: Seq<char>, i: int) -> char {
    if i == 0 || s[i - 1] == '_' { ascii_upper(s[i]) } else { s[i] }
}

proof fn lemma_pascal_places(s: Seq<char>)
    ensures
        pascal_of_field(s).len() == letter_count(s),
        forall|i: int| 0 <= i < s.len() && s[i] != '_' ==> #[trigger] pascal_of_field(s)[letter_count(s.take(i)) as int] == raised_at(s, i),
    decreases s.len(),
{
    if s.len() > 0 {
        let t = s.drop_last();
        lemma_pascal_places(t);
        assert forall|i: int| 0 <= i < s.len() && s[i] != '_' implies #[trigger] pascal_of_field(s)[letter_count(s.take(i)) as int] == raised_at(s, i) by {
            if i == s.len() - 1 {
                assert(s.take(i) =~= t);
            } else {
                assert(s.take(i) =~= t.take(i));
                lemma_letter_count_prefix(t, i);
                assert(t[i] == s[i]);
                if i > 0 {
                    assert(t[i - 1] == s[i - 1]);
                }
                assert(raised_at(t, i) == raised_at(s, i));
                assert(pascal_of_field(t)[letter_count(t.take(i)) as int] == raised_at(t, i));
            }
        }
    }
}

/// `PascalCase` and `camelCase` fields drop every underscore and raise the
/// character after each one (and the first character): the character at
/// position `i` of the field, when it is not an underscore, lands at the
/// position given by the number of non-underscore characters before it,
/// raised to ASCII uppercase when it starts the field or follows an
/// underscore, and kept otherwise. `camelCase` then lowers the very first
/// character of the result.
pub proof fn law_pascal_and_camel_raise_every_word(field: Seq<char>)
    ensures
        field_name(RenameRule::PascalCase, field).len() == letter_count(field),
        field_name(RenameRule::CamelCase, field).len() == letter_count(field),
        forall|i: int| 0 <= i < field.len() && field[i] != '_' ==>
            #[trigger] field_name(RenameRule::PascalCase, field)[letter_count(field.take(i)) as int] == raised_at(field, i),
        forall|i: int| 0 <= i < field.len() && field[i] != '_' ==>
            #[trigger] field_name(RenameRule::CamelCase, field)[letter_count(field.take(i)) as int] == if letter_count(field.take(i)) == 0 {
                ascii_lower(raised_at(field, i))
            } else {
                raised_at(field, i)
            },
{
    lemma_pascal_places(field);
    let p = pascal_of_field(field);
    assert forall|i: int| 0 <= i < field.len() && field[i] != '_' implies
        #[trigger] field_name(RenameRule::CamelCase, field)[letter_count(field.take(i)) as int] == if letter_count(field.take(i)) == 0 {
            ascii_lower(raised_at(field, i))
        } else {
            raised_at(field, i)
        } by {
        lemma_letter_count_prefix(field, i);
        assert(p[letter_count(field.take(i)) as int] == raised_at(field, i));
    }
}

/// A key segment shows its key unchanged: extending a path by an
/// identifier-like key appends `.` and the key's own characters, by any
/// other key appends the key debug-quoted in brackets, and by an index
/// appends its decimal numeral in brackets.
pub proof fn law_key_segments_show_their_key(path: Seq<SegmentModel>, key: Seq<char>, index: usize)
    ensures
        is_identifier_key(key) ==> render_path(path.push(SegmentModel::Key(key))) == render_path(path) + seq!['.'] + key,
        !is_identifier_key(key) ==> render_path(path.push(SegmentModel::Key(key))) == render_path(path) + seq!['['] + debug_quoted(key) + seq![']'],
        render_path(path.push(SegmentModel::Index(index))) == render_path(path) + seq!['['] + decimal(index as nat) + seq![']'],
{
    assert(path.push(SegmentModel::Key(key)).drop_last() =~= path);
    assert(path.push(SegmentModel::Index(index)).drop_last() =~= path);
    assert(render_path(path) + (seq!['.'] + key) =~= render_path(path) + seq!['.'] + key);
    assert(render_path(path) + (seq!['['] + debug_quoted(key) + seq![']']) =~= render_path(path) + seq!['['] + debug_quoted(key) + seq![']']);
    assert(render_path(path) + (seq!['['] + decimal(index as nat) + seq![']']) =~= render_path(path) + seq!['['] + decimal(index as nat) + seq![']']);
}

/// The expectation of a unit enum lists its variants in order: one name is
/// shown alone, and adding a name to a nonempty list appends ` | ` and that
/// name debug-quoted.
pub proof fn law_variant_alternatives_grow_by_one(names: Seq<Seq<char>>, name: Seq<char>)
    ensures
        quoted_alternatives(seq![name]) == debug_quoted(name),
        names.len() > 0 ==> quoted_alternatives(names.push(name)) == quoted_alternatives(names) + " | "@ + debug_quoted(name),
{
    assert(names.push(name).drop_last() =~= names);
}

/// Every variant's debug-quoted name occurs in the expectation of a unit
/// enum.
pub proof fn law_every_variant_is_named(names: Seq<Seq<char>>, i: int)
    requires
        0 <= i < names.len(),
    ensures
        exists|k: int|
            0 <= k && k + debug_quoted(names[i]).len() <= one_of_text(names).len()
                && #[trigger] one_of_text(names).subrange(k, k + debug_quoted(names[i]).len()) == debug_quoted(names[i]),
{
    lemma_alternative_occurs(names, i);
    let q = debug_quoted(names[i]);
    let alts = quoted_alternatives(names);
    let k = choose|k: int| 0 <= k && k + q.len() <= alts.len() && #[trigger] alts.subrange(k, k + q.len()) == q;
    let pre = "one of "@;
    let whole = one_of_text(names);
    assert(whole == pre + alts);
    let k2: int = pre.len() as int + k;
    assert(whole.subrange(k2, k2 + q.len()) =~= alts.subrange(k, k + q.len()));
}

proof fn lemma_alternative_occurs(names: Seq<Seq<char>>, i: int)
    requires
        0 <= i < names.len(),
    ensures
        exists|k: int|
            0 <= k && k + debug_quoted(names[i]).len() <= quoted_alternatives(names).len()
                && #[trigger] quoted_alternatives(names).subrange(k, k + debug_quoted(names[i]).len()) == debug_quoted(names[i]),
    decreases names.len(),
{
    let q = debug_quoted(names[i]);
    let alts = quoted_alternatives(names);
    if names.len() == 1 {
        assert(i == 0);
        assert(alts == q);
        assert(alts.subrange(0, q.len() as int) =~= q);
        assert(quoted_alternatives(names).subrange(0, 0 + debug_quoted(names[i]).len() as int) == debug_quoted(names[i]));
    } else {
        let rest = names.drop_last();
        let head = quoted_alternatives(rest);
        assert(alts == head + " | "@ + debug_quoted(names.last()));
        if i == names.len() - 1 {
            let k: int = (head.len() + " | "@.len()) as int;
            assert(alts.subrange(k, k + q.len()) =~= q);
            assert(quoted_alternatives(names).subrange(k, k + debug_quoted(names[i]).len()) == debug_quoted(names[i]));
        } else {
            lemma_alternative_occurs(rest, i);
            assert(rest[i] == names[i]);
            let k = choose|k: int| 0 <= k && k + q.len() <= head.len() && #[trigger] head.subrange(k, k + q.len()) == q;
            assert(alts.subrange(k, k + q.len()) =~= head.subrange(k, k + q.len()));
            assert(quoted_alternatives(names).subrange(k, k + debug_quoted(names[i]).len()) == debug_quoted(names[i]));
        }
    }
}

} // verus!
