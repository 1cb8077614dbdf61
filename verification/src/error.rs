//! Issues, the decoding error, and how both render as text.

use vstd::prelude::*;
use vstd::string::*;

use crate::json::{lemma_object_model, Json, JsonNumber, JsonValue, NumberModel};
use crate::path::{render_key, render_path, write_key, Path, SegmentModel};
use crate::text::{debug_quoted, decimal, push_char, push_decimal, push_signed_decimal, quote_debug, signed_decimal};

verus! {

/// At most this many issues are rendered by [`Error::to_string`].
pub const MAX_DISPLAYED_ISSUES: usize = 100;

/// The kind of problem an [`Issue`] describes.
#[derive(Debug, PartialEq, Eq)]
pub enum IssueKind {
    /// The value at the path did not have the expected shape.
    Mismatch {
        /// What the target type expected, e.g. `u64`.
        expected: String,
        /// A description of the value actually found, e.g. `string "abc"`.
        found: String,
    },
    /// A required object field was absent.
    MissingField {
        /// The name of the missing field.
        field: String,
        /// What the field's type expected.
        expected: String,
    },
    /// A free-form issue recorded via [`crate::Context::custom`].
    Custom {
        /// The message, verbatim.
        message: String,
    },
}

/// An issue kind as the mathematical model sees it.
pub enum IssueKindModel {
    Mismatch { expected: Seq<char>, found: Seq<char> },
    MissingField { field: Seq<char>, expected: Seq<char> },
    Custom { message: Seq<char> },
}

impl View for IssueKind {
    type V = IssueKindModel;

    open spec fn view(&self) -> IssueKindModel {
        match self {
            IssueKind::Mismatch { expected, found } => IssueKindModel::Mismatch { expected: expected@, found: found@ },
            IssueKind::MissingField { field, expected } => IssueKindModel::MissingField { field: field@, expected: expected@ },
            IssueKind::Custom { message } => IssueKindModel::Custom { message: message@ },
        }
    }
}

impl Clone for IssueKind {
    fn clone(&self) -> (r: Self)
        ensures
            r == *self,
    {
        match self {
            IssueKind::Mismatch { expected, found } => IssueKind::Mismatch { expected: expected.clone(), found: found.clone() },
            IssueKind::MissingField { field, expected } => IssueKind::MissingField { field: field.clone(), expected: expected.clone() },
            IssueKind::Custom { message } => IssueKind::Custom { message: message.clone() },
        }
    }
}

/// One problem found while decoding.
#[derive(Debug, PartialEq, Eq)]
pub struct Issue {
    /// Where in the JSON document the problem was found.
    pub path: Path,
    /// What went wrong.
    pub kind: IssueKind,
}

/// An issue as the mathematical model sees it.
pub struct IssueModel {
    pub path: Seq<SegmentModel>,
    pub kind: IssueKindModel,
}

impl View for Issue {
    type V = IssueModel;

    open spec fn view(&self) -> IssueModel {
        IssueModel { path: self.path@, kind: self.kind@ }
    }
}

impl Clone for Issue {
    fn clone(&self) -> (r: Self)
        ensures
            r@ == self@,
    {
        Issue { path: self.path.clone(), kind: self.kind.clone() }
    }
}

/// The models of a list of issues.
pub open spec fn issues_model(issues: Seq<Issue>) -> Seq<IssueModel> {
    issues.map_values(|i: Issue| i@)
}

/// The issue recorded for a value of the wrong shape.
pub open spec fn mismatch_issue(at: Seq<SegmentModel>, expected: Seq<char>, found: Json) -> IssueModel {
    IssueModel { path: at, kind: IssueKindModel::Mismatch { expected, found: describe(found) } }
}

/// How a boolean renders.
pub open spec fn bool_text(b: bool) -> Seq<char> {
    if b { "true"@ } else { "false"@ }
}

/// How a number renders: integers in decimal, other numbers with the text
/// the parser kept.
pub open spec fn number_text(n: NumberModel) -> Seq<char> {
    match n {
        NumberModel::PosInt(u) => decimal(u as nat),
        NumberModel::NegInt(i) => signed_decimal(i as int),
        NumberModel::Float(t) => t,
    }
}

/// Found strings longer than this many characters are shortened.
pub open spec fn found_string_limit() -> nat {
    40
}

/// The string shown for a found string: the first forty characters and an
/// ellipsis when it is longer than forty characters, the whole string
/// otherwise.
pub open spec fn shown_string(s: Seq<char>) -> Seq<char> {
    if s.len() > found_string_limit() {
        s.take(found_string_limit() as int).push('\u{2026}')
    } else {
        s
    }
}

/// The debug-quoted keys of some object members, separated by `, `.
pub open spec fn quoted_keys(entries: Seq<(Seq<char>, Json)>) -> Seq<char>
    decreases entries.len(),
{
    if entries.len() == 0 {
        Seq::empty()
    } else if entries.len() == 1 {
        debug_quoted(entries[0].0)
    } else {
        quoted_keys(entries.drop_last()) + ", "@ + debug_quoted(entries.last().0)
    }
}

/// The key list of a found object: its first five keys, then `, …` when there
/// are more.
pub open spec fn shown_keys(entries: Seq<(Seq<char>, Json)>) -> Seq<char> {
    if entries.len() > 5 {
        quoted_keys(entries.take(5)) + ", \u{2026}"@
    } else {
        quoted_keys(entries)
    }
}

/// The `found` description of a JSON value.
pub open spec fn describe(v: Json) -> Seq<char> {
    match v {
        Json::Null => "null"@,
        Json::Bool(b) => "boolean "@ + bool_text(b),
        Json::Number(n) => "number "@ + number_text(n),
        Json::String(s) => "string "@ + debug_quoted(shown_string(s)),
        Json::Array(items) => "array (len "@ + decimal(items.len()) + ")"@,
        Json::Object(entries) => if entries.len() == 0 {
            "object (empty)"@
        } else {
            "object with keys "@ + shown_keys(entries) + " ("@ + decimal(entries.len()) + " total)"@
        },
    }
}

/// Appends the decimal text of a number to `out`.
fn write_number(out: &mut String, n: &JsonNumber)
    ensures
        final(out)@ == old(out)@ + number_text(n@),
{
    match n {
        JsonNumber::PosInt(u) => push_decimal(out, *u),
        JsonNumber::NegInt(i) => push_signed_decimal(out, *i),
        JsonNumber::Float(t) => out.append(t.as_str()),
    }
}

/// Builds the `found` description for a JSON value.
pub fn describe_value(value: &JsonValue) -> (r: String)
    ensures
        r@ == describe(value@),
{
    match value {
        JsonValue::Null => String::from_str("null"),
        JsonValue::Bool(b) => {
            let mut out = String::from_str("boolean ");
            if *b {
                out.append("true");
            } else {
                out.append("false");
            }
            out
        }
        JsonValue::Number(n) => {
            let mut out = String::from_str("number ");
            write_number(&mut out, n);
            out
        }
        JsonValue::String(s) => {
            let text = s.as_str();
            let count = text.unicode_len();
            let mut shown = String::new();
            if count > 40 {
                shown.append(text.substring_char(0, 40));
                push_char(&mut shown, '\u{2026}');
                assert(shown@ == s@.take(40).push('\u{2026}'));
            } else {
                shown.append(text);
                assert(shown@ == s@);
            }
            let mut out = String::from_str("string ");
            let quoted = quote_debug(shown.as_str());
            out.append(quoted.as_str());
            out
        }
        JsonValue::Array(items) => {
            proof { crate::json::lemma_array_model(*items); }
            let mut out = String::from_str("array (len ");
            push_decimal(&mut out, items.len() as u64);
            out.append(")");
            out
        }
        JsonValue::Object(entries) => {
            proof { lemma_object_model(*entries); }
            let ghost ms = value@->Object_0;
            if entries.len() == 0 {
                String::from_str("object (empty)")
            } else {
                let mut out = String::from_str("object with keys ");
                let shown: usize = if entries.len() > 5 { 5 } else { entries.len() };
                let mut i: usize = 0;
                let ghost start = out@;
                while i < shown
                    invariant
                        i <= shown <= entries@.len(),
                        shown == (if entries@.len() > 5 { 5 } else { entries@.len() }),
                        ms.len() == entries@.len(),
                        forall|j: int| 0 <= j < entries@.len() ==> #[trigger] ms[j] == (entries@[j].0@, entries@[j].1@),
                        out@ == start + quoted_keys(ms.take(i as int)),
                    decreases shown - i,
                {
                    if i > 0 {
                        out.append(", ");
                    }
                    let quoted = quote_debug(entries[i].0.as_str());
                    out.append(quoted.as_str());
                    proof {
                        let t = ms.take(i + 1);
                        assert(t.drop_last() =~= ms.take(i as int));
                        assert(t.last() == ms[i as int]);
                        if i == 0 {
                            assert(t.len() == 1);
                            assert(ms.take(0) =~= Seq::<(Seq<char>, Json)>::empty());
                            assert(quoted_keys(ms.take(0)) == Seq::<char>::empty());
                            assert(start + Seq::<char>::empty() == start);
                        }
                    }
                    i = i + 1;
                }
                if entries.len() > 5 {
                    out.append(", \u{2026}");
                } else {
                    assert(ms.take(shown as int) =~= ms);
                }
                out.append(" (");
                push_decimal(&mut out, entries.len() as u64);
                out.append(" total)");
                out
            }
        }
    }
}

/// The error as the mathematical model sees it.
pub enum ErrorModel {
    /// The input was not valid JSON; the parser's message.
    Syntax { message: Seq<char> },
    /// The input was JSON but did not decode into the target.
    Decode { target: Seq<char>, issues: Seq<IssueModel> },
}

/// A decoding or JSON-syntax error.
///
/// [`Error::to_string`] renders one header line and up to the first 100
/// indented issue lines. [`Error::issues`] always contains the full list:
///
/// ```text
/// failed to decode into array of u64: 2 issues
///   at $[0]: expected u64, found string "1500"
///   at $[2]: expected u64, found null
/// ```
#[derive(Debug)]
pub struct Error {
    repr: Repr,
}

#[derive(Debug)]
enum Repr {
    Syntax(String),
    Decode { target: String, issues: Vec<Issue> },
}

impl View for Error {
    type V = ErrorModel;

    closed spec fn view(&self) -> ErrorModel {
        match self.repr {
            Repr::Syntax(message) => ErrorModel::Syntax { message: message@ },
            Repr::Decode { target, issues } => ErrorModel::Decode { target: target@, issues: issues_model(issues@) },
        }
    }
}

/// `issue` or `issues`, as the count requires.
pub open spec fn issue_noun(count: nat) -> Seq<char> {
    if count == 1 { "issue"@ } else { "issues"@ }
}

/// The line that renders one issue, with its leading line break.
pub open spec fn render_issue(issue: IssueModel) -> Seq<char> {
    "\n  at "@ + match issue.kind {
        IssueKindModel::Mismatch { expected, found } =>
            render_path(issue.path) + ": expected "@ + expected + ", found "@ + found,
        IssueKindModel::MissingField { field, expected } =>
            render_path(issue.path) + render_key(field) + ": missing required field (expected "@ + expected + ")"@,
        IssueKindModel::Custom { message } => render_path(issue.path) + ": "@ + message,
    }
}

/// The lines of the given issues, in order.
pub open spec fn render_issues(issues: Seq<IssueModel>) -> Seq<char>
    decreases issues.len(),
{
    if issues.len() == 0 {
        Seq::empty()
    } else {
        render_issues(issues.drop_last()) + render_issue(issues.last())
    }
}

/// The summary line for issues beyond the first hundred, if there are any.
pub open spec fn render_hidden(count: nat) -> Seq<char> {
    if count <= MAX_DISPLAYED_ISSUES {
        Seq::empty()
    } else if count - MAX_DISPLAYED_ISSUES == 1 {
        "\n  \u{2026} and 1 more issue (not shown)"@
    } else {
        "\n  \u{2026} and "@ + decimal((count - MAX_DISPLAYED_ISSUES) as nat) + " more issues (not shown)"@
    }
}

/// How many issues are rendered out of `count`.
pub open spec fn shown_issue_count(count: nat) -> nat {
    if count > MAX_DISPLAYED_ISSUES { MAX_DISPLAYED_ISSUES as nat } else { count }
}

/// How a decoding error renders: a header naming the target and the number of
/// issues, a line for each of the first hundred issues, and a summary of the
/// rest.
pub open spec fn render_decode_error(target: Seq<char>, issues: Seq<IssueModel>) -> Seq<char> {
    "failed to decode into "@ + target + ": "@ + decimal(issues.len()) + " "@ + issue_noun(issues.len())
        + render_issues(issues.take(shown_issue_count(issues.len()) as int)) + render_hidden(issues.len())
}

/// Appends the line of one issue to `out`.
fn write_issue(out: &mut String, issue: &Issue)
    ensures
        final(out)@ == old(out)@ + render_issue(issue@),
{
    out.append("\n  at ");
    let path = issue.path.to_string();
    out.append(path.as_str());
    match &issue.kind {
        IssueKind::Mismatch { expected, found } => {
            out.append(": expected ");
            out.append(expected.as_str());
            out.append(", found ");
            out.append(found.as_str());
        }
        IssueKind::MissingField { field, expected } => {
            write_key(out, field.as_str());
            out.append(": missing required field (expected ");
            out.append(expected.as_str());
            out.append(")");
        }
        IssueKind::Custom { message } => {
            out.append(": ");
            out.append(message.as_str());
        }
    }
}

impl Error {
    /// A syntax error with the parser's message: the input was not valid JSON.
    pub fn syntax(message: String) -> (r: Error)
        ensures
            r@ == (ErrorModel::Syntax { message: message@ }),
    {
        Error { repr: Repr::Syntax(message) }
    }

    /// A decoding error for `target` with the issues found.
    pub fn decode(target: String, issues: Vec<Issue>) -> (r: Error)
        ensures
            r@ == (ErrorModel::Decode { target: target@, issues: issues_model(issues@) }),
    {
        Error { repr: Repr::Decode { target, issues } }
    }

    /// Every issue found while decoding, in traversal order: array elements
    /// in index order, object members in the order the parsed document holds
    /// them (sorted by key, as `serde_json` hands them over), derived structs
    /// in field order. Empty for syntax errors.
    pub fn issues(&self) -> (r: &[Issue])
        ensures
            self@ matches ErrorModel::Decode { issues, .. } ==> issues_model(r@) == issues,
            self@ is Syntax ==> r@.len() == 0,
    {
        match &self.repr {
            Repr::Syntax(_) => {
                let empty: &[Issue] = &[];
                assert(empty@.len() == 0);
                empty
            }
            Repr::Decode { issues, .. } => issues.as_slice(),
        }
    }

    /// Whether the input was not valid JSON at all.
    pub fn is_syntax(&self) -> (r: bool)
        ensures
            r == (self@ is Syntax),
    {
        match &self.repr {
            Repr::Syntax(_) => true,
            Repr::Decode { .. } => false,
        }
    }

    /// The error as text: for a decoding error, a header and the issue lines
    /// (at most a hundred, then a summary); for a syntax error, the parser's
    /// message after `failed to parse JSON: `.
    pub fn to_string(&self) -> (r: String)
        ensures
            self@ matches ErrorModel::Decode { target, issues } ==> r@ == render_decode_error(target, issues),
            self@ matches ErrorModel::Syntax { message } ==> r@ == "failed to parse JSON: "@ + message,
    {
        match &self.repr {
            Repr::Syntax(message) => {
                let mut out = String::from_str("failed to parse JSON: ");
                out.append(message.as_str());
                out
            }
            Repr::Decode { target, issues } => {
                let ghost ms = issues_model(issues@);
                let count = issues.len();
                let mut out = String::from_str("failed to decode into ");
                out.append(target.as_str());
                out.append(": ");
                push_decimal(&mut out, count as u64);
                if count == 1 {
                    out.append(" issue");
                } else {
                    out.append(" issues");
                }
                let ghost header = out@;
                assert(header == "failed to decode into "@ + target@ + ": "@ + decimal(count as nat) + " "@ + issue_noun(count as nat)) by {
                    reveal_strlit(" issue");
                    reveal_strlit(" issues");
                    reveal_strlit(" ");
                    reveal_strlit("issue");
                    reveal_strlit("issues");
                    assert(" issue"@ =~= " "@ + "issue"@);
                    assert(" issues"@ =~= " "@ + "issues"@);
                }
                let shown: usize = if count > MAX_DISPLAYED_ISSUES { MAX_DISPLAYED_ISSUES } else { count };
                let mut i: usize = 0;
                while i < shown
                    invariant
                        i <= shown <= issues@.len(),
                        ms == issues_model(issues@),
                        out@ == header + render_issues(ms.take(i as int)),
                    decreases shown - i,
                {
                    write_issue(&mut out, &issues[i]);
                    proof {
                        assert(ms.take(i + 1).drop_last() =~= ms.take(i as int));
                        assert(ms.take(i + 1).last() == issues@[i as int]@);
                    }
                    i = i + 1;
                }
                if count > MAX_DISPLAYED_ISSUES {
                    let hidden = count - MAX_DISPLAYED_ISSUES;
                    if hidden == 1 {
                        out.append("\n  \u{2026} and 1 more issue (not shown)");
                    } else {
                        out.append("\n  \u{2026} and ");
                        push_decimal(&mut out, hidden as u64);
                        out.append(" more issues (not shown)");
                    }
                }
                out
            }
        }
    }
}

} // verus!
