//! The decoding context: the current JSON path and the issues recorded so far.

use vstd::prelude::*;
use vstd::string::*;

use crate::error::{describe, describe_value, issues_model, Issue, IssueKind, IssueKindModel, IssueModel};
use crate::json::JsonValue;
use crate::path::{clone_segments, segments_model, Path, Segment, SegmentModel};

verus! {

/// Decoding state: the current JSON path and every issue recorded so far.
///
/// Entry points ([`crate::from_value`] and friends) build the context;
/// [`crate::FromJson`] implementations only use the methods below.
pub struct Context {
    path: Vec<Segment>,
    issues: Vec<Issue>,
}

/// A context as the mathematical model sees it.
pub struct ContextModel {
    /// The path from the document root to the value being decoded.
    pub path: Seq<SegmentModel>,
    /// Every issue recorded so far, oldest first.
    pub issues: Seq<IssueModel>,
}

impl View for Context {
    type V = ContextModel;

    closed spec fn view(&self) -> ContextModel {
        ContextModel { path: segments_model(self.path@), issues: issues_model(self.issues@) }
    }
}

/// The context `cx` with one more segment on its path.
pub open spec fn entered(cx: ContextModel, segment: SegmentModel) -> ContextModel {
    ContextModel { path: cx.path.push(segment), issues: cx.issues }
}

/// The path after a scoped call: the last segment removed (an empty path
/// stays empty).
pub open spec fn left(path: Seq<SegmentModel>) -> Seq<SegmentModel> {
    if path.len() > 0 { path.drop_last() } else { path }
}

/// The context `cx` with one more issue recorded at its current path.
pub open spec fn recorded(cx: ContextModel, kind: IssueKindModel) -> ContextModel {
    ContextModel { path: cx.path, issues: cx.issues.push(IssueModel { path: cx.path, kind }) }
}

impl Context {
    /// An empty context: the path is the document root and no issue has been
    /// recorded.
    pub fn new() -> (r: Context)
        ensures
            r@.path == Seq::<SegmentModel>::empty(),
            r@.issues == Seq::<IssueModel>::empty(),
    {
        let r = Context { path: Vec::new(), issues: Vec::new() };
        assert(r@.path =~= Seq::<SegmentModel>::empty());
        assert(r@.issues =~= Seq::<IssueModel>::empty());
        r
    }

    /// Runs `f` with the object key `key` pushed onto the current path, and
    /// pops it again afterwards.
    ///
    /// `f` runs on the context with `key` appended to the path; the issues it
    /// leaves are the issues afterwards, and the path afterwards is the path
    /// before the call, whatever path `f` leaves. If `f` panics, the path is
    /// not restored: `key` stays on it.
    pub fn with_key<T>(&mut self, key: &str, f: impl FnOnce(&mut Context) -> T) -> (r: T)
        requires
            forall|c: &mut Context| (*c)@ == entered(old(self)@, SegmentModel::Key(key@)) ==> #[trigger] f.requires((c,)),
        ensures
            exists|c: &mut Context|
                (*c)@ == entered(old(self)@, SegmentModel::Key(key@))
                && #[trigger] f.ensures((c,), r)
                && final(self)@.issues == final(c)@.issues
                && final(self)@.path == old(self)@.path,
    {
        let segment = Segment::Key(String::from_str(key));
        self.with_segment(segment, f)
    }

    /// Runs `f` with the array index `index` pushed onto the current path, and
    /// pops it again afterwards.
    ///
    /// `f` runs on the context with `index` appended to the path; the issues
    /// it leaves are the issues afterwards, and the path afterwards is the path
    /// before the call, whatever path `f` leaves. If `f` panics, the path is
    /// not restored: `index` stays on it.
    pub fn with_index<T>(&mut self, index: usize, f: impl FnOnce(&mut Context) -> T) -> (r: T)
        requires
            forall|c: &mut Context| (*c)@ == entered(old(self)@, SegmentModel::Index(index)) ==> #[trigger] f.requires((c,)),
        ensures
            exists|c: &mut Context|
                (*c)@ == entered(old(self)@, SegmentModel::Index(index))
                && #[trigger] f.ensures((c,), r)
                && final(self)@.issues == final(c)@.issues
                && final(self)@.path == old(self)@.path,
    {
        self.with_segment(Segment::Index(index), f)
    }

    fn with_segment<T>(&mut self, segment: Segment, f: impl FnOnce(&mut Context) -> T) -> (r: T)
        requires
            forall|c: &mut Context| (*c)@ == entered(old(self)@, segment@) ==> #[trigger] f.requires((c,)),
        ensures
            exists|c: &mut Context|
                (*c)@ == entered(old(self)@, segment@)
                && #[trigger] f.ensures((c,), r)
                && final(self)@.issues == final(c)@.issues
                && final(self)@.path == old(self)@.path,
    {
        let saved = clone_segments(&self.path);
        self.enter(segment);
        let r = f(self);
        self.path = saved;
        r
    }

    /// Pushes `segment` onto the current path.
    pub(crate) fn enter(&mut self, segment: Segment)
        ensures
            final(self)@ == entered(old(self)@, segment@),
    {
        self.path.push(segment);
        assert(final(self)@.path =~= old(self)@.path.push(segment@));
    }

    /// Pops the last segment of the current path, if there is one.
    pub(crate) fn leave(&mut self)
        ensures
            final(self)@.path == left(old(self)@.path),
            final(self)@.issues == old(self)@.issues,
    {
        let _ = self.path.pop();
        assert(final(self)@.path =~= left(old(self)@.path));
    }

    /// Records a type mismatch at the current path: `expected` describes the
    /// target type, `found` is the JSON value that was actually there.
    pub fn mismatch(&mut self, expected: &str, found: &JsonValue)
        ensures
            final(self)@ == recorded(old(self)@, IssueKindModel::Mismatch { expected: expected@, found: describe(found@) }),
    {
        let kind = IssueKind::Mismatch { expected: String::from_str(expected), found: describe_value(found) };
        self.push(kind);
    }

    /// Records a missing required field at the current path plus `field`.
    pub fn missing_field(&mut self, field: &str, expected: &str)
        ensures
            final(self)@ == recorded(old(self)@, IssueKindModel::MissingField { field: field@, expected: expected@ }),
    {
        let kind = IssueKind::MissingField { field: String::from_str(field), expected: String::from_str(expected) };
        self.push(kind);
    }

    /// Records a free-form issue at the current path.
    pub fn custom(&mut self, message: &str)
        ensures
            final(self)@ == recorded(old(self)@, IssueKindModel::Custom { message: message@ }),
    {
        let kind = IssueKind::Custom { message: String::from_str(message) };
        self.push(kind);
    }

    /// How many issues have been recorded so far.
    pub fn issue_count(&self) -> (r: usize)
        ensures
            r == self@.issues.len(),
    {
        self.issues.len()
    }

    /// The issues recorded, oldest first.
    pub fn into_issues(self) -> (r: Vec<Issue>)
        ensures
            issues_model(r@) == self@.issues,
    {
        self.issues
    }

    fn push(&mut self, kind: IssueKind)
        ensures
            final(self)@ == recorded(old(self)@, kind@),
    {
        let issue = Issue { path: Path(clone_segments(&self.path)), kind };
        self.issues.push(issue);
        assert(final(self)@.issues =~= old(self)@.issues.push(IssueModel { path: old(self)@.path, kind: kind@ }));
    }
}

} // verus!
