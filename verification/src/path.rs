//! JSON paths: where in a document an issue was found, and how paths render.

use vstd::prelude::*;
use vstd::string::*;

use crate::text::{
    ascii_letter, ascii_letter_or_digit, debug_quoted, decimal, is_ascii_letter, is_ascii_letter_or_digit,
    push_char, push_decimal, quote_debug,
};

verus! {

/// One step into a JSON document: an object key or an array index.
#[derive(Debug, PartialEq, Eq)]
pub enum Segment {
    /// An object key, as in `$.customer`.
    Key(String),
    /// An array index, as in `$[2]`.
    Index(usize),
}

/// A path step as the mathematical model sees it.
pub enum SegmentModel {
    Key(Seq<char>),
    Index(usize),
}

impl View for Segment {
    type V = SegmentModel;

    open spec fn view(&self) -> SegmentModel {
        match self {
            Segment::Key(k) => SegmentModel::Key(k@),
            Segment::Index(i) => SegmentModel::Index(*i),
        }
    }
}

impl Clone for Segment {
    fn clone(&self) -> (r: Self)
        ensures
            r == *self,
    {
        match self {
            Segment::Key(k) => Segment::Key(k.clone()),
            Segment::Index(i) => Segment::Index(*i),
        }
    }
}

/// A path from the JSON document root to the place an issue was found.
///
/// Renders as `$` for the root, `.key` for identifier-like keys, `["quoted"]`
/// for any other key, and `[index]` for array elements — e.g.
/// `$.customer.tags[2]` or `$["weird key"].id`.
#[derive(Debug, PartialEq, Eq)]
pub struct Path(pub Vec<Segment>);

/// The models of a sequence of segments.
pub open spec fn segments_model(segments: Seq<Segment>) -> Seq<SegmentModel> {
    segments.map_values(|s: Segment| s@)
}

impl View for Path {
    type V = Seq<SegmentModel>;

    open spec fn view(&self) -> Seq<SegmentModel> {
        segments_model(self.0@)
    }
}

impl Clone for Path {
    fn clone(&self) -> (r: Self)
        ensures
            r@ == self@,
    {
        Path(clone_segments(&self.0))
    }
}

/// A copy of a list of segments.
pub fn clone_segments(segments: &Vec<Segment>) -> (r: Vec<Segment>)
    ensures
        r@ == segments@,
{
    let r = segments.clone();
    assert(r@ =~= segments@);
    r
}

/// Whether a key renders in dot notation: it starts with an ASCII letter or
/// `_` and continues with ASCII letters, digits and `_`.
pub open spec fn is_identifier_key(key: Seq<char>) -> bool {
    &&& key.len() > 0
    &&& (is_ascii_letter(key[0]) || key[0] == '_')
    &&& forall|i: int| 1 <= i < key.len() ==> (is_ascii_letter_or_digit(#[trigger] key[i]) || key[i] == '_')
}

/// How a key segment renders: `.key` for identifier-like keys, `["quoted"]`
/// with Rust's debug quoting otherwise.
pub open spec fn render_key(key: Seq<char>) -> Seq<char> {
    if is_identifier_key(key) {
        seq!['.'] + key
    } else {
        seq!['['] + debug_quoted(key) + seq![']']
    }
}

/// How one segment renders.
pub open spec fn render_segment(segment: SegmentModel) -> Seq<char> {
    match segment {
        SegmentModel::Key(k) => render_key(k),
        SegmentModel::Index(i) => seq!['['] + decimal(i as nat) + seq![']'],
    }
}

/// How a path renders: `$` followed by each segment in order.
pub open spec fn render_path(path: Seq<SegmentModel>) -> Seq<char>
    decreases path.len(),
{
    if path.len() == 0 {
        seq!['$']
    } else {
        render_path(path.drop_last()) + render_segment(path.last())
    }
}

/// Whether `key` is identifier-like (see [`is_identifier_key`]).
pub fn is_identifier(key: &str) -> (r: bool)
    ensures
        r == is_identifier_key(key@),
{
    let n = key.unicode_len();
    if n == 0 {
        return false;
    }
    let first = key.get_char(0);
    if !(ascii_letter(first) || first == '_') {
        return false;
    }
    let mut i: usize = 1;
    while i < n
        invariant
            1 <= i <= n,
            n == key@.len(),
            forall|j: int| 1 <= j < i ==> (is_ascii_letter_or_digit(#[trigger] key@[j]) || key@[j] == '_'),
        decreases n - i,
    {
        let c = key.get_char(i);
        if !(ascii_letter_or_digit(c) || c == '_') {
            return false;
        }
        i = i + 1;
    }
    true
}

/// Appends the rendering of a key segment to `out`.
pub fn write_key(out: &mut String, key: &str)
    ensures
        final(out)@ == old(out)@ + render_key(key@),
{
    if is_identifier(key) {
        push_char(out, '.');
        out.append(key);
        assert(old(out)@.push('.') + key@ == old(out)@ + (seq!['.'] + key@));
    } else {
        push_char(out, '[');
        let quoted = quote_debug(key);
        out.append(quoted.as_str());
        push_char(out, ']');
        assert(old(out)@.push('[') + debug_quoted(key@) + seq![']'] == old(out)@ + (seq!['['] + debug_quoted(key@) + seq![']']));
    }
}

/// Appends the rendering of one segment to `out`.
pub fn write_segment(out: &mut String, segment: &Segment)
    ensures
        final(out)@ == old(out)@ + render_segment(segment@),
{
    match segment {
        Segment::Key(key) => write_key(out, key.as_str()),
        Segment::Index(index) => {
            push_char(out, '[');
            push_decimal(out, *index as u64);
            push_char(out, ']');
            assert(old(out)@.push('[') + decimal(*index as nat) + seq![']'] == old(out)@ + (seq!['['] + decimal(*index as nat) + seq![']']));
        }
    }
}

impl Path {
    /// The path as text, e.g. `$.customer.tags[2]`.
    pub fn to_string(&self) -> (r: String)
        ensures
            r@ == render_path(self@),
    {
        let mut out = String::new();
        push_char(&mut out, '$');
        let mut i: usize = 0;
        assert(self@.take(0).len() == 0);
        while i < self.0.len()
            invariant
                i <= self.0@.len(),
                out@ == render_path(self@.take(i as int)),
            decreases self.0@.len() - i,
        {
            write_segment(&mut out, &self.0[i]);
            assert(self@.take(i + 1).drop_last() == self@.take(i as int));
            i = i + 1;
        }
        assert(self@.take(self.0@.len() as int) == self@);
        out
    }
}

} // verus!
