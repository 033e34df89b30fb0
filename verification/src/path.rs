//! Paths and their segments.
//!
//! A path is a sequence of characters. After one leading `/` is dropped, it
//! is cut at every `/`; the empty path and `/` both have no segments. In a
//! registered path a segment that starts with `:` is dynamic: it matches any
//! one segment of a request and binds it under the name that follows the `:`.

use vstd::prelude::*;
use vstd::string::StrSliceExecFns;

verus! {

broadcast use vstd::string::group_string_axioms;

/// How a segment of a registered path matches a segment of a request.
#[derive(Clone, Copy, Debug, PartialEq, Eq, Structural)]
pub enum SegmentType {
    /// Matches the one segment equal to its name.
    Static,
    /// Matches any segment and binds it to its name.
    Dynamic,
}

/// One segment of a registered path.
#[derive(Debug, PartialEq, Eq)]
pub struct Segment {
    pub name: String,
    pub segment_type: SegmentType,
}

/// The mathematical value of a [`Segment`].
pub struct SegmentView {
    pub name: Seq<char>,
    pub segment_type: SegmentType,
}

impl View for Segment {
    type V = SegmentView;

    open spec fn view(&self) -> SegmentView {
        SegmentView { name: self.name@, segment_type: self.segment_type }
    }
}

/// The pieces of `s` between its `/` characters, in order: one more piece
/// than `s` has slashes.
pub open spec fn split_slash(s: Seq<char>) -> Seq<Seq<char>>
    decreases s.len(),
{
    if s.len() == 0 {
        seq![Seq::<char>::empty()]
    } else {
        let before = split_slash(s.drop_last());
        if s.last() == '/' {
            before.push(Seq::<char>::empty())
        } else {
            before.drop_last().push(before.last().push(s.last()))
        }
    }
}

/// The pieces of `pieces` with a `/` between each two neighbours.
pub open spec fn join_slash(pieces: Seq<Seq<char>>) -> Seq<char>
    decreases pieces.len(),
{
    if pieces.len() == 0 {
        Seq::<char>::empty()
    } else if pieces.len() == 1 {
        pieces[0]
    } else {
        join_slash(pieces.drop_last()) + seq!['/'] + pieces.last()
    }
}

/// `path` without one leading `/`, if it has one.
pub open spec fn strip_leading_slash(path: Seq<char>) -> Seq<char> {
    if path.len() > 0 && path[0] == '/' {
        path.skip(1)
    } else {
        path
    }
}

/// The segments of `path`: none if nothing follows the optional leading `/`,
/// else the pieces between the slashes of what follows it.
pub open spec fn path_segments(path: Seq<char>) -> Seq<Seq<char>> {
    let rest = strip_leading_slash(path);
    if rest.len() == 0 {
        Seq::<Seq<char>>::empty()
    } else {
        split_slash(rest)
    }
}

/// How a segment of a registered path is read: a leading `:` makes it
/// dynamic and is not part of its name.
pub open spec fn parse_segment(segment: Seq<char>) -> SegmentView {
    if segment.len() > 0 && segment[0] == ':' {
        SegmentView { name: segment.skip(1), segment_type: SegmentType::Dynamic }
    } else {
        SegmentView { name: segment, segment_type: SegmentType::Static }
    }
}

/// The pattern that a registered path stands for.
pub open spec fn path_pattern(path: Seq<char>) -> Seq<SegmentView> {
    Seq::new(path_segments(path).len(), |i: int| parse_segment(path_segments(path)[i]))
}

/// Whether no segment of `path` is dynamic.
pub open spec fn is_static_path(path: Seq<char>) -> bool {
    forall|i: int|
        0 <= i < path_segments(path).len() ==> (#[trigger] parse_segment(
            path_segments(path)[i],
        )).segment_type == SegmentType::Static
}

/// The views of a list of strings, in order.
pub open spec fn string_views(strings: Seq<String>) -> Seq<Seq<char>> {
    Seq::new(strings.len(), |i: int| strings[i]@)
}

/// The views of a list of segments, in order.
pub open spec fn segment_views(segments: Seq<Segment>) -> Seq<SegmentView> {
    Seq::new(segments.len(), |i: int| segments[i]@)
}

/// The characters of `text`, in order.
pub fn chars_of(text: &str) -> (chars: Vec<char>)
    ensures
        chars@ == text@,
{
    let mut chars: Vec<char> = Vec::new();
    for c in it: text.chars()
        invariant
            it.seq() == text@,
            chars@ == it.seq().take(it.index()),
    {
        proof {
            assert(it.seq().take(it.index() + 1) =~= it.seq().take(it.index()).push(c));
        }
        chars.push(c);
    }
    proof {
        assert(text@.take(text@.len() as int) =~= text@);
    }
    chars
}

/// Cuts a path into its segments.
pub fn split_path(path: &str) -> (segments: Vec<String>)
    ensures
        string_views(segments@) == path_segments(path@),
        segments@.len() == path_segments(path@).len(),
{
    let chars = chars_of(path);
    let n = chars.len();
    let mut segments: Vec<String> = Vec::new();
    let first: usize = if n > 0 && chars[0] == '/' {
        1
    } else {
        0
    };
    if first == n {
        assert(string_views(segments@) =~= path_segments(path@));
        return segments;
    }
    let ghost rest = strip_leading_slash(path@);
    assert(rest =~= path@.subrange(first as int, n as int));
    let mut start: usize = first;
    let mut i: usize = first;
    assert(rest.take(0) =~= Seq::<char>::empty());
    assert(path@.subrange(start as int, i as int) =~= Seq::<char>::empty());
    assert(string_views(segments@).push(path@.subrange(start as int, i as int)) =~= split_slash(
        rest.take(0),
    ));
    while i < n
        invariant
            n == path@.len(),
            chars@ == path@,
            first <= start <= i <= n,
            rest == path@.subrange(first as int, n as int),
            split_slash(rest.take(i - first)) == string_views(segments@).push(
                path@.subrange(start as int, i as int),
            ),
        decreases n - i,
    {
        let ghost before = split_slash(rest.take(i - first));
        let ghost views = string_views(segments@);
        proof {
            assert(rest.take(i + 1 - first).drop_last() =~= rest.take(i - first));
            assert(rest.take(i + 1 - first).last() == path@[i as int]);
            assert(before.last() == path@.subrange(start as int, i as int));
            assert(before.drop_last() =~= views);
        }
        if chars[i] == '/' {
            let piece = path.substring_char(start, i);
            segments.push(piece.to_owned());
            start = i + 1;
            proof {
                assert(string_views(segments@) =~= before);
                assert(path@.subrange(start as int, i + 1) =~= Seq::<char>::empty());
            }
        } else {
            proof {
                assert(path@.subrange(start as int, i + 1) =~= before.last().push(path@[i as int]));
            }
        }
        i += 1;
    }
    let piece = path.substring_char(start, n);
    segments.push(piece.to_owned());
    proof {
        assert(rest.take(n - first) =~= rest);
        assert(string_views(segments@) =~= split_slash(rest));
    }
    segments
}

/// Reads one segment of a registered path.
pub fn read_segment(segment: &str) -> (parsed: Segment)
    ensures
        parsed@ == parse_segment(segment@),
{
    let n = segment.unicode_len();
    if n > 0 && segment.get_char(0) == ':' {
        let name = segment.substring_char(1, n);
        proof {
            assert(segment@.subrange(1, n as int) =~= segment@.skip(1));
        }
        Segment { name: name.to_owned(), segment_type: SegmentType::Dynamic }
    } else {
        Segment { name: segment.to_owned(), segment_type: SegmentType::Static }
    }
}

/// Reads a registered path as a pattern.
pub fn read_pattern(path: &str) -> (pattern: Vec<Segment>)
    ensures
        segment_views(pattern@) == path_pattern(path@),
        pattern@.len() == path_pattern(path@).len(),
{
    let segments = split_path(path);
    let mut pattern: Vec<Segment> = Vec::new();
    let mut i: usize = 0;
    while i < segments.len()
        invariant
            i <= segments.len(),
            pattern.len() == i,
            string_views(segments@) == path_segments(path@),
            forall|j: int| 0 <= j < i ==> pattern@[j]@ == parse_segment(segments@[j]@),
        decreases segments.len() - i,
    {
        pattern.push(read_segment(segments[i].as_str()));
        i += 1;
    }
    proof {
        assert forall|j: int| 0 <= j < pattern.len() implies segment_views(pattern@)[j]
            == path_pattern(path@)[j] by {
            assert(string_views(segments@)[j] == segments@[j]@);
        }
        assert(segment_views(pattern@) =~= path_pattern(path@));
    }
    pattern
}

} // verus!
