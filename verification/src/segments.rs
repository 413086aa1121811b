//! The model of a path as a sequence of segments: how a text breaks at its
//! separators, how segments join back into a text, and what kind of segment
//! each one is.
use vstd::prelude::*;

verus! {

/// The character between two segments of a path.
pub const SEPARATOR: char = '/';

/// The segments of `s`: the stretches of text between its separators.
///
/// A text without a separator is its own single segment. Otherwise the
/// segments are those of what precedes the last separator, followed by what
/// comes after it. Leading, trailing and doubled separators therefore yield
/// empty segments, and the result is never empty.
///
/// `split` is the inverse of [`join`] on segments without separators: see
/// [`lemma_split_is_separator_free`], [`lemma_split_join`] and
/// [`crate::laws::lemma_join_split`].
pub open spec fn split(s: Seq<char>) -> Seq<Seq<char>>
    decreases s.len(),
    via split_decreases
{
    match s.index_of_last(SEPARATOR) {
        Some(i) => split(s.take(i)).push(s.skip(i + 1)),
        None => seq![s],
    }
}

#[via_fn]
proof fn split_decreases(s: Seq<char>) {
    s.index_of_last_ensures(SEPARATOR);
}

/// The text made of `segs` with one separator between each two neighbours.
pub open spec fn join(segs: Seq<Seq<char>>) -> Seq<char>
    decreases segs.len(),
{
    if segs.len() == 0 {
        Seq::empty()
    } else if segs.len() == 1 {
        segs[0]
    } else {
        join(segs.drop_last()) + seq![SEPARATOR] + segs.last()
    }
}

/// No segment of `segs` holds a separator.
pub open spec fn separator_free(segs: Seq<Seq<char>>) -> bool {
    forall|i: int| 0 <= i < segs.len() ==> !(#[trigger] segs[i]).contains(SEPARATOR)
}

/// What a segment means when a path is resolved.
#[derive(Clone, Copy, Debug, PartialEq, Eq, Structural)]
pub enum SegmentKind {
    /// The empty segment, left by a leading, trailing or doubled separator.
    Empty,
    /// The segment `.`, which stands for the directory it appears in.
    Current,
    /// The segment `..`, which stands for the directory one level up.
    Parent,
    /// Any other segment: the name of a directory or of a file.
    Name,
}

/// The kind of the segment `seg`.
pub open spec fn kind_of(seg: Seq<char>) -> SegmentKind {
    if seg.len() == 0 {
        SegmentKind::Empty
    } else if seg == seq!['.'] {
        SegmentKind::Current
    } else if seg == seq!['.', '.'] {
        SegmentKind::Parent
    } else {
        SegmentKind::Name
    }
}

/// The last separator of `s` stands at `i` if one stands there and none
/// stands after it.
pub proof fn lemma_last_separator(s: Seq<char>, i: int)
    requires
        0 <= i < s.len(),
        s[i] == SEPARATOR,
        forall|j: int| i < j < s.len() ==> s[j] != SEPARATOR,
    ensures
        s.index_of_last(SEPARATOR) == Some(i),
{
    s.index_of_last_ensures(SEPARATOR);
}

/// A text without a separator is its own single segment.
pub proof fn lemma_split_without_separator(s: Seq<char>)
    requires
        !s.contains(SEPARATOR),
    ensures
        split(s) == seq![s],
{
    s.index_of_last_ensures(SEPARATOR);
}

/// A text always has at least one segment.
pub proof fn lemma_split_is_nonempty(s: Seq<char>)
    ensures
        split(s).len() >= 1,
{
    s.index_of_last_ensures(SEPARATOR);
}

/// No segment of a text holds a separator.
pub proof fn lemma_split_is_separator_free(s: Seq<char>)
    ensures
        separator_free(split(s)),
    decreases s.len(),
{
    s.index_of_last_ensures(SEPARATOR);
    if let Some(i) = s.index_of_last(SEPARATOR) {
        lemma_split_is_separator_free(s.take(i));
        let tail = s.skip(i + 1);
        assert forall|k: int| 0 <= k < tail.len() implies tail[k] != SEPARATOR by {
            assert(tail[k] == s[i + 1 + k]);
        }
    }
}

/// Splitting a joined text gives the segments back, provided there is at
/// least one segment and none of them holds a separator.
pub proof fn lemma_split_join(segs: Seq<Seq<char>>)
    requires
        segs.len() >= 1,
        separator_free(segs),
    ensures
        split(join(segs)) == segs,
    decreases segs.len(),
{
    if segs.len() == 1 {
        lemma_split_without_separator(segs[0]);
    } else {
        let init = segs.drop_last();
        let last = segs.last();
        let text = join(segs);
        let at: int = join(init).len() as int;
        assert forall|j: int| at < j < text.len() implies text[j] != SEPARATOR by {
            assert(text[j] == last[j - at - 1]);
        }
        lemma_last_separator(text, at);
        assert(text.take(at) =~= join(init));
        assert(text.skip(at + 1) =~= last);
        assert forall|k: int| 0 <= k < init.len() implies !(#[trigger] init[k]).contains(
            SEPARATOR,
        ) by {
            assert(init[k] == segs[k]);
        }
        lemma_split_join(init);
    }
}

/// An empty segment in front of others adds one separator to the front of
/// the joined text.
pub proof fn lemma_join_behind_empty(segs: Seq<Seq<char>>)
    requires
        segs.len() >= 1,
    ensures
        join(seq![Seq::empty()] + segs) == seq![SEPARATOR] + join(segs),
    decreases segs.len(),
{
    let front = seq![Seq::<char>::empty()];
    assert((front + segs).drop_last() =~= front + segs.drop_last());
    if segs.len() == 1 {
        assert(front + segs.drop_last() =~= front);
        assert(join(front) == front[0]);
    } else {
        lemma_join_behind_empty(segs.drop_last());
    }
}

/// A joined text begins as its first segment does, where that segment is
/// not empty.
pub proof fn lemma_join_first(segs: Seq<Seq<char>>)
    requires
        segs.len() >= 1,
        segs[0].len() > 0,
    ensures
        join(segs).len() > 0,
        join(segs)[0] == segs[0][0],
    decreases segs.len(),
{
    if segs.len() > 1 {
        lemma_join_first(segs.drop_last());
    }
}

/// How the segments grow when one character is added to the end of a text:
/// a separator opens a new, empty segment, and any other character extends
/// the last segment.
pub proof fn lemma_split_push(s: Seq<char>, c: char)
    ensures
        split(s).len() >= 1,
        c == SEPARATOR ==> split(s.push(c)) == split(s).push(Seq::empty()),
        c != SEPARATOR ==> split(s.push(c)) == split(s).drop_last().push(split(s).last().push(c)),
{
    let t = s.push(c);
    lemma_split_is_nonempty(s);
    s.index_of_last_ensures(SEPARATOR);
    if c == SEPARATOR {
        lemma_last_separator(t, s.len() as int);
        assert(t.take(s.len() as int) =~= s);
        assert(t.skip(s.len() as int + 1) =~= Seq::<char>::empty());
    } else if let Some(i) = s.index_of_last(SEPARATOR) {
        assert(t[i] == s[i]);
        assert forall|j: int| i < j < t.len() implies t[j] != SEPARATOR by {
            if j < s.len() {
                assert(t[j] == s[j]);
            }
        }
        lemma_last_separator(t, i);
        assert(t.take(i) =~= s.take(i));
        assert(t.skip(i + 1) =~= s.skip(i + 1).push(c));
    } else {
        assert forall|j: int| 0 <= j < t.len() implies t[j] != SEPARATOR by {
            if j < s.len() {
                assert(t[j] == s[j]);
            }
        }
        lemma_split_without_separator(t);
    }
}

/// Tells what kind of segment `seg` is.
pub fn classify(seg: &str) -> (kind: SegmentKind)
    ensures
        kind == kind_of(seg@),
{
    let mut chars = seg.chars();
    match chars.next() {
        None => SegmentKind::Empty,
        Some('.') => match chars.next() {
            None => {
                assert(seg@ =~= seq!['.']);
                SegmentKind::Current
            },
            Some('.') => match chars.next() {
                None => {
                    assert(seg@ =~= seq!['.', '.']);
                    SegmentKind::Parent
                },
                Some(_) => SegmentKind::Name,
            },
            Some(_) => SegmentKind::Name,
        },
        Some(_) => SegmentKind::Name,
    }
}

/// Joins `segs` into one text, with a separator between each two
/// neighbours.
pub fn join_segments(segs: &Vec<String>) -> (text: String)
    ensures
        text@ == join(segs.deep_view()),
{
    let mut text = String::new();
    let mut i: usize = 0;
    while i < segs.len()
        invariant
            i <= segs.len(),
            text@ == join(segs.deep_view().take(i as int)),
        decreases segs.len() - i,
    {
        if i > 0 {
            text.push(SEPARATOR);
        }
        text.append(segs[i].as_str());
        assert(segs.deep_view().take(i + 1).drop_last() =~= segs.deep_view().take(i as int));
        i += 1;
    }
    assert(segs.deep_view().take(segs.len() as int) =~= segs.deep_view());
    text
}

} // verus!
