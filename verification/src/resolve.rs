//! Resolution of a path's segments: `.` and empty segments contribute
//! nothing, `..` removes the segment before it, and every other segment is
//! kept in order.
use vstd::prelude::*;
use crate::segments::{SegmentKind, SEPARATOR, classify, kind_of, lemma_split_is_nonempty,
    lemma_split_push, lemma_split_without_separator, separator_free, split};

verus! {

/// The resolved segments after `seg` has been taken into account, where
/// `stack` holds the resolved segments so far.
///
/// A `..` with nothing before it is dropped without a trace.
pub open spec fn step(stack: Seq<Seq<char>>, seg: Seq<char>) -> Seq<Seq<char>> {
    match kind_of(seg) {
        SegmentKind::Empty | SegmentKind::Current => stack,
        SegmentKind::Parent => if stack.len() > 0 {
            stack.drop_last()
        } else {
            stack
        },
        SegmentKind::Name => stack.push(seg),
    }
}

/// The resolved segments of `segs`, each taken into account in turn from
/// left to right.
pub open spec fn resolve(segs: Seq<Seq<char>>) -> Seq<Seq<char>>
    decreases segs.len(),
{
    if segs.len() == 0 {
        Seq::empty()
    } else {
        step(resolve(segs.drop_last()), segs.last())
    }
}

/// Every segment of `segs` is a name: not empty, not `.` and not `..`.
pub open spec fn all_names(segs: Seq<Seq<char>>) -> bool {
    forall|i: int| 0 <= i < segs.len() ==> kind_of(#[trigger] segs[i]) == SegmentKind::Name
}

/// Resolution leaves nothing but names, and brings no separator into a
/// segment.
pub proof fn lemma_resolve_yields_names(segs: Seq<Seq<char>>)
    ensures
        all_names(resolve(segs)),
        separator_free(segs) ==> separator_free(resolve(segs)),
    decreases segs.len(),
{
    if segs.len() > 0 {
        let init = segs.drop_last();
        lemma_resolve_yields_names(init);
        if separator_free(segs) {
            assert forall|i: int| 0 <= i < init.len() implies !(#[trigger] init[i]).contains(
                SEPARATOR,
            ) by {
                assert(init[i] == segs[i]);
            }
            assert(!segs[segs.len() - 1].contains(SEPARATOR));
        }
    }
}

/// Names that follow other segments resolve to themselves, behind whatever
/// the other segments resolve to.
pub proof fn lemma_resolve_before_names(front: Seq<Seq<char>>, names: Seq<Seq<char>>)
    requires
        all_names(names),
    ensures
        resolve(front + names) == resolve(front) + names,
    decreases names.len(),
{
    if names.len() == 0 {
        assert(front + names =~= front);
    } else {
        let init = names.drop_last();
        assert forall|i: int| 0 <= i < init.len() implies kind_of(#[trigger] init[i])
            == SegmentKind::Name by {
            assert(init[i] == names[i]);
        }
        lemma_resolve_before_names(front, init);
        assert((front + names).drop_last() =~= front + init);
        assert(kind_of(names[names.len() - 1]) == SegmentKind::Name);
    }
}

/// Takes the segment `seg` into account on the stack of resolved segments.
pub fn push_segment(stack: &mut Vec<String>, seg: String)
    ensures
        final(stack).deep_view() == step(old(stack).deep_view(), seg@),
{
    match classify(seg.as_str()) {
        SegmentKind::Empty | SegmentKind::Current => {},
        SegmentKind::Parent => {
            stack.pop();
        },
        SegmentKind::Name => {
            stack.push(seg);
        },
    }
}

/// Breaks `path` at its separators and resolves the segments, in one pass
/// over its characters.
pub fn resolve_path(path: &str) -> (stack: Vec<String>)
    ensures
        stack.deep_view() == resolve(split(path@)),
{
    // The resolved segments that precede the segment being read.
    let mut stack: Vec<String> = Vec::new();
    // The segment being read, as far as it has been read.
    let mut current = String::new();
    proof {
        lemma_split_without_separator(Seq::empty());
        assert(path@.take(0) =~= Seq::<char>::empty());
    }
    for c in chars: path.chars()
        invariant
            chars.seq() == path@,
            current@ == split(path@.take(chars.index())).last(),
            stack.deep_view() == resolve(split(path@.take(chars.index())).drop_last()),
    {
        let ghost seen = path@.take(chars.index());
        proof {
            lemma_split_push(seen, c);
            assert(path@.take(chars.index() + 1) =~= seen.push(c));
        }
        if c == SEPARATOR {
            push_segment(&mut stack, current);
            current = String::new();
            assert(split(seen).push(Seq::empty()).drop_last() =~= split(seen));
        } else {
            current.push(c);
            assert(split(seen).drop_last().push(split(seen).last().push(c)).drop_last()
                =~= split(seen).drop_last());
        }
    }
    proof {
        assert(path@.take(path@.len() as int) =~= path@);
        lemma_split_is_nonempty(path@);
    }
    push_segment(&mut stack, current);
    stack
}

} // verus!
