//! What holds of every path: the laws that relate the text of a path to its
//! parsed form and to its normal form.
use vstd::prelude::*;
use crate::path::{PathView, has_scheme, last_of, parent_of, starts_at_root};
use crate::resolve::{all_names, lemma_resolve_before_names, lemma_resolve_yields_names, resolve};
use crate::segments::{SEPARATOR, SegmentKind, join, kind_of, lemma_join_behind_empty,
    lemma_join_first, lemma_split_is_nonempty, lemma_split_is_separator_free, lemma_split_join,
    separator_free, split};

verus! {

/// Joining the segments of a text gives the text back.
pub proof fn lemma_join_split(s: Seq<char>)
    ensures
        join(split(s)) == s,
    decreases s.len(),
{
    s.index_of_last_ensures(SEPARATOR);
    if let Some(i) = s.index_of_last(SEPARATOR) {
        let head = split(s.take(i));
        let tail = s.skip(i + 1);
        lemma_split_is_nonempty(s.take(i));
        lemma_join_split(s.take(i));
        assert(head.push(tail).drop_last() =~= head);
        assert(s.take(i) + seq![SEPARATOR] + tail =~= s);
    }
}

/// Whether the segment `seg` counts in resolution: an empty segment and
/// `.` do not.
pub open spec fn counts(seg: Seq<char>) -> bool {
    kind_of(seg) != SegmentKind::Empty && kind_of(seg) != SegmentKind::Current
}

/// The segments of `segs` that count in resolution, in their order.
pub open spec fn counting(segs: Seq<Seq<char>>) -> Seq<Seq<char>> {
    segs.filter(|seg: Seq<char>| counts(seg))
}

/// Resolution can be done in two passes: striking out the segments that do
/// not count, and resolving what is left, gives the same as resolving all
/// segments in one pass.
pub proof fn lemma_resolve_in_two_passes(segs: Seq<Seq<char>>)
    ensures
        resolve(counting(segs)) == resolve(segs),
    decreases segs.len(),
{
    reveal(Seq::filter);
    if segs.len() > 0 {
        lemma_resolve_in_two_passes(segs.drop_last());
        if counts(segs.last()) {
            assert(counting(segs).drop_last() =~= counting(segs.drop_last()));
        }
    }
}

/// The text in which the resolved segments `stack` are written out: joined
/// by separators, behind one more separator if `is_absolute` holds.
pub open spec fn written(stack: Seq<Seq<char>>, is_absolute: bool) -> Seq<char> {
    if is_absolute {
        seq![SEPARATOR] + join(stack)
    } else {
        join(stack)
    }
}

/// The normal form of a structural path is its resolved segments written
/// out, provided they are all names; and such a path has a parent exactly
/// if it has more than one segment.
pub proof fn lemma_normalize_writes_segments(stack: Seq<Seq<char>>, is_absolute: bool)
    requires
        all_names(stack),
    ensures
        (PathView::Path { parent: parent_of(stack), last: last_of(stack), is_absolute }).normalize()
            == written(stack, is_absolute),
        parent_of(stack) is None <==> stack.len() <= 1,
{
    if stack.len() > 1 {
        lemma_join_first(stack.drop_last());
    }
}

/// Names without separators, once written out, are read back as they were:
/// the text breaks and resolves into the same segments, and it begins with
/// a separator exactly if one was put in front.
pub proof fn lemma_written_reads_back(stack: Seq<Seq<char>>, is_absolute: bool)
    requires
        all_names(stack),
        separator_free(stack),
    ensures
        resolve(split(written(stack, is_absolute))) == stack,
        starts_at_root(written(stack, is_absolute)) == is_absolute,
{
    let empty = Seq::<char>::empty();
    // The text breaks into the names, behind the empty segments in `front`.
    let front: Seq<Seq<char>> = if stack.len() > 0 {
        if is_absolute {
            seq![empty]
        } else {
            Seq::empty()
        }
    } else {
        if is_absolute {
            seq![empty, empty]
        } else {
            seq![empty]
        }
    };
    assert(join(front + stack) == written(stack, is_absolute)) by {
        if stack.len() > 0 {
            if is_absolute {
                lemma_join_behind_empty(stack);
            }
        } else {
            if is_absolute {
                assert(front =~= seq![empty] + seq![empty]);
                lemma_join_behind_empty(seq![empty]);
            }
        }
    }
    assert forall|i: int| 0 <= i < (front + stack).len() implies !(#[trigger] (front
        + stack)[i]).contains(SEPARATOR) by {
        if i >= front.len() {
            assert((front + stack)[i] == stack[i - front.len()]);
        }
    }
    lemma_split_join(front + stack);
    assert(resolve(front) =~= Seq::<Seq<char>>::empty()) by {
        reveal_with_fuel(resolve, 3);
    }
    lemma_resolve_before_names(front, stack);
    if stack.len() > 0 {
        lemma_join_first(stack);
    }
}

/// Normalizing is idempotent: the normal form of a path, parsed and
/// normalized once more, is the same text.
pub proof fn lemma_normalize_is_idempotent(s: Seq<char>)
    ensures
        PathView::parse(PathView::parse(s).normalize()).normalize() == PathView::parse(
            s,
        ).normalize(),
{
    if !has_scheme(s) {
        let stack = resolve(split(s));
        lemma_split_is_separator_free(s);
        lemma_resolve_yields_names(split(s));
        lemma_normalize_writes_segments(stack, starts_at_root(s));
        lemma_written_reads_back(stack, starts_at_root(s));
    }
}

/// An external reference passes through untouched: its normal form is the
/// text as written, it is external, and it is neither absolute nor has it
/// a parent or a last segment.
pub proof fn lemma_external_passes_through(s: Seq<char>)
    requires
        has_scheme(s),
    ensures
        PathView::parse(s).normalize() == s,
        PathView::parse(s).is_external(),
        !PathView::parse(s).is_absolute(),
        PathView::parse(s).parent() is None,
        PathView::parse(s).last() is None,
{
}

/// A text without a scheme is a structural path, which is absolute exactly
/// if the text begins with a separator.
pub proof fn lemma_absolute_follows_text(s: Seq<char>)
    requires
        !has_scheme(s),
    ensures
        !PathView::parse(s).is_external(),
        PathView::parse(s).is_absolute() == starts_at_root(s),
        PathView::parse(s).is_absolute() == seq![SEPARATOR].is_prefix_of(s),
{
    if s.len() > 0 {
        assert(s.subrange(0, 1)[0] == s[0]);
    }
}

/// The parent of a path is never the empty text: a structural path has a
/// parent exactly if more than one segment is left after resolution, and
/// that parent holds at least one character.
pub proof fn lemma_parent_is_never_empty(s: Seq<char>)
    ensures
        PathView::parse(s).parent() != Some(Seq::<char>::empty()),
        PathView::parse(s).well_formed(),
        !has_scheme(s) ==> (PathView::parse(s).parent() is None <==> resolve(split(s)).len() <= 1),
{
    if !has_scheme(s) {
        lemma_resolve_yields_names(split(s));
        lemma_normalize_writes_segments(resolve(split(s)), starts_at_root(s));
    }
}

} // verus!
