//! Searching and splitting of sequences, as mathematical functions.
//!
//! Everything here is ghost: the executable scanners over bytes and over
//! characters state their results in these terms.

use vstd::prelude::*;

verus! {

/// `needle` occurs in `hay` starting at index `at`.
pub open spec fn matches_at<T>(hay: Seq<T>, needle: Seq<T>, at: int) -> bool {
    &&& 0 <= at
    &&& at + needle.len() <= hay.len()
    &&& hay.subrange(at, at + needle.len()) =~= needle
}

/// The least index at or after `from` at which `needle` occurs in `hay`.
pub open spec fn first_match<T>(hay: Seq<T>, needle: Seq<T>, from: int) -> Option<int>
    decreases hay.len() - from,
{
    if from < 0 || from + needle.len() > hay.len() {
        None
    } else if matches_at(hay, needle, from) {
        Some(from)
    } else {
        first_match(hay, needle, from + 1)
    }
}

/// `first_match` finds an occurrence, the earliest one, and misses none.
pub proof fn lemma_first_match<T>(hay: Seq<T>, needle: Seq<T>, from: int)
    requires
        0 <= from,
    ensures
        match first_match(hay, needle, from) {
            Some(at) => {
                &&& from <= at
                &&& matches_at(hay, needle, at)
                &&& forall|j: int| from <= j < at ==> !matches_at(hay, needle, j)
            },
            None => forall|j: int| from <= j ==> !matches_at(hay, needle, j),
        },
    decreases hay.len() - from,
{
    if from + needle.len() > hay.len() {
    } else if matches_at(hay, needle, from) {
    } else {
        lemma_first_match(hay, needle, from + 1);
    }
}

/// An occurrence at `at` with none in `from..at` is the first match from `from`.
pub proof fn lemma_first_match_is<T>(hay: Seq<T>, needle: Seq<T>, from: int, at: int)
    requires
        0 <= from <= at,
        matches_at(hay, needle, at),
        forall|j: int| from <= j < at ==> !matches_at(hay, needle, j),
    ensures
        first_match(hay, needle, from) == Some(at),
    decreases at - from,
{
    if from < at {
        lemma_first_match_is(hay, needle, from + 1, at);
    }
}

/// No occurrence at or after `from` means no first match.
pub proof fn lemma_first_match_none<T>(hay: Seq<T>, needle: Seq<T>, from: int)
    requires
        forall|j: int| from <= j ==> !matches_at(hay, needle, j),
    ensures
        first_match(hay, needle, from) == None::<int>,
    decreases hay.len() - from,
{
    if from < 0 || from + needle.len() > hay.len() {
    } else {
        lemma_first_match_none(hay, needle, from + 1);
    }
}

/// The pieces of `hay[from..]` between the successive, non-overlapping
/// occurrences of a non-empty separator, scanning from the left. There is
/// always at least one piece; an empty separator splits nothing.
pub open spec fn split_from<T>(hay: Seq<T>, sep: Seq<T>, from: int) -> Seq<Seq<T>>
    decreases hay.len() - from,
{
    match first_match(hay, sep, from) {
        Some(at) if sep.len() > 0 && from <= at && at + sep.len() <= hay.len() => seq![
            hay.subrange(from, at),
        ] + split_from(hay, sep, at + sep.len()),
        _ => seq![hay.subrange(from, hay.len() as int)],
    }
}

/// The pieces of `hay` between the occurrences of the separator `sep`.
pub open spec fn split_on<T>(hay: Seq<T>, sep: Seq<T>) -> Seq<Seq<T>> {
    split_from(hay, sep, 0)
}

/// Splitting yields at least one piece.
pub proof fn lemma_split_nonempty<T>(hay: Seq<T>, sep: Seq<T>)
    ensures
        split_on(hay, sep).len() >= 1,
{
    assert(split_from(hay, sep, 0).len() >= 1);
}

/// The views of a sequence of slices.
pub open spec fn views<T>(pieces: Seq<&[T]>) -> Seq<Seq<T>> {
    Seq::new(pieces.len(), |i: int| pieces[i]@)
}

/// An index as a mathematical integer.
pub open spec fn as_int(index: Option<usize>) -> Option<int> {
    match index {
        Some(i) => Some(i as int),
        None => None,
    }
}

/// `hay` without its longest prefix and longest suffix of elements that
/// satisfy `drop`.
pub open spec fn trim_by<T>(hay: Seq<T>, drop: spec_fn(T) -> bool) -> Seq<T> {
    trim_end_by(trim_start_by(hay, drop), drop)
}

/// `hay` without its longest prefix of elements that satisfy `drop`.
pub open spec fn trim_start_by<T>(hay: Seq<T>, drop: spec_fn(T) -> bool) -> Seq<T>
    decreases hay.len(),
{
    if hay.len() > 0 && drop(hay[0]) {
        trim_start_by(hay.drop_first(), drop)
    } else {
        hay
    }
}

/// `hay` without its longest suffix of elements that satisfy `drop`.
pub open spec fn trim_end_by<T>(hay: Seq<T>, drop: spec_fn(T) -> bool) -> Seq<T>
    decreases hay.len(),
{
    if hay.len() > 0 && drop(hay.last()) {
        trim_end_by(hay.drop_last(), drop)
    } else {
        hay
    }
}

/// Trimming a range of `hay` whose first `lo` elements satisfy `drop` and
/// whose element at `lo`, if any, does not, leaves `hay[lo..]`.
pub proof fn lemma_trim_start<T>(hay: Seq<T>, drop: spec_fn(T) -> bool, lo: int)
    requires
        0 <= lo <= hay.len(),
        forall|j: int| 0 <= j < lo ==> drop(#[trigger] hay[j]),
        lo < hay.len() ==> !drop(hay[lo]),
    ensures
        trim_start_by(hay, drop) == hay.subrange(lo, hay.len() as int),
    decreases lo,
{
    if lo == 0 {
        assert(hay.subrange(0, hay.len() as int) =~= hay);
    } else {
        let rest = hay.drop_first();
        assert forall|j: int| 0 <= j < lo - 1 implies drop(#[trigger] rest[j]) by {
            assert(rest[j] == hay[j + 1]);
        }
        lemma_trim_start(rest, drop, lo - 1);
        assert(rest.subrange(lo - 1, rest.len() as int) =~= hay.subrange(lo, hay.len() as int));
    }
}

/// Trimming the end of `hay` whose elements from `hi` on satisfy `drop` and
/// whose element before `hi`, if any, does not, leaves `hay[..hi]`.
pub proof fn lemma_trim_end<T>(hay: Seq<T>, drop: spec_fn(T) -> bool, hi: int)
    requires
        0 <= hi <= hay.len(),
        forall|j: int| hi <= j < hay.len() ==> drop(#[trigger] hay[j]),
        0 < hi ==> !drop(hay[hi - 1]),
    ensures
        trim_end_by(hay, drop) == hay.subrange(0, hi),
    decreases hay.len() - hi,
{
    if hi == hay.len() {
        assert(hay.subrange(0, hay.len() as int) =~= hay);
    } else {
        let rest = hay.drop_last();
        assert forall|j: int| hi <= j < rest.len() implies drop(#[trigger] rest[j]) by {
            assert(rest[j] == hay[j]);
        }
        lemma_trim_end(rest, drop, hi);
        assert(rest.subrange(0, hi) =~= hay.subrange(0, hi));
    }
}

/// The elements of `hay` other than `x`, in order.
pub open spec fn without<T>(hay: Seq<T>, x: T) -> Seq<T>
    decreases hay.len(),
{
    if hay.len() == 0 {
        hay
    } else if hay.last() == x {
        without(hay.drop_last(), x)
    } else {
        without(hay.drop_last(), x).push(hay.last())
    }
}

} // verus!
