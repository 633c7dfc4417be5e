//! Executable scanning of text, character by character.

use crate::scan::{
    as_int, first_match, lemma_first_match, lemma_first_match_is, lemma_first_match_none,
    lemma_trim_end, lemma_trim_start, matches_at, split_from, split_on, trim_by, views, without,
};
use vstd::prelude::*;

verus! {

/// Whether a character counts as white space when text is trimmed.
pub uninterp spec fn is_whitespace(c: char) -> bool;

/// White space as a predicate on characters.
pub open spec fn whitespace() -> spec_fn(char) -> bool {
    |c: char| is_whitespace(c)
}

/// Being the character `x`, as a predicate on characters.
pub open spec fn exactly(x: char) -> spec_fn(char) -> bool {
    |c: char| c == x
}

/// `s` without leading and trailing white space.
pub open spec fn trimmed(s: Seq<char>) -> Seq<char> {
    trim_by(s, whitespace())
}

/// `char::is_whitespace`: the result says whether Unicode counts the character
/// as `White_Space`, which this library names `is_whitespace` and does not
/// define.
#[verifier::external_body]
fn char_is_whitespace(c: char) -> (white: bool)
    ensures
        white == is_whitespace(c),
{
    c.is_whitespace()
}

/// `String::push`: the character is appended to the end of the string.
#[verifier::external_body]
pub(crate) fn string_push(s: &mut String, c: char)
    ensures
        final(s)@ == old(s)@.push(c),
{
    s.push(c)
}

/// The characters of `s`, in order.
pub fn to_chars(s: &str) -> (chars: Vec<char>)
    ensures
        chars@ == s@,
{
    let mut chars: Vec<char> = Vec::new();
    for c in it: s.chars()
        invariant
            chars@ == it.seq().take(it.index() as int),
            it.seq() == s@,
    {
        chars.push(c);
    }
    chars
}

/// The string made of `chars`, in order.
pub fn to_string(chars: &[char]) -> (s: String)
    ensures
        s@ == chars@,
{
    let mut s = String::new();
    let mut i: usize = 0;
    while i < chars.len()
        invariant
            i <= chars.len(),
            s@ == chars@.take(i as int),
        decreases chars.len() - i,
    {
        string_push(&mut s, chars[i]);
        i += 1;
    }
    s
}

/// Whether two texts are made of the same characters.
pub fn same_text(a: &str, b: &str) -> (same: bool)
    ensures
        same == (a@ == b@),
{
    let left = to_chars(a);
    let right = to_chars(b);
    if left.len() != right.len() {
        return false;
    }
    let mut i: usize = 0;
    while i < left.len()
        invariant
            i <= left.len(),
            left.len() == right.len(),
            left@ == a@,
            right@ == b@,
            forall|j: int| 0 <= j < i ==> left[j] == right[j],
        decreases left.len() - i,
    {
        if left[i] != right[i] {
            assert(a@[i as int] != b@[i as int]);
            return false;
        }
        i += 1;
    }
    assert(left@ =~= right@);
    true
}

/// Whether `needle` occurs in `hay` at index `at`.
fn occurs_at(hay: &[char], needle: &[char], at: usize) -> (found: bool)
    requires
        at + needle.len() <= hay.len(),
    ensures
        found == matches_at(hay@, needle@, at as int),
{
    let mut k: usize = 0;
    while k < needle.len()
        invariant
            k <= needle.len(),
            at + needle.len() <= hay.len(),
            forall|j: int| 0 <= j < k ==> hay[at + j] == needle[j],
        decreases needle.len() - k,
    {
        if hay[at + k] != needle[k] {
            assert(hay@.subrange(at as int, at + needle.len())[k as int] == hay[at + k]);
            return false;
        }
        k += 1;
    }
    assert(hay@.subrange(at as int, at + needle.len()) =~= needle@);
    true
}

/// The index of the first occurrence of `needle` in `hay` at or after `from`.
/// The empty needle occurs at every index up to the length of `hay`.
pub fn find_chars(hay: &[char], needle: &[char], from: usize) -> (found: Option<usize>)
    ensures
        as_int(found) == first_match(hay@, needle@, from as int),
{
    if from > hay.len() {
        proof {
            lemma_first_match_none(hay@, needle@, from as int);
        }
        return None;
    }
    let mut i: usize = from;
    while hay.len() - i >= needle.len()
        invariant
            from <= i <= hay.len(),
            forall|j: int| from <= j < i ==> !matches_at(hay@, needle@, j),
        decreases hay.len() - i,
    {
        if occurs_at(hay, needle, i) {
            proof {
                lemma_first_match_is(hay@, needle@, from as int, i as int);
            }
            return Some(i);
        }
        i += 1;
    }
    proof {
        lemma_first_match_none(hay@, needle@, from as int);
    }
    None
}

/// The pieces of `hay` between the occurrences of `sep`, as `str::split`
/// yields them for a non-empty pattern. An empty `sep` splits nothing.
pub fn split_chars<'a>(hay: &'a [char], sep: &[char]) -> (pieces: Vec<&'a [char]>)
    ensures
        views(pieces@) == split_on(hay@, sep@),
{
    let mut pieces: Vec<&'a [char]> = Vec::new();
    let mut pos: usize = 0;
    loop
        invariant_except_break
            pos <= hay.len(),
            split_on(hay@, sep@) == views(pieces@) + split_from(hay@, sep@, pos as int),
        ensures
            views(pieces@) == split_on(hay@, sep@),
        decreases hay.len() - pos,
    {
        let ghost before = pieces@;
        let next = if sep.len() == 0 {
            None
        } else {
            find_chars(hay, sep, pos)
        };
        proof {
            lemma_first_match(hay@, sep@, pos as int);
        }
        match next {
            Some(at) => {
                pieces.push(&hay[pos..at]);
                assert(views(pieces@) =~= views(before) + seq![hay@.subrange(pos as int, at as int)]);
                pos = at + sep.len();
            },
            None => {
                pieces.push(&hay[pos..hay.len()]);
                assert(views(pieces@) =~= views(before) + seq![
                    hay@.subrange(pos as int, hay.len() as int),
                ]);
                break ;
            },
        }
    }
    pieces
}

/// `s` without leading and trailing white space, as `str::trim` gives it.
pub fn trim<'a>(s: &'a [char]) -> (t: &'a [char])
    ensures
        t@ == trimmed(s@),
{
    let mut lo: usize = 0;
    while lo < s.len()
        invariant
            lo <= s.len(),
            forall|j: int| 0 <= j < lo ==> is_whitespace(#[trigger] s[j]),
        ensures
            lo <= s.len(),
            forall|j: int| 0 <= j < lo ==> is_whitespace(#[trigger] s[j]),
            lo < s.len() ==> !is_whitespace(s[lo as int]),
        decreases s.len() - lo,
    {
        if !char_is_whitespace(s[lo]) {
            break ;
        }
        lo += 1;
    }
    let mut hi: usize = s.len();
    while hi > lo
        invariant
            lo <= hi <= s.len(),
            forall|j: int| hi <= j < s.len() ==> is_whitespace(#[trigger] s[j]),
        ensures
            lo <= hi <= s.len(),
            forall|j: int| hi <= j < s.len() ==> is_whitespace(#[trigger] s[j]),
            lo < hi ==> !is_whitespace(s[hi - 1]),
        decreases hi,
    {
        if !char_is_whitespace(s[hi - 1]) {
            break ;
        }
        hi -= 1;
    }
    proof {
        let rest = s@.subrange(lo as int, s.len() as int);
        lemma_trim_start(s@, whitespace(), lo as int);
        assert forall|j: int| hi - lo <= j < rest.len() implies whitespace()(#[trigger] rest[j]) by {
            assert(rest[j] == s[lo + j]);
        }
        lemma_trim_end(rest, whitespace(), hi - lo);
        assert(rest.subrange(0, hi - lo) =~= s@.subrange(lo as int, hi as int));
    }
    &s[lo..hi]
}

/// `s` without its leading and trailing occurrences of `x`, as
/// `str::trim_matches` gives it for a character.
pub fn trim_matches<'a>(s: &'a [char], x: char) -> (t: &'a [char])
    ensures
        t@ == trim_by(s@, exactly(x)),
{
    let mut lo: usize = 0;
    while lo < s.len() && s[lo] == x
        invariant
            lo <= s.len(),
            forall|j: int| 0 <= j < lo ==> #[trigger] s[j] == x,
        decreases s.len() - lo,
    {
        lo += 1;
    }
    let mut hi: usize = s.len();
    while hi > lo && s[hi - 1] == x
        invariant
            lo <= hi <= s.len(),
            forall|j: int| hi <= j < s.len() ==> #[trigger] s[j] == x,
        decreases hi,
    {
        hi -= 1;
    }
    proof {
        let rest = s@.subrange(lo as int, s.len() as int);
        lemma_trim_start(s@, exactly(x), lo as int);
        assert forall|j: int| hi - lo <= j < rest.len() implies exactly(x)(#[trigger] rest[j]) by {
            assert(rest[j] == s[lo + j]);
        }
        lemma_trim_end(rest, exactly(x), hi - lo);
        assert(rest.subrange(0, hi - lo) =~= s@.subrange(lo as int, hi as int));
    }
    &s[lo..hi]
}

/// `s` with every occurrence of `x` removed.
pub fn remove_char(s: &[char], x: char) -> (kept: Vec<char>)
    ensures
        kept@ == without(s@, x),
{
    let mut kept: Vec<char> = Vec::new();
    let mut i: usize = 0;
    while i < s.len()
        invariant
            i <= s.len(),
            kept@ == without(s@.take(i as int), x),
        decreases s.len() - i,
    {
        assert(s@.take(i + 1).drop_last() =~= s@.take(i as int));
        if s[i] != x {
            kept.push(s[i]);
        }
        i += 1;
    }
    assert(s@.take(s.len() as int) =~= s@);
    kept
}

/// The upper-case form of a text, which this library does not define.
pub uninterp spec fn uppercase_of(s: Seq<char>) -> Seq<char>;

/// `str::to_uppercase`: the result is the text's upper-case form under the
/// Unicode case mapping, named `uppercase_of` here.
#[verifier::external_body]
pub(crate) fn to_uppercase(s: &str) -> (upper: String)
    ensures
        upper@ == uppercase_of(s@),
{
    s.to_uppercase()
}

} // verus!
