//! Executable scanning of raw bytes, and their reading as UTF-8 text.

use crate::scan::{
    as_int, first_match, lemma_first_match, lemma_first_match_is, lemma_first_match_none,
    matches_at, split_from, split_on, views,
};
use vstd::prelude::*;
use vstd::string::StringSliceAdditionalSpecFns;
use vstd::utf8::{decode_utf8, encode_utf8_decode_utf8, valid_utf8};

verus! {

/// The text that `bytes` encode in UTF-8; the empty text where they encode
/// none.
pub open spec fn text_or_empty(bytes: Seq<u8>) -> Seq<char> {
    if valid_utf8(bytes) {
        decode_utf8(bytes)
    } else {
        Seq::empty()
    }
}

/// `std::str::from_utf8`: the call succeeds exactly on well-formed UTF-8, and
/// the text it gives is made of the very bytes it was given.
#[verifier::external_body]
fn str_from_utf8<'a>(bytes: &'a [u8]) -> (text: Option<&'a str>)
    ensures
        text is Some <==> valid_utf8(bytes@),
        text matches Some(t) ==> t.spec_bytes() == bytes@,
{
    std::str::from_utf8(bytes).ok()
}

/// Reads `bytes` as UTF-8 text, if they are well formed.
pub fn utf8_text<'a>(bytes: &'a [u8]) -> (text: Option<&'a str>)
    ensures
        text is Some <==> valid_utf8(bytes@),
        text matches Some(t) ==> t@ == decode_utf8(bytes@),
{
    let text = str_from_utf8(bytes);
    proof {
        if let Some(t) = text {
            encode_utf8_decode_utf8(t@);
        }
    }
    text
}

/// Whether `needle` occurs in `hay` at index `at`.
fn occurs_at(hay: &[u8], needle: &[u8], at: usize) -> (found: bool)
    requires
        at + needle.len() <= hay.len(),
    ensures
        found == matches_at(hay@, needle@, at as int),
{
    let mut k: usize = 0;
    while k < needle.len()
        invariant
            k <= needle.len(),
            at + needle.len() <= hay.len(),
            forall|j: int| 0 <= j < k ==> hay[at + j] == needle[j],
        decreases needle.len() - k,
    {
        if hay[at + k] != needle[k] {
            assert(hay@.subrange(at as int, at + needle.len())[k as int] == hay[at + k]);
            return false;
        }
        k += 1;
    }
    assert(hay@.subrange(at as int, at + needle.len()) =~= needle@);
    true
}

/// The index of the first occurrence of `needle` in `hay` at or after `from`.
/// The empty needle occurs at every index up to the length of `hay`.
pub fn find_bytes(hay: &[u8], needle: &[u8], from: usize) -> (found: Option<usize>)
    ensures
        as_int(found) == first_match(hay@, needle@, from as int),
{
    if from > hay.len() {
        proof {
            lemma_first_match_none(hay@, needle@, from as int);
        }
        return None;
    }
    let mut i: usize = from;
    while hay.len() - i >= needle.len()
        invariant
            from <= i <= hay.len(),
            forall|j: int| from <= j < i ==> !matches_at(hay@, needle@, j),
        decreases hay.len() - i,
    {
        if occurs_at(hay, needle, i) {
            proof {
                lemma_first_match_is(hay@, needle@, from as int, i as int);
            }
            return Some(i);
        }
        i += 1;
    }
    proof {
        lemma_first_match_none(hay@, needle@, from as int);
    }
    None
}

/// The pieces of `hay` between the occurrences of `sep`. An empty `sep`
/// splits nothing.
pub fn split_bytes<'a>(hay: &'a [u8], sep: &[u8]) -> (pieces: Vec<&'a [u8]>)
    ensures
        views(pieces@) == split_on(hay@, sep@),
{
    let mut pieces: Vec<&'a [u8]> = Vec::new();
    let mut pos: usize = 0;
    loop
        invariant_except_break
            pos <= hay.len(),
            split_on(hay@, sep@) == views(pieces@) + split_from(hay@, sep@, pos as int),
        ensures
            views(pieces@) == split_on(hay@, sep@),
        decreases hay.len() - pos,
    {
        let ghost before = pieces@;
        let next = if sep.len() == 0 {
            None
        } else {
            find_bytes(hay, sep, pos)
        };
        proof {
            lemma_first_match(hay@, sep@, pos as int);
        }
        match next {
            Some(at) => {
                pieces.push(&hay[pos..at]);
                assert(views(pieces@) =~= views(before) + seq![hay@.subrange(pos as int, at as int)]);
                pos = at + sep.len();
            },
            None => {
                pieces.push(&hay[pos..hay.len()]);
                assert(views(pieces@) =~= views(before) + seq![
                    hay@.subrange(pos as int, hay.len() as int),
                ]);
                break ;
            },
        }
    }
    pieces
}

} // verus!
