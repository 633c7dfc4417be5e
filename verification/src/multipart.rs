//! The decoding of a `multipart/form-data` body: its parts, their headers,
//! and what each part adds to a request.

use crate::bytes::{find_bytes, split_bytes, text_or_empty, utf8_text};
use crate::request::{files_view, InvalidField, Request, RequestView};
use crate::scan::{
    as_int, first_match, lemma_first_match, lemma_split_nonempty, split_on, views, without,
};
use crate::strmap::StrMap;
use crate::text::{find_chars, remove_char, split_chars, to_chars, to_string, trim, trimmed};
use crate::trie::Params;
use vstd::prelude::*;
use vstd::slice::slice_to_vec;
use vstd::utf8::{decode_utf8, valid_utf8};

verus! {

/// Where the bytes of a part begin: two bytes, a line end, after the
/// boundary that opens it, but not beyond the boundary that closes it.
pub open spec fn part_begin(start: int, boundary_len: int, end: int) -> int {
    if start + boundary_len + 2 <= end {
        start + boundary_len + 2
    } else {
        end
    }
}

/// The parts of `body` from `pos` on: what lies between each occurrence of
/// the boundary and the next one, without the line end that follows the
/// opening boundary. What follows the last occurrence is no part.
pub open spec fn parts_from(body: Seq<u8>, boundary: Seq<u8>, pos: int) -> Seq<Seq<u8>>
    decreases body.len() - pos,
{
    match first_match(body, boundary, pos) {
        Some(start) => match first_match(body, boundary, start + boundary.len()) {
            Some(end) => if boundary.len() > 0 && pos <= start && start + boundary.len() <= end
                <= body.len() {
                seq![body.subrange(part_begin(start, boundary.len() as int, end), end)]
                    + parts_from(body, boundary, end)
            } else {
                Seq::empty()
            },
            None => Seq::empty(),
        },
        None => Seq::empty(),
    }
}

/// The parts of a multipart body.
pub open spec fn parts_of(body: Seq<u8>, boundary: Seq<u8>) -> Seq<Seq<u8>> {
    parts_from(body, boundary, 0)
}

/// What one `key=value` piece of a header's value adds to the headers of a
/// part: the key and the value, both without their double quotes. A piece
/// without `=` adds nothing.
pub open spec fn with_parameter(piece: Seq<char>, headers: Params) -> Params {
    match first_match(piece, seq!['='], 0) {
        Some(at) => headers.insert(
            without(piece.subrange(0, at), '"'),
            without(piece.subrange(at + 1, piece.len() as int), '"'),
        ),
        None => headers,
    }
}

/// The headers after the pieces before `upto`, but for the first, have
/// added their parameters, in their order.
pub open spec fn with_parameters(pieces: Seq<Seq<char>>, upto: int, headers: Params) -> Params
    decreases upto,
{
    if upto <= 1 {
        headers
    } else {
        with_parameter(pieces[upto - 1], with_parameters(pieces, upto - 1, headers))
    }
}

/// What one header line of a part adds to the part's headers. A line
/// without `": "` adds nothing. Else what stands before is the key and what
/// stands after the value, both read as UTF-8 (as empty where they are
/// not) and trimmed. The value's pieces between `"; "`, but for the first,
/// add their parameters; then the key is bound to the first piece.
pub open spec fn with_header_line(line: Seq<u8>, headers: Params) -> Params {
    match first_match(line, seq![58u8, 32u8], 0) {
        Some(at) => {
            let key = trimmed(text_or_empty(line.subrange(0, at)));
            let value = trimmed(text_or_empty(line.subrange(at + 2, line.len() as int)));
            let pieces = split_on(value, seq![';', ' ']);
            with_parameters(pieces, pieces.len() as int, headers).insert(key, pieces[0])
        },
        None => headers,
    }
}

/// The headers that the lines before `upto` make up, in their order.
pub open spec fn headers_of(lines: Seq<Seq<u8>>, upto: int) -> Params
    decreases upto,
{
    if upto <= 0 {
        Map::empty()
    } else {
        with_header_line(lines[upto - 1], headers_of(lines, upto - 1))
    }
}

/// The headers and the content of a part. The first empty line parts the
/// two: before it stand the header lines, each ended by a line feed, after
/// it the content. A part without an empty line has neither.
pub open spec fn parsed_part(part: Seq<u8>) -> (Params, Seq<u8>) {
    match first_match(part, seq![13u8, 10u8, 13u8, 10u8], 0) {
        Some(at) => {
            let lines = split_on(part.subrange(0, at), seq![10u8]);
            (headers_of(lines, lines.len() as int), part.subrange(at + 4, part.len() as int))
        },
        None => (Map::empty(), Seq::empty()),
    }
}

/// Whether the headers of a part say that it is an uploaded file.
pub open spec fn is_file(headers: Params) -> bool {
    headers.contains_key("filename"@)
}

/// The name of the form field that a part holds: its `name` parameter, or
/// `key` where it has none.
pub open spec fn field_name(headers: Params) -> Seq<char> {
    if headers.contains_key("name"@) {
        headers["name"@]
    } else {
        "key"@
    }
}

/// Whether a part is a form field whose content is no UTF-8 text.
pub open spec fn is_invalid_field(headers: Params, data: Seq<u8>) -> bool {
    !is_file(headers) && !valid_utf8(data)
}

/// The request after a part with these headers and this content has been
/// taken in. A file is appended to the files, with its bytes as they are.
/// A field is bound under its name to its content, read as UTF-8 and
/// trimmed; a field that is no UTF-8 text changes nothing.
pub open spec fn with_part(request: RequestView, headers: Params, data: Seq<u8>) -> RequestView {
    if is_file(headers) {
        RequestView { files: request.files.push((headers, data)), ..request }
    } else if valid_utf8(data) {
        RequestView {
            body: request.body.insert(field_name(headers), trimmed(decode_utf8(data))),
            ..request
        }
    } else {
        request
    }
}

/// The request after the parts before `upto` have been taken in, in their
/// order.
pub open spec fn with_parts(request: RequestView, parts: Seq<Seq<u8>>, upto: int) -> RequestView
    decreases upto,
{
    if upto <= 0 {
        request
    } else {
        let part = parsed_part(parts[upto - 1]);
        with_part(with_parts(request, parts, upto - 1), part.0, part.1)
    }
}

/// How many of the parts before `upto` are form fields whose content is
/// no UTF-8 text.
pub open spec fn invalid_fields(parts: Seq<Seq<u8>>, upto: int) -> nat
    decreases upto,
{
    if upto <= 0 {
        0
    } else {
        let part = parsed_part(parts[upto - 1]);
        if is_invalid_field(part.0, part.1) {
            invalid_fields(parts, upto - 1) + 1
        } else {
            invalid_fields(parts, upto - 1)
        }
    }
}

/// The characters that `bytes` encode in UTF-8; none where they encode no
/// text.
fn chars_or_empty(bytes: &[u8]) -> (chars: Vec<char>)
    ensures
        chars@ == text_or_empty(bytes@),
{
    match utf8_text(bytes) {
        Some(text) => to_chars(text),
        None => Vec::new(),
    }
}

/// Adds to `headers` what the header line `line` of a part holds.
fn parse_header_line(headers: &mut StrMap, line: &[u8])
    ensures
        final(headers)@ == with_header_line(line@, old(headers)@),
{
    let colon_space: [u8; 2] = [58, 32];
    assert(colon_space@ =~= seq![58u8, 32u8]);
    proof {
        lemma_first_match(line@, colon_space@, 0);
    }
    let at = match find_bytes(line, colon_space.as_slice(), 0) {
        Some(at) => at,
        None => {
            return ;
        },
    };
    let length: usize = line.len();
    let key_chars = chars_or_empty(&line[0..at]);
    let key = to_string(trim(key_chars.as_slice()));
    let value_chars = chars_or_empty(&line[at + 2..length]);
    let value = trim(value_chars.as_slice());
    let semicolon_space: [char; 2] = [';', ' '];
    assert(semicolon_space@ =~= seq![';', ' ']);
    let pieces = split_chars(value, semicolon_space.as_slice());
    proof {
        lemma_split_nonempty(value@, semicolon_space@);
        assert(views(pieces@).len() == pieces.len());
    }
    let ghost start = headers@;
    let equals: [char; 1] = ['='];
    assert(equals@ =~= seq!['=']);
    let mut k: usize = 1;
    while k < pieces.len()
        invariant
            1 <= k <= pieces.len(),
            equals@ == seq!['='],
            headers@ == with_parameters(views(pieces@), k as int, start),
        decreases pieces.len() - k,
    {
        let piece = pieces[k];
        assert(views(pieces@)[k as int] == piece@);
        proof {
            lemma_first_match(piece@, equals@, 0);
        }
        let length: usize = piece.len();
        if let Some(eq) = find_chars(piece, equals.as_slice(), 0) {
            let name = remove_char(&piece[0..eq], '"');
            let text = remove_char(&piece[eq + 1..length], '"');
            headers.insert(to_string(name.as_slice()), to_string(text.as_slice()));
        }
        k += 1;
    }
    assert(views(pieces@)[0] == pieces[0]@);
    headers.insert(key, to_string(pieces[0]));
}

impl Request {
    /// The headers of a part of a multipart body, and its content.
    pub fn parse_part<'a>(part: &'a [u8]) -> (parsed: (StrMap, &'a [u8]))
        ensures
            (parsed.0@, parsed.1@) == parsed_part(part@),
    {
        let blank_line: [u8; 4] = [13, 10, 13, 10];
        assert(blank_line@ =~= seq![13u8, 10u8, 13u8, 10u8]);
        proof {
            lemma_first_match(part@, blank_line@, 0);
        }
        let at = match find_bytes(part, blank_line.as_slice(), 0) {
            Some(at) => at,
            None => {
                let nothing = &part[0..0];
                assert(nothing@ =~= Seq::<u8>::empty());
                return (StrMap::new(), nothing);
            },
        };
        let line_feed: [u8; 1] = [10];
        assert(line_feed@ =~= seq![10u8]);
        let lines = split_bytes(&part[0..at], line_feed.as_slice());
        let mut headers = StrMap::new();
        let mut i: usize = 0;
        while i < lines.len()
            invariant
                i <= lines.len(),
                headers@ == headers_of(views(lines@), i as int),
            decreases lines.len() - i,
        {
            assert(views(lines@)[i as int] == lines[i as int]@);
            parse_header_line(&mut headers, lines[i]);
            i += 1;
        }
        let length: usize = part.len();
        (headers, &part[at + 4..length])
    }

    /// Takes a parsed part into the request: a part with a `filename` as an
    /// uploaded file, any other as a form field. Fails, and leaves the
    /// request as it was, on a field whose content is no UTF-8 text.
    pub fn parse_body(&mut self, part: (StrMap, &[u8])) -> (outcome: Result<(), InvalidField>)
        ensures
            final(self)@ == with_part(old(self)@, part.0@, part.1@),
            outcome is Err <==> is_invalid_field(part.0@, part.1@),
    {
        let (headers, data) = part;
        if headers.contains_key("filename") {
            let ghost files = self.files@;
            let bytes = slice_to_vec(data);
            self.files.push((headers, bytes));
            assert(files_view(self.files@) =~= files_view(files).push((headers@, data@)));
            return Ok(());
        }
        let name = match headers.get("name") {
            Some(name) => name.clone(),
            None => "key".to_owned(),
        };
        match utf8_text(data) {
            Some(text) => {
                let chars = to_chars(text);
                let value = to_string(trim(chars.as_slice()));
                self.body.insert(name, value);
                Ok(())
            },
            None => Err(InvalidField),
        }
    }

    /// Takes the parts of a multipart body into the request, in their
    /// order, and says how many form fields were left out because their
    /// content is no UTF-8 text.
    pub fn read_multipart(&mut self, body: &[u8], boundary: &[u8]) -> (left_out: usize)
        requires
            boundary@.len() > 0,
        ensures
            final(self)@ == with_parts(
                old(self)@,
                parts_of(body@, boundary@),
                parts_of(body@, boundary@).len() as int,
            ),
            left_out == invalid_fields(
                parts_of(body@, boundary@),
                parts_of(body@, boundary@).len() as int,
            ),
    {
        let ghost before = self@;
        let parts = Self::split_multipart(body, boundary);
        let ghost all = views(parts@);
        let mut left_out: usize = 0;
        let mut i: usize = 0;
        while i < parts.len()
            invariant
                i <= parts.len(),
                all == views(parts@),
                self@ == with_parts(before, all, i as int),
                left_out == invalid_fields(all, i as int),
                left_out <= i,
            decreases parts.len() - i,
        {
            assert(all[i as int] == parts[i as int]@);
            let parsed = Self::parse_part(parts[i]);
            if self.parse_body(parsed).is_err() {
                left_out += 1;
            }
            i += 1;
        }
        left_out
    }

    /// The index of the first occurrence of `boundary` in `body` at or after
    /// `start`.
    pub fn find_boundary(body: &[u8], boundary: &[u8], start: usize) -> (found: Option<usize>)
        ensures
            as_int(found) == first_match(body@, boundary@, start as int),
    {
        find_bytes(body, boundary, start)
    }

    /// The parts of `body` that the occurrences of `boundary` enclose, in
    /// their order.
    pub fn split_multipart<'a>(body: &'a [u8], boundary: &[u8]) -> (parts: Vec<&'a [u8]>)
        requires
            boundary@.len() > 0,
        ensures
            views(parts@) == parts_of(body@, boundary@),
    {
        let mut parts: Vec<&'a [u8]> = Vec::new();
        let mut pos: usize = 0;
        loop
            invariant_except_break
                pos <= body.len(),
                boundary@.len() > 0,
                parts_of(body@, boundary@) == views(parts@) + parts_from(body@, boundary@, pos as int),
            ensures
                views(parts@) == parts_of(body@, boundary@),
            decreases body.len() - pos,
        {
            let ghost before = parts@;
            proof {
                lemma_first_match(body@, boundary@, pos as int);
            }
            let start = match Self::find_boundary(body, boundary, pos) {
                Some(start) => start,
                None => {
                    assert(views(parts@) + Seq::<Seq<u8>>::empty() =~= views(parts@));
                    break ;
                },
            };
            proof {
                lemma_first_match(body@, boundary@, start + boundary.len());
            }
            let end = match Self::find_boundary(body, boundary, start + boundary.len()) {
                Some(end) => end,
                None => {
                    assert(views(parts@) + Seq::<Seq<u8>>::empty() =~= views(parts@));
                    break ;
                },
            };
            let begin: usize = if end - start - boundary.len() >= 2 {
                start + boundary.len() + 2
            } else {
                end
            };
            parts.push(&body[begin..end]);
            assert(views(parts@) =~= views(before) + seq![body@.subrange(begin as int, end as int)]);
            pos = end;
        }
        parts
    }
}

} // verus!
