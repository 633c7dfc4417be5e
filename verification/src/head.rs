//! The head of a request: its start line and its header lines.

use crate::request::{Request, RequestView};
use crate::scan::{first_match, lemma_first_match, lemma_split_nonempty, split_on, views};
use crate::strmap::StrMap;
use crate::number::{decimal_usize, parse_usize};
use crate::text::{find_chars, split_chars, to_chars, to_string, trim, trimmed};
use crate::trie::Params;
use vstd::prelude::*;
use vstd::utf8::encode_utf8;

verus! {

/// The lines of a head: what stands between its line ends.
pub open spec fn head_lines(head: Seq<char>) -> Seq<Seq<char>> {
    split_on(head, seq!['\r', '\n'])
}

/// The tokens of the start line: what stands between its single spaces.
pub open spec fn start_tokens(head: Seq<char>) -> Seq<Seq<char>> {
    split_on(head_lines(head)[0], seq![' '])
}

/// What one header line adds to the headers: what stands before its first
/// colon, trimmed, bound to what stands after it, trimmed. A line without
/// a colon adds nothing.
pub open spec fn with_head_line(line: Seq<char>, headers: Params) -> Params {
    match first_match(line, seq![':'], 0) {
        Some(at) => headers.insert(
            trimmed(line.subrange(0, at)),
            trimmed(line.subrange(at + 1, line.len() as int)),
        ),
        None => headers,
    }
}

/// The headers that the lines before `upto`, but for the first, make up. A
/// later line with the name of an earlier one takes its place.
pub open spec fn head_headers(lines: Seq<Seq<char>>, upto: int) -> Params
    decreases upto,
{
    if upto <= 1 {
        Map::empty()
    } else {
        with_head_line(lines[upto - 1], head_headers(lines, upto - 1))
    }
}

/// The request that a head announces, if its start line holds a method and
/// a path: these two, and the headers, and nothing else yet.
pub open spec fn parsed_head(head: Seq<char>) -> Option<RequestView> {
    let tokens = start_tokens(head);
    if tokens.len() >= 2 {
        Some(
            RequestView {
                method: tokens[0],
                route: tokens[1],
                headers: head_headers(head_lines(head), head_lines(head).len() as int),
                params: Map::empty(),
                body: Map::empty(),
                files: Seq::empty(),
            },
        )
    } else {
        None
    }
}

/// The length of the body that the headers announce: the number in
/// `Content-Length`, or zero where there is none that fits.
pub open spec fn content_length_of(headers: Params) -> usize {
    if headers.contains_key("Content-Length"@) {
        match decimal_usize(headers["Content-Length"@]) {
            Some(length) => length,
            None => 0,
        }
    } else {
        0
    }
}

/// The boundary token that the headers announce: in `Content-Type`, what
/// follows the first `boundary=`, up to the next one if there is one.
pub open spec fn boundary_token(headers: Params) -> Option<Seq<char>> {
    if headers.contains_key("Content-Type"@) {
        let pieces = split_on(headers["Content-Type"@], "boundary="@);
        if pieces.len() >= 2 {
            Some(pieces[1])
        } else {
            None
        }
    } else {
        None
    }
}

/// The bytes that part the parts of a body: two hyphens and the boundary
/// token.
pub open spec fn delimiter_of(token: Seq<char>) -> Seq<u8> {
    seq![45u8, 45u8] + encode_utf8(token)
}

/// The delimiter that the headers announce, if they announce a boundary.
pub open spec fn delimiter(headers: Params) -> Option<Seq<u8>> {
    match boundary_token(headers) {
        Some(token) => Some(delimiter_of(token)),
        None => None,
    }
}

/// Adds to `headers` what the header line `line` holds.
fn parse_head_line(headers: &mut StrMap, line: &[char])
    ensures
        final(headers)@ == with_head_line(line@, old(headers)@),
{
    let colon: [char; 1] = [':'];
    assert(colon@ =~= seq![':']);
    proof {
        lemma_first_match(line@, colon@, 0);
    }
    let length: usize = line.len();
    if let Some(at) = find_chars(line, colon.as_slice(), 0) {
        let name = to_string(trim(&line[0..at]));
        let value = to_string(trim(&line[at + 1..length]));
        headers.insert(name, value);
    }
}

impl Request {
    /// Reads the head of a request: the method and the path from the start
    /// line, and the headers from the lines after it. Fails where the start
    /// line holds fewer than two tokens.
    pub fn parse_head(head: &str) -> (request: Option<Request>)
        ensures
            match request {
                Some(request) => parsed_head(head@) == Some(request@),
                None => parsed_head(head@) is None,
            },
    {
        let chars = to_chars(head);
        let line_end: [char; 2] = ['\r', '\n'];
        assert(line_end@ =~= seq!['\r', '\n']);
        let lines = split_chars(chars.as_slice(), line_end.as_slice());
        proof {
            lemma_split_nonempty(chars@, line_end@);
            assert(views(lines@).len() == lines.len());
            assert(views(lines@)[0] == lines[0]@);
        }
        let space: [char; 1] = [' '];
        assert(space@ =~= seq![' ']);
        let tokens = split_chars(lines[0], space.as_slice());
        assert(views(tokens@).len() == tokens.len());
        if tokens.len() < 2 {
            return None;
        }
        assert(views(tokens@)[0] == tokens[0]@);
        assert(views(tokens@)[1] == tokens[1]@);
        let mut headers = StrMap::new();
        let mut i: usize = 1;
        while i < lines.len()
            invariant
                1 <= i <= lines.len(),
                headers@ == head_headers(views(lines@), i as int),
            decreases lines.len() - i,
        {
            assert(views(lines@)[i as int] == lines[i as int]@);
            parse_head_line(&mut headers, lines[i]);
            i += 1;
        }
        let request = Request {
            method: to_string(tokens[0]),
            route: to_string(tokens[1]),
            headers,
            params: StrMap::new(),
            body: StrMap::new(),
            files: Vec::new(),
        };
        assert(request@.files =~= Seq::empty());
        Some(request)
    }

    /// The length of the body that the request announces in
    /// `Content-Length`; zero where it announces none that can be read.
    pub fn content_length(&self) -> (length: usize)
        ensures
            length == content_length_of(self@.headers),
    {
        match self.headers.get("Content-Length") {
            Some(value) => {
                let chars = to_chars(value.as_str());
                match parse_usize(chars.as_slice()) {
                    Some(length) => length,
                    None => 0,
                }
            },
            None => 0,
        }
    }

    /// The bytes that part the parts of the request's body, where its
    /// `Content-Type` announces a boundary.
    pub fn boundary(&self) -> (bytes: Option<Vec<u8>>)
        ensures
            match bytes {
                Some(bytes) => delimiter(self@.headers) == Some(bytes@),
                None => delimiter(self@.headers) is None,
            },
    {
        let value = match self.headers.get("Content-Type") {
            Some(value) => value,
            None => {
                return None;
            },
        };
        let chars = to_chars(value.as_str());
        let marker = to_chars("boundary=");
        let pieces = split_chars(chars.as_slice(), marker.as_slice());
        assert(views(pieces@).len() == pieces.len());
        if pieces.len() < 2 {
            return None;
        }
        assert(views(pieces@)[1] == pieces[1]@);
        let token = to_string(pieces[1]);
        let mut bytes: Vec<u8> = Vec::new();
        bytes.push(45);
        bytes.push(45);
        bytes.extend_from_slice(token.as_str().as_bytes());
        assert(bytes@ =~= delimiter_of(token@));
        Some(bytes)
    }
}

} // verus!
