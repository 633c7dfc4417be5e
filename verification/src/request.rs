//! A request as the handlers see it.

use crate::strmap::StrMap;
use crate::trie::Params;
use vstd::prelude::*;

verus! {

/// An uploaded file as a mathematical value: the headers of its part and
/// its bytes.
pub type FileView = (Params, Seq<u8>);

/// A request as a mathematical value.
pub struct RequestView {
    pub method: Seq<char>,
    pub route: Seq<char>,
    pub headers: Params,
    pub params: Params,
    pub body: Params,
    pub files: Seq<FileView>,
}

/// The uploaded files as mathematical values, in their order.
pub open spec fn files_view(files: Seq<(StrMap, Vec<u8>)>) -> Seq<FileView> {
    Seq::new(files.len(), |i: int| (files[i].0@, files[i].1@))
}

/// A request: its method and path as received, its headers, the parameters
/// captured from its path, the fields of its form, and its uploaded files
/// in the order in which the body held them.
#[derive(Debug)]
pub struct Request {
    pub method: String,
    pub route: String,
    pub headers: StrMap,
    pub params: StrMap,
    pub body: StrMap,
    pub files: Vec<(StrMap, Vec<u8>)>,
}

impl View for Request {
    type V = RequestView;

    open spec fn view(&self) -> RequestView {
        RequestView {
            method: self.method@,
            route: self.route@,
            headers: self.headers@,
            params: self.params@,
            body: self.body@,
            files: files_view(self.files@),
        }
    }
}

/// Why a request could not be decoded.
#[derive(Clone, Copy, Debug, PartialEq, Eq, Structural)]
pub enum DecodeError {
    /// The input ended before any line of a request came.
    ConnectionClosed,
    /// The start line holds fewer than two tokens.
    MalformedStartLine,
    /// The input ended before the body was as long as announced.
    ShortBody,
}

/// A form field that holds no UTF-8 text.
#[derive(Clone, Copy, Debug, PartialEq, Eq, Structural)]
pub struct InvalidField;

} // verus!
