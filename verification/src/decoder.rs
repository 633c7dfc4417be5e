//! The decoding of a request from a stream, as a machine that is told what
//! was read and says what to read next.
//!
//! The machine never reads by itself. Its first wish is a line; whoever
//! drives it reads what it asks for and hands it over as an event.

use crate::head::{content_length_of, delimiter, parsed_head};
use crate::multipart::{invalid_fields, parts_of, with_parts};
use crate::request::{DecodeError, Request, RequestView};
use crate::text::same_text;
use vstd::prelude::*;

verus! {

/// Where the decoding of a request stands.
#[derive(Debug)]
pub enum Decoder {
    /// The head is being read; these are its lines so far.
    Head(String),
    /// The head is read, and the body is awaited.
    Body(Request),
    /// The request was delivered or given up.
    Finished,
}

/// What was read from the stream.
#[derive(Debug)]
pub enum Event {
    /// A line with its line end; the empty line when the input has ended.
    Line(String),
    /// The bytes of the body; fewer than asked for when the input ended
    /// early.
    Body(Vec<u8>),
}

/// What the decoder wants next, or what it has come to.
#[derive(Debug)]
pub enum Action {
    /// Read a line.
    ReadLine,
    /// Read this many bytes of body.
    ReadBody(usize),
    /// The request is decoded; so many form fields were left out because
    /// they hold no UTF-8 text.
    Deliver(Request, usize),
    /// The request cannot be decoded.
    Fail(DecodeError),
    /// Nothing is left to do.
    Idle,
}

/// A decoder as a mathematical value.
pub enum DecoderView {
    Head(Seq<char>),
    Body(RequestView),
    Finished,
}

/// An event as a mathematical value.
pub enum EventView {
    Line(Seq<char>),
    Body(Seq<u8>),
}

/// An action as a mathematical value.
pub enum ActionView {
    ReadLine,
    ReadBody(usize),
    Deliver(RequestView, nat),
    Fail(DecodeError),
    Idle,
}

impl View for Decoder {
    type V = DecoderView;

    open spec fn view(&self) -> DecoderView {
        match self {
            Decoder::Head(head) => DecoderView::Head(head@),
            Decoder::Body(request) => DecoderView::Body(request@),
            Decoder::Finished => DecoderView::Finished,
        }
    }
}

impl View for Event {
    type V = EventView;

    open spec fn view(&self) -> EventView {
        match self {
            Event::Line(line) => EventView::Line(line@),
            Event::Body(bytes) => EventView::Body(bytes@),
        }
    }
}

impl View for Action {
    type V = ActionView;

    open spec fn view(&self) -> ActionView {
        match self {
            Action::ReadLine => ActionView::ReadLine,
            Action::ReadBody(length) => ActionView::ReadBody(*length),
            Action::Deliver(request, left_out) => ActionView::Deliver(request@, *left_out as nat),
            Action::Fail(error) => ActionView::Fail(*error),
            Action::Idle => ActionView::Idle,
        }
    }
}

/// The request with its body taken in: the parts of a multipart body, where
/// the headers announce a boundary; nothing of any other body.
pub open spec fn with_body(request: RequestView, body: Seq<u8>) -> RequestView {
    match delimiter(request.headers) {
        Some(boundary) => with_parts(
            request,
            parts_of(body, boundary),
            parts_of(body, boundary).len() as int,
        ),
        None => request,
    }
}

/// How many form fields of the body are left out of the request because
/// they hold no UTF-8 text.
pub open spec fn left_out_of(request: RequestView, body: Seq<u8>) -> nat {
    match delimiter(request.headers) {
        Some(boundary) => invalid_fields(
            parts_of(body, boundary),
            parts_of(body, boundary).len() as int,
        ),
        None => 0,
    }
}

/// What the end of the head leads to: the wish for the body that the head
/// announces, or failure where the start line is malformed.
pub open spec fn after_head(head: Seq<char>) -> (DecoderView, ActionView) {
    match parsed_head(head) {
        Some(request) => (
            DecoderView::Body(request),
            ActionView::ReadBody(content_length_of(request.headers)),
        ),
        None => (DecoderView::Finished, ActionView::Fail(DecodeError::MalformedStartLine)),
    }
}

/// What the body leads to: failure where it is shorter than announced, else
/// the request with as many bytes of it taken in as were announced.
pub open spec fn after_body(request: RequestView, bytes: Seq<u8>) -> (DecoderView, ActionView) {
    let length = content_length_of(request.headers) as int;
    if bytes.len() < length {
        (DecoderView::Finished, ActionView::Fail(DecodeError::ShortBody))
    } else {
        let body = bytes.subrange(0, length);
        (
            DecoderView::Finished,
            ActionView::Deliver(with_body(request, body), left_out_of(request, body)),
        )
    }
}

/// The decoder after an event, and what it then wants.
///
/// While the head is read, a line that is neither empty nor a bare line end
/// is added to the head. The end of the input before any line means that
/// the connection was closed. Any other empty line, or a bare line end,
/// ends the head. While the body is awaited, the bytes that come are the
/// body. An event that the decoder did not ask for changes nothing, and the
/// decoder says again what it wants.
pub open spec fn next(state: DecoderView, event: EventView) -> (DecoderView, ActionView) {
    match state {
        DecoderView::Head(head) => match event {
            EventView::Line(line) => if line.len() == 0 && head.len() == 0 {
                (DecoderView::Finished, ActionView::Fail(DecodeError::ConnectionClosed))
            } else if line.len() == 0 || line == "\r\n"@ {
                after_head(head)
            } else {
                (DecoderView::Head(head + line), ActionView::ReadLine)
            },
            EventView::Body(_) => (state, ActionView::ReadLine),
        },
        DecoderView::Body(request) => match event {
            EventView::Line(_) => (
                state,
                ActionView::ReadBody(content_length_of(request.headers)),
            ),
            EventView::Body(bytes) => after_body(request, bytes),
        },
        DecoderView::Finished => (DecoderView::Finished, ActionView::Idle),
    }
}

impl Request {
    /// Takes the body into the request: the parts of a multipart body,
    /// where the headers announce a boundary; nothing of any other body.
    /// Says how many form fields were left out because they hold no UTF-8
    /// text.
    pub fn read_body(&mut self, body: &[u8]) -> (left_out: usize)
        ensures
            final(self)@ == with_body(old(self)@, body@),
            left_out == left_out_of(old(self)@, body@),
    {
        match self.boundary() {
            Some(boundary) => self.read_multipart(body, boundary.as_slice()),
            None => 0,
        }
    }
}

impl Decoder {
    /// A decoder at the start of a request. It wants a line.
    pub fn new() -> (decoder: Decoder)
        ensures
            decoder@ == DecoderView::Head(Seq::empty()),
    {
        Decoder::Head(String::new())
    }

    /// Takes an event and says what to do next.
    pub fn step(self, event: Event) -> (after: (Decoder, Action))
        ensures
            (after.0@, after.1@) == next(self@, event@),
    {
        match self {
            Decoder::Head(mut head) => match event {
                Event::Line(line) => {
                    if line.as_str().is_empty() && head.as_str().is_empty() {
                        (Decoder::Finished, Action::Fail(DecodeError::ConnectionClosed))
                    } else if line.as_str().is_empty() || same_text(line.as_str(), "\r\n") {
                        match Request::parse_head(head.as_str()) {
                            Some(request) => {
                                let length = request.content_length();
                                (Decoder::Body(request), Action::ReadBody(length))
                            },
                            None => (
                                Decoder::Finished,
                                Action::Fail(DecodeError::MalformedStartLine),
                            ),
                        }
                    } else {
                        head.append(line.as_str());
                        (Decoder::Head(head), Action::ReadLine)
                    }
                },
                Event::Body(_) => (Decoder::Head(head), Action::ReadLine),
            },
            Decoder::Body(mut request) => match event {
                Event::Line(_) => {
                    let length = request.content_length();
                    (Decoder::Body(request), Action::ReadBody(length))
                },
                Event::Body(bytes) => {
                    let length = request.content_length();
                    if bytes.len() < length {
                        (Decoder::Finished, Action::Fail(DecodeError::ShortBody))
                    } else {
                        let left_out = request.read_body(&bytes.as_slice()[0..length]);
                        (Decoder::Finished, Action::Deliver(request, left_out))
                    }
                },
            },
            Decoder::Finished => (Decoder::Finished, Action::Idle),
        }
    }
}

} // verus!
