//! What the handlers of a small server compute: the text of their
//! responses, and what they take from a request. Sleeping and the writing
//! of files is left to whoever calls them.

use crate::number::{decimal_text, decimal_u64, parse_u64, push_decimal};
use crate::request::{Request, RequestView};
use crate::strmap::StrMap;
use crate::text::to_chars;
use crate::trie::Params;
use vstd::prelude::*;
use vstd::utf8::encode_utf8;

verus! {

/// A plain-text response: the status, the content type, the length of the
/// body in bytes, an empty line, and the body.
pub open spec fn plain_text(status: Seq<char>, body: Seq<char>) -> Seq<char> {
    status + "\r\nContent-Type:text/plain\r\nContent-Length: "@ + decimal_text(
        encode_utf8(body).len(),
    ) + "\r\n\r\n"@ + body
}

/// What `echo` answers: the `message` parameter of the request, or the
/// complaint that there is none.
pub open spec fn echo_text(request: RequestView) -> Seq<char> {
    if request.params.contains_key("message"@) {
        plain_text("200 Ok"@, request.params["message"@])
    } else {
        plain_text("400 Bad Request"@, "Invalid Message"@)
    }
}

/// The seconds that a request asks to wait: the number in its `duration`
/// parameter, or five where there is none that can be read.
pub open spec fn seconds_of(request: RequestView) -> u64 {
    if request.params.contains_key("duration"@) {
        match decimal_u64(request.params["duration"@]) {
            Some(seconds) => seconds,
            None => 5,
        }
    } else {
        5
    }
}

/// The path under which an uploaded file is kept: its `filename` in the
/// directory of uploads, or `test.txt` where it has none.
pub open spec fn upload_path_of(headers: Params) -> Seq<char> {
    if headers.contains_key("filename"@) {
        "./uploads/"@ + headers["filename"@]
    } else {
        "./uploads/"@ + "test.txt"@
    }
}

/// A plain-text response with this status and this body.
pub fn plain_response(status: &str, body: &str) -> (response: String)
    ensures
        response@ == plain_text(status@, body@),
{
    let mut response = status.to_owned();
    response.append("\r\nContent-Type:text/plain\r\nContent-Length: ");
    push_decimal(&mut response, body.as_bytes().len());
    response.append("\r\n\r\n");
    response.append(body);
    assert(response@ =~= plain_text(status@, body@));
    response
}

/// Answers with the `message` parameter of the request.
pub fn echo(request: &Request) -> (response: String)
    ensures
        response@ == echo_text(request@),
{
    match request.params.get("message") {
        Some(message) => plain_response("200 Ok", message.as_str()),
        None => plain_response("400 Bad Request", "Invalid Message"),
    }
}

/// The seconds that the request asks to wait.
pub fn sleep_seconds(request: &Request) -> (seconds: u64)
    ensures
        seconds == seconds_of(request@),
{
    match request.params.get("duration") {
        Some(duration) => {
            let chars = to_chars(duration.as_str());
            match parse_u64(chars.as_slice()) {
                Some(seconds) => seconds,
                None => 5,
            }
        },
        None => 5,
    }
}

/// The path under which the uploaded file with these headers is kept.
pub fn upload_path(headers: &StrMap) -> (path: String)
    ensures
        path@ == upload_path_of(headers@),
{
    let mut path = "./uploads/".to_owned();
    match headers.get("filename") {
        Some(name) => path.append(name.as_str()),
        None => path.append("test.txt"),
    }
    path
}

/// The response of a handler that has done its work.
pub fn done() -> (response: String)
    ensures
        response@ == "200 Ok\r\nContent-Type:text/plain\r\n\r\nDone"@,
{
    "200 Ok\r\nContent-Type:text/plain\r\n\r\nDone".to_owned()
}

} // verus!
