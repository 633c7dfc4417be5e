//! From a decoded request to the text of the response.

use crate::method::{method_named, parse_method, Method, UnsupportedMethod};
use crate::request::{DecodeError, Request, RequestView};
use crate::router::Router;
use crate::text::uppercase_of;
use crate::trie::{resolution, Routes};
use vstd::prelude::*;

verus! {

/// The request with the parameters that its path captures under `method`.
pub open spec fn routed<H>(routes: Routes<H>, method: Method, request: RequestView) -> RequestView {
    RequestView { params: resolution(routes, method, request.route).1, ..request }
}

/// The handler that the request's path resolves to under `method`.
pub open spec fn handler_for<H>(routes: Routes<H>, method: Method, request: RequestView) -> Option<
    H,
> {
    resolution(routes, method, request.route).0
}

/// The handler that the request resolves to, if any, takes the request as
/// it is once its parameters are attached.
pub open spec fn handler_accepts<H: Fn(&Request) -> String>(
    routes: Routes<H>,
    method: Method,
    request: RequestView,
) -> bool {
    match handler_for(routes, method, request) {
        Some(handler) => forall|routed_request: Request|
            routed_request@ == routed(routes, method, request) ==> call_requires(
                handler,
                (&routed_request,),
            ),
        None => true,
    }
}

/// `text` is what the handler that the request resolves to returns for it;
/// where it resolves to none, `text` says that nothing was found.
pub open spec fn is_handler_result<H: Fn(&Request) -> String>(
    routes: Routes<H>,
    method: Method,
    before: RequestView,
    request: Request,
    text: Seq<char>,
) -> bool {
    match handler_for(routes, method, before) {
        Some(handler) => exists|result: String|
            call_ensures(handler, (&request,), result) && result@ == text,
        None => text == "404 Not Found\r\n\r\n"@,
    }
}

impl<H: Fn(&Request) -> String> Router<H> {
    /// Resolves the request's path under `method`, attaches the captured
    /// parameters to the request, and gives what the handler returns for
    /// it. Where the path resolves to no handler, gives the text that says
    /// so.
    pub fn exec_handler(&self, method: Method, request: &mut Request) -> (response: String)
        requires
            handler_accepts(self@, method, old(request)@),
        ensures
            final(request)@ == routed(self@, method, old(request)@),
            is_handler_result(self@, method, old(request)@, *final(request), response@),
    {
        let (handler, params) = self.resolve(method, request.route.as_str());
        request.params = params;
        match handler {
            Some(handler) => handler(&*request),
            None => "404 Not Found\r\n\r\n".to_owned(),
        }
    }

    /// The response to a request whose method token was read as `method`:
    /// the protocol version, then what the handler gives, or the text that
    /// says that the method is not allowed, with the methods that are.
    pub fn respond(
        &self,
        method: Result<Method, UnsupportedMethod>,
        request: &mut Request,
    ) -> (response: String)
        requires
            method matches Ok(m) ==> handler_accepts(self@, m, old(request)@),
        ensures
            match method {
                Ok(m) => {
                    &&& final(request)@ == routed(self@, m, old(request)@)
                    &&& exists|text: Seq<char>|
                        is_handler_result(self@, m, old(request)@, *final(request), text)
                            && response@ == "HTTP/1.1 "@ + text
                },
                Err(_) => {
                    &&& final(request)@ == old(request)@
                    &&& response@ == "HTTP/1.1 "@
                        + "405 Method Not Allowed\r\nAllow: GET, POST, PUT, DELETE, PATCH\r\n\r\n"@
                },
            },
    {
        let mut response = "HTTP/1.1 ".to_owned();
        match method {
            Ok(m) => {
                let text = self.exec_handler(m, request);
                response.append(text.as_str());
            },
            Err(_) => {
                response.append(
                    "405 Method Not Allowed\r\nAllow: GET, POST, PUT, DELETE, PATCH\r\n\r\n",
                );
            },
        }
        response
    }

    /// The response to a decoded request: its method token is read without
    /// regard to case, and the request is answered as `respond` says.
    pub fn handle_request(&self, request: &mut Request) -> (response: String)
        requires
            forall|m: Method| handler_accepts(self@, m, old(request)@),
        ensures
            match method_named(uppercase_of(old(request)@.method)) {
                Some(m) => {
                    &&& final(request)@ == routed(self@, m, old(request)@)
                    &&& exists|text: Seq<char>|
                        is_handler_result(self@, m, old(request)@, *final(request), text)
                            && response@ == "HTTP/1.1 "@ + text
                },
                None => {
                    &&& final(request)@ == old(request)@
                    &&& response@ == "HTTP/1.1 "@
                        + "405 Method Not Allowed\r\nAllow: GET, POST, PUT, DELETE, PATCH\r\n\r\n"@
                },
            },
    {
        let method = parse_method(request.method.as_str());
        self.respond(method, request)
    }
}

/// The response to a request that could not be decoded: none where the
/// connection was closed before a request came, else the text that says
/// that the request is malformed.
pub fn failure_response(error: DecodeError) -> (response: Option<String>)
    ensures
        match error {
            DecodeError::ConnectionClosed => response is None,
            _ => response matches Some(text) && text@ == "HTTP/1.1 400 Bad Request\r\n\r\n"@,
        },
{
    match error {
        DecodeError::ConnectionClosed => None,
        _ => Some("HTTP/1.1 400 Bad Request\r\n\r\n".to_owned()),
    }
}

} // verus!
