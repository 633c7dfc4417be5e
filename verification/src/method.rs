//! The request methods that the router knows.

use crate::text::{same_text, to_uppercase, uppercase_of};
use vstd::prelude::*;

verus! {

/// A request method that routes can be registered under.
#[derive(Clone, Copy, Debug, PartialEq, Eq, Hash, Structural)]
pub enum Method {
    GET,
    POST,
    PUT,
    DELETE,
    PATCH,
}

/// A method token that names none of the known methods.
#[derive(Debug)]
pub struct UnsupportedMethod {
    /// The token in upper case.
    pub token: String,
}

impl UnsupportedMethod {
    /// What went wrong, in words.
    pub fn message(&self) -> (text: String)
        ensures
            text@ == "Unsupported HTTP method "@ + self.token@,
    {
        let mut text = "Unsupported HTTP method ".to_owned();
        text.append(self.token.as_str());
        text
    }
}

/// The method that an upper-case token names.
pub open spec fn method_named(upper: Seq<char>) -> Option<Method> {
    if upper == "GET"@ {
        Some(Method::GET)
    } else if upper == "POST"@ {
        Some(Method::POST)
    } else if upper == "PUT"@ {
        Some(Method::PUT)
    } else if upper == "DELETE"@ {
        Some(Method::DELETE)
    } else if upper == "PATCH"@ {
        Some(Method::PATCH)
    } else {
        None
    }
}

/// The method that `upper` names, letter for letter.
pub fn method_from_upper(upper: &str) -> (method: Option<Method>)
    ensures
        method == method_named(upper@),
{
    if same_text(upper, "GET") {
        Some(Method::GET)
    } else if same_text(upper, "POST") {
        Some(Method::POST)
    } else if same_text(upper, "PUT") {
        Some(Method::PUT)
    } else if same_text(upper, "DELETE") {
        Some(Method::DELETE)
    } else if same_text(upper, "PATCH") {
        Some(Method::PATCH)
    } else {
        None
    }
}

/// Reads a method token without regard to case: the token is put in upper
/// case and must then name a known method.
pub fn parse_method(token: &str) -> (method: Result<Method, UnsupportedMethod>)
    ensures
        match method {
            Ok(m) => method_named(uppercase_of(token@)) == Some(m),
            Err(e) => method_named(uppercase_of(token@)) is None && e.token@ == uppercase_of(
                token@,
            ),
        },
{
    let upper = to_uppercase(token);
    match method_from_upper(upper.as_str()) {
        Some(m) => Ok(m),
        None => Err(UnsupportedMethod { token: upper }),
    }
}

} // verus!
