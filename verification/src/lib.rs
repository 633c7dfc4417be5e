//! The core of a small HTTP/1.1 server, verified with Verus.
//!
//! A request is decoded from what a driver reads off a stream
//! ([`decoder`], [`head`], [`multipart`]), its path is resolved against the
//! routes registered in a trie ([`router`], with [`trie`] as its
//! mathematical model and [`theorems`] for what holds of it), and the
//! handler found is called for the text of the response ([`dispatch`]).
//! The library reads from no socket and writes to none.

pub mod bytes;
pub mod decoder;
pub mod dispatch;
pub mod handlers;
pub mod head;
pub mod method;
pub mod multipart;
pub mod number;
pub mod request;
pub mod router;
pub mod scan;
pub mod strmap;
pub mod text;
pub mod theorems;
pub mod trie;
