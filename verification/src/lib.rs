//! A browser-like client for testing a server in process.
//!
//! A [`session::Session`] drives requests through the server's handling
//! path without a socket. It keeps a [`jar::CookieJar`]: the cookies that a
//! response sets are merged into the jar, and the jar is sent back with
//! every later request, so that tests can exercise behaviour that depends
//! on a session.
//!
//! The modules, from the leaves up:
//!
//! - [`text`]: characters, blanks and case-insensitive comparison;
//! - [`cookie`]: one cookie and the token that sets it;
//! - [`wire`]: the list of tokens that a response carries;
//! - [`jar`]: the jar and its updates, as functions on sequences;
//! - [`message`]: requests and responses as plain values;
//! - [`url`], [`decode`]: what is left to the `url` and `serde_json` crates;
//! - [`error`]: the failures that a caller can see;
//! - [`session`]: the exchange of a request for a response;
//! - [`laws`]: what holds of the jar and of the header format in general.
pub mod cookie;
pub mod decode;
pub mod error;
pub mod jar;
pub mod laws;
pub mod message;
pub mod session;
pub mod text;
pub mod url;
pub mod wire;
