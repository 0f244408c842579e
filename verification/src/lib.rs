//! The core of a minimal HTTP/1.1 server.
//!
//! One request is served per connection. The bytes read off the connection
//! are parsed into a [`request::Request`]; the request's method and path are
//! looked up in a [`router::Router`], a trie of path segments in which a
//! segment `:name` of a route pattern matches any segment of a request path;
//! the handler found there makes a [`response::Response`], which is
//! compressed where the request asks for gzip and then written out in wire
//! format. [`server::handle_connection`] does all of this between the read
//! and the write. What the routes of the file server answer is in
//! [`handlers`].
//!
//! Every function states what it computes over sequences of characters and
//! bytes and over mappings, and is proved to compute just that. Three things
//! are done by other code and taken on trust: finding the parameter tokens
//! of a pattern (the `regex` crate, in [`pattern`]), compressing a body (the
//! `flate2` crate, in [`server`]), and decoding bytes that may not be UTF-8
//! (the standard library, in [`server`]).

pub mod handlers;
pub mod options;
pub mod pattern;
pub mod request;
pub mod response;
pub mod router;
pub mod server;
pub mod string_map;
pub mod text;
