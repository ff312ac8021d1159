//! A minimal embedded HTTP server engine.
//!
//! The library holds the verified core: the wire codec that turns raw
//! request text into an [`http::HttpRequest`] and a [`http::HttpResponse`]
//! into wire bytes, the path matcher that compares request paths against
//! route templates with `{name}` wildcard segments, the router that picks
//! the first matching route, and a small flat-JSON object scraper.
//!
//! Listening sockets, connection reads and writes, and the application's
//! request handlers live in the embedding program; it hands the received
//! text to the codec and writes the encoded bytes back.

pub mod codec;
pub mod http;
pub mod json;
pub mod matcher;
pub mod router;
pub mod text;

pub use http::HttpRequest;
pub use http::HttpResponse;
pub use json::map_json;
pub use matcher::Route;
