//! Hidden-parameter discovery for HTTP endpoints: request templates that put a
//! batch of candidate names at an injection site, the requests made from
//! them, and the analysis of responses against a baseline (body beautifying,
//! reflection counts and their verdict, diff-line comparison).
//!
//! `text` holds the character-sequence toolkit, `bridge` the calls into std
//! and outside crates, `headers` and `pairs` the list types, `random` the
//! generator of random values, and `template`, `request` and `response` the
//! model itself.

pub mod text;
pub mod bridge;
pub mod headers;
pub mod pairs;
pub mod random;
pub mod template;
pub mod request;
pub mod response;
