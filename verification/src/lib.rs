//! Typed mail header values (addresses, message identifiers, free text)
//! that know how to write themselves as RFC 5322 / MIME header text, and
//! an insertion-ordered multi map of headers with cross-header validation.

pub mod mail_type;
pub mod grammar;
pub mod text;
pub mod name;
pub mod error;
pub mod text_partition;
pub mod data;
pub mod encoder;
pub mod bind;
pub mod quoting;
pub mod components;
pub mod header;
pub mod store;
pub mod map;
pub mod headers;
