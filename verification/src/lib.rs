//! Core of a file access and delivery service: safe resolution of
//! client-supplied paths against a storage root, directory listing,
//! recursive keyword search, byte-range negotiation and content
//! delivery framing, and stateless signed share links.

pub mod api;
pub mod bytes;
pub mod deliver;
pub mod entry;
pub mod error;
pub mod fswrap;
pub mod listing;
pub mod range;
pub mod resolve;
pub mod search;
pub mod share;
pub mod volumes;
