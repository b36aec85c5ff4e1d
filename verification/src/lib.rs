//! The decisions behind a companion-side HTTP relay: the capability handshake
//! with a peer application, and the fetch requests that it relays.

pub mod base64;
pub mod caps;
pub mod codec;
pub mod fetch;
pub mod handshake;
pub mod headers;
pub mod json;
pub mod text;
