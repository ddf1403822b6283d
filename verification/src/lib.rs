//! Typed client library for an API.ai-style natural-language-understanding
//! REST service.
//!
//! The library builds typed request payloads, encodes them as JSON text,
//! and decodes the service's JSON replies into typed result structures.
//! All of the codec logic is verified; the HTTPS transport itself is left
//! to the program embedding the library.

pub mod client;
pub mod json;
pub mod lang;
pub mod parse;
pub mod roundtrip;
pub mod structure;
pub mod text;
