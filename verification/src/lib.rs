//! Verified core of an OpenAPI catalog tool: it parses OpenAPI (v3) JSON
//! documents into a normalized catalog of endpoints with synthesized example
//! payloads, and keeps stored catalogs fresh through a conditional-fetch
//! refresh protocol.

pub mod json;
pub mod outside;
pub mod resolver;
pub mod synth;
pub mod catalog;
pub mod extract;
pub mod parse;
pub mod store;
