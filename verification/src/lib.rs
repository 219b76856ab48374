//! A verified bridge between a sandboxed contract and a document database.
//!
//! The contract side issues exactly two operations, a find-all query and a
//! single-document create, through a numerically addressed host boundary.
//! This crate holds the verified core of that bridge: the status mapper,
//! the query normalizer, the payload codec with its two nested envelopes,
//! and the dispatcher that ties them together.

pub mod bridge;
pub mod codec;
pub mod contract;
pub mod envelope;
pub mod json;
pub mod normalize;
pub mod parse;
pub mod pretty;
pub mod roundtrip;
pub mod ser;
pub mod status;
