//! A declarative command-line parameter engine.
//!
//! A schema of commands and their positional, typed sub-parameters is built
//! from an in-memory document tree, validated once, and then used to match
//! raw token streams with one of two strategies (location-based or
//! sequential).  Matched commands are routed to bound handlers by an event
//! dispatcher under a single- or multi-command policy.

pub mod dict;
pub mod doc;
pub mod engine;
pub mod errors;
pub mod events;
pub mod numeric;
pub mod schema;
pub mod text;
