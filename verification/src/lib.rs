//! A verified core for a two-phase prediction-market oracle.
//!
//! The execution phase fetches one event from an upstream HTTP API,
//! parses its JSON schema, extracts the first outcome price of every
//! sub-market, and serializes a normalized response. The tally phase
//! validates that exactly one reveal was collected and forwards its
//! payload after schema validation. All byte-level JSON handling is
//! implemented and verified here; the host runtime supplies the bytes.

pub mod json;
pub mod laws;
pub mod pipeline;
pub mod roundtrip;
pub mod schema;
pub mod tokens;
