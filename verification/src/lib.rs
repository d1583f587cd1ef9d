//! Scanning and redaction of sensitive data in response bodies.
//!
//! A body is matched against a catalog of named patterns, candidate matches
//! are optionally filtered by a checksum algorithm, and confirmed matches can
//! be reported or masked in place.

pub mod algorithms;
pub mod commands;
pub mod httpbody;
pub mod matcher;
pub mod program;
pub mod search;
pub mod secrets;
pub mod utilities;
