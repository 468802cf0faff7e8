//! Core of a minimal HTTP relay service.
//!
//! The service exposes two routes: a proxy route that issues one outbound
//! GET to a configured upstream, decodes the upstream's JSON body into a
//! fixed-shape record, and re-serializes that record to the caller; and a
//! static route that answers with a constant string. This crate holds the
//! verified parts: the wire-format codec for the record, the per-request
//! decision logic that maps upstream outcomes to HTTP replies, and the
//! startup and listener configuration rules. The unverified binary around
//! it performs the actual socket and HTTP I/O.

pub mod config;
pub mod decode;
pub mod encode;
pub mod json;
pub mod laws;
pub mod record;
pub mod relay;
pub mod strutil;
