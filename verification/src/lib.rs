//! The request core of a recipe catalogue service.
//!
//! A request borrows one pooled connection, runs one read query, and answers
//! with the rows wrapped in a JSON envelope, or with a fixed diagnostic when
//! the pool, the query or the encoding fails. This crate holds the rules of
//! that flow: the bookkeeping of a bounded pool, the steps of a request, the
//! check of serialized rows against their declared columns, and the framing of
//! the envelope.

pub mod embed;
pub mod encode;
pub mod json;
pub mod pool;
pub mod record;
pub mod request;
pub mod response;
pub mod scan;
