//! A cache of authorised sessions: which flows may still be forwarded to a
//! phantom address, and until when.
//!
//! A registration grants a flow the right to be forwarded for some time.
//! `details` checks registrations and derives the key of a flow, `tracker`
//! keeps the keys with the instants at which they expire, and `ingest`
//! decides what becomes of what arrives on the transport. `addr` and `parse`
//! write and read addresses. `laws` proves what holds of all of them, and of
//! the store over any sequence of operations.

pub mod addr;
mod clock;
pub mod details;
pub mod fields;
pub mod ingest;
pub mod laws;
pub mod parse;
pub mod text;
pub mod tracker;
