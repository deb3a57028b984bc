//! A small library for recording at most one visit per client identity per
//! calendar day.
//!
//! The heart of the library is the dedup protocol: derive a stable one-way
//! identity from a normalized client address, truncate the current time to a
//! calendar day, and record the pair `(day, identity)` at most once.  The
//! outcome of an attempt is always one of three values: the pair was newly
//! recorded, the pair had already been recorded today, or the datastore
//! failed for some unrelated reason.

pub mod bootstrap;
pub mod date;
pub mod identity;
pub mod outcome;
pub mod recorder;
