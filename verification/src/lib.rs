//! A minimal narrative registry: an author publishes a record holding an
//! opaque metadata reference and a confidence score, and any participant may
//! attach weight to that record by staking value against it.
//!
//! Records live in a content-addressed index: one record per
//! (author, metadata reference) pair, created once and never replaced.
//! The stake accumulator only ever grows, and every operation either commits
//! in full or leaves the registry exactly as it was.

pub mod errors;
pub mod laws;
pub mod record;
pub mod registry;
