//! An embeddable content blocker. Requests are looked up by domain in a signed
//! Bloom filter, which ships with the product and is kept current by signed
//! deltas.
//!
//! - [`bloom`]: lookups, and the reduction of a URI to a domain.
//! - [`policy`]: the decision on a request.
//! - [`state`], [`delta`]: the filter in use, and updates to it.
//! - [`signing`]: signatures on filters and deltas.
//! - [`transport`]: the stream of updates, and retries.
//! - [`initial_filter`], [`startup`]: the filter file, and what the blocker
//!   starts with.
//! - [`build_filter`], [`key_file`]: building and signing a filter from block
//!   lists, and the note on its keys.
//! - [`laws`]: what holds of all this taken together.

pub mod base64_bytes;
pub mod bloom;
pub mod build_filter;
pub mod delta;
pub mod hexadecimal;
pub mod initial_filter;
pub mod key_file;
pub mod laws;
pub mod little_endian;
pub mod policy;
pub mod signing;
pub mod startup;
pub mod state;
pub mod text;
pub mod transport;
