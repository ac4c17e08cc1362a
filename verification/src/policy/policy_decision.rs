//! The answers that Gecko's `nsIContentPolicy` understands.

use vstd::prelude::*;

verus! {

/// Load it.
pub const ACCEPT: i16 = 1;

/// Refuse it without a word.
pub const REJECT_REQUEST: i16 = -1;

/// Refuse it and show another page in its place.
pub const REJECT_TYPE: i16 = -2;

} // verus!
