//! What the blocker starts with.

use vstd::prelude::*;

use crate::bloom::{BLOOM_K, BLOOM_M_BYTES};
use crate::initial_filter::{embedded_fault, installed, load_embedded_filter, parts};
use crate::signing::{ed25519_decode_key, ed25519_key_check};
use crate::state::{BrxonState, Filter, Guard, State};

verus! {

/// The state before any filter was loaded, for a filter of the deployed size.
pub open spec fn blank(public_key: Seq<u8>, server_base: Seq<char>) -> State {
    State {
        filter: Filter::empty(BLOOM_M_BYTES, BLOOM_K),
        guard: Guard::Active,
        public_key,
        server_base,
    }
}

/// The state to start with: with the embedded filter in use, or blank where it
/// is not taken.
pub open spec fn initial(public_key: Seq<u8>, server_base: Seq<char>, embedded: Seq<u8>) -> State {
    let s = blank(public_key, server_base);
    if embedded_fault(s, embedded) is None {
        installed(s, parts(embedded))
    } else {
        s
    }
}

/// The state to start with, and why the embedded filter was not taken, if it
/// was not.
pub fn initial_state(public_key: &[u8; 32], server_base: &str, embedded: &[u8]) -> (r: (
    BrxonState,
    Option<String>,
))
    ensures
        r.0@ == initial(public_key@, server_base@, embedded@),
        r.0@.well_formed(),
        r.1 is None <==> embedded_fault(blank(public_key@, server_base@), embedded@) is None,
        r.1 matches Some(text) ==> embedded_fault(blank(public_key@, server_base@), embedded@)
            == Some(text@),
{
    let mut state = BrxonState::new(
        *public_key,
        String::from_str(server_base),
        BLOOM_M_BYTES,
        BLOOM_K,
    );
    match load_embedded_filter(&mut state, embedded) {
        Ok(_) => (state, None),
        Err(text) => (state, Some(text)),
    }
}

/// Starts up: refuses a key that cannot be decoded, and otherwise gives the
/// state to start with, and why the embedded filter was not taken, if it was
/// not.
pub fn start(public_key: &[u8; 32], server_base: &str, embedded: &[u8]) -> (r: Result<
    (BrxonState, Option<String>),
    String,
>)
    ensures
        r is Ok <==> ed25519_key_check(public_key@) is Ok,
        r matches Err(text) ==> text@ == "مفتاح عام غير صالح: "@ + ed25519_key_check(
            public_key@,
        )->Err_0,
        r matches Ok(started) ==> {
            let fault = embedded_fault(blank(public_key@, server_base@), embedded@);
            &&& started.0@ == initial(public_key@, server_base@, embedded@)
            &&& started.0@.well_formed()
            &&& started.1 is None <==> fault is None
            &&& started.1 matches Some(text) ==> fault == Some(text@)
        },
{
    match ed25519_decode_key(public_key) {
        Ok(_) => Ok(initial_state(public_key, server_base, embedded)),
        Err(text) => {
            let mut message = String::from_str("مفتاح عام غير صالح: ");
            message.append(text.as_str());
            Err(message)
        },
    }
}

} // verus!
