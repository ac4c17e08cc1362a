//! What updates do to the filter, and what is needed for them to be accepted,
//! told by bits, bytes and fields.

use vstd::arithmetic::power::pow;
use vstd::prelude::*;

use crate::bloom::bit_set;
use crate::build_filter::BuildOptions;
use crate::delta::{
    after_delta, after_full_filter, delta_fault, delta_fault_of, judged, judged_fault, replaced,
    DeltaEngine, DeltaError, DeltaFault,
};
use crate::hexadecimal::{hex_bytes, hex_refusal, hex_text, is_hex};
use crate::initial_filter::{
    embedded_fault, file_fault, installed, parts, refused_text, Embedded, EmbeddedFilter,
};
use crate::laws::formats::bytes_are_digits;
use crate::laws::lookup::same_bits_same_bytes;
use crate::little_endian::le_bytes;
use crate::signing::{
    ed25519_check, fault_of, sha256, signed_message, verify_fault, Delta, Payload, SignedDelta,
    SignedPayload, VerifyError, VerifyFault,
};
use crate::startup::{blank, initial};
use crate::state::{
    wrong_size_text, xored, zeros, BrxonState, Filter, FilterState, Guard, SecurityGuard, State,
};
use crate::text::decimal;
use crate::transport::FullFilterResponse;

verus! {

// ---------------------------------------------------------------------------
// The exclusive or
// ---------------------------------------------------------------------------

/// A delta changes a bit exactly where it has a one: after it, a bit is set if
/// and only if it was set before or is in the delta, but not both. Bits behind
/// the end of the delta stay as they are, and the number of bytes does too.
pub proof fn bits_change_where_the_delta_has_ones(bits: Seq<u8>, delta: Seq<u8>, j: int)
    requires
        0 <= j < 8 * bits.len(),
    ensures
        xored(bits, delta).len() == bits.len(),
        j < 8 * delta.len() ==> (bit_set(xored(bits, delta), j) <==> (bit_set(bits, j)
            != bit_set(delta, j))),
        j >= 8 * delta.len() ==> (bit_set(xored(bits, delta), j) <==> bit_set(bits, j)),
{
    let i = j / 8;
    let s = (j % 8) as u8;
    if j < 8 * delta.len() {
        let a = bits[i];
        let b = delta[i];
        assert(xored(bits, delta)[i] == a ^ b);
        assert(s < 8 ==> (((a ^ b) >> s) & 1 == 1 <==> ((a >> s) & 1 == 1) != ((b >> s) & 1 == 1)))
            by (bit_vector);
    } else {
        assert(xored(bits, delta)[i] == bits[i]);
    }
}

/// A delta without a one changes nothing.
pub proof fn blank_delta_changes_nothing(bits: Seq<u8>, n: nat)
    ensures
        xored(bits, zeros(n)) == bits,
        zeros(n).len() == n,
        forall|i: int| 0 <= i < n ==> #[trigger] zeros(n)[i] == 0,
{
    assert forall|j: int| 0 <= j < 8 * bits.len() implies (#[trigger] bit_set(
        xored(bits, zeros(n)),
        j,
    ) <==> bit_set(bits, j)) by {
        bits_change_where_the_delta_has_ones(bits, zeros(n), j);
        if j < 8 * n {
            let s = (j % 8) as u8;
            assert(zeros(n)[j / 8] == 0u8);
            assert((0u8 >> s) & 1 == 0) by (bit_vector);
        }
    }
    same_bits_same_bytes(xored(bits, zeros(n)), bits);
}

/// The order of two deltas makes no difference to the bits.
pub proof fn deltas_commute(bits: Seq<u8>, one: Seq<u8>, other: Seq<u8>)
    ensures
        xored(xored(bits, one), other) == xored(xored(bits, other), one),
{
    let a = xored(xored(bits, one), other);
    let b = xored(xored(bits, other), one);
    assert forall|j: int| 0 <= j < 8 * a.len() implies (#[trigger] bit_set(a, j) <==> bit_set(
        b,
        j,
    )) by {
        bits_change_where_the_delta_has_ones(bits, one, j);
        bits_change_where_the_delta_has_ones(bits, other, j);
        bits_change_where_the_delta_has_ones(xored(bits, one), other, j);
        bits_change_where_the_delta_has_ones(xored(bits, other), one, j);
    }
    same_bits_same_bytes(a, b);
}

// ---------------------------------------------------------------------------
// The two versions of the filter
// ---------------------------------------------------------------------------

/// A delta puts the bits that were in use aside, sets the version that it leads
/// to, and leaves the number of tested bits and the size of deltas alone.
pub proof fn delta_keeps_the_old_bits(f: Filter, delta: Seq<u8>, version: u64)
    ensures
        f.changed(delta, version).previous == f.current,
        f.changed(delta, version).current.len() == f.current.len(),
        forall|j: int|
            0 <= j < 8 * f.current.len() && j < 8 * delta.len() ==> (#[trigger] bit_set(
                f.changed(delta, version).current,
                j,
            ) <==> bit_set(f.current, j) != bit_set(delta, j)),
        f.changed(delta, version).version == version,
        f.changed(delta, version).k == f.k,
        f.changed(delta, version).m_bytes == f.m_bytes,
{
    assert forall|j: int| 0 <= j < 8 * f.current.len() && j < 8 * delta.len() implies (
    #[trigger] bit_set(f.changed(delta, version).current, j) <==> bit_set(f.current, j) != bit_set(
        delta,
        j,
    )) by {
        bits_change_where_the_delta_has_ones(f.current, delta, j);
    }
}

/// A rollback exchanges the two versions of the bits and counts the version
/// down, but not below zero.
pub proof fn rollback_exchanges(f: Filter)
    ensures
        f.rolled_back().current == f.previous,
        f.rolled_back().previous == f.current,
        f.version > 0 ==> f.rolled_back().version == f.version - 1,
        f.version == 0 ==> f.rolled_back().version == 0,
        f.rolled_back().k == f.k,
        f.rolled_back().m_bytes == f.m_bytes,
{
}

/// A filter starts without a set bit, in both versions, and at version zero; a
/// state starts with such a filter, and ready only once a version is loaded and
/// updates are not frozen.
pub proof fn filters_start_blank(m_bytes: usize, k: u32, s: State)
    ensures
        ({
            let f = Filter::empty(m_bytes, k);
            &&& f.current.len() == m_bytes
            &&& f.previous == f.current
            &&& forall|i: int| 0 <= i < m_bytes ==> #[trigger] f.current[i] == 0
            &&& f.version == 0
            &&& f.k == k
            &&& f.m_bytes == m_bytes
        }),
        s.ready() <==> s.filter.version > 0 && s.guard is Active,
        s.well_formed() <==> 8 * s.filter.current.len() <= usize::MAX && 8
            * s.filter.previous.len() <= usize::MAX,
{
}

// ---------------------------------------------------------------------------
// What is accepted
// ---------------------------------------------------------------------------

/// A payload is accepted if and only if it is not empty, the digest that came
/// with it is its own, its signature is 64 bytes in hexadecimal, and the key
/// accepts these for the digest followed by the eight bytes of the version.
pub proof fn accepted_iff_signed(p: Payload, key: Seq<u8>)
    ensures
        verify_fault(p, key) is None <==> {
            &&& p.bytes.len() > 0
            &&& p.sha256 == hex_text(sha256(p.bytes))
            &&& is_hex(p.signature)
            &&& p.signature.len() == 128
            &&& ed25519_check(
                key,
                sha256(p.bytes) + le_bytes(p.version as nat, 8),
                hex_bytes(p.signature),
            ) is Ok
        },
{
}

/// What a refused payload is told: the first thing that is wrong with it.
pub proof fn refusals_say_why(p: Payload, key: Seq<u8>)
    ensures
        ({
            let fault = verify_fault(p, key);
            let digest = hex_text(sha256(p.bytes));
            let check = ed25519_check(
                key,
                sha256(p.bytes) + le_bytes(p.version as nat, 8),
                hex_bytes(p.signature),
            );
            &&& p.bytes.len() == 0 <==> fault == Some(VerifyFault::EmptyPayload)
            &&& p.bytes.len() > 0 && p.sha256 != digest <==> fault == Some(
                VerifyFault::HashMismatch { expected: p.sha256, received: digest },
            ) && p.sha256 != digest
            &&& p.bytes.len() > 0 && p.sha256 == digest ==> {
                &&& !is_hex(p.signature) ==> fault == Some(
                    VerifyFault::BadSignature(hex_refusal(p.signature)),
                )
                &&& is_hex(p.signature) && p.signature.len() != 128 ==> fault == Some(
                    VerifyFault::BadSignatureSize((p.signature.len() / 2) as nat),
                )
                &&& is_hex(p.signature) && p.signature.len() == 128 && check is Err ==> fault
                    == Some(VerifyFault::BadSignature(check->Err_0))
            }
        }),
{
}

/// What a refused delta is told: that updates are frozen, that it does not start
/// from the version in use, that it is not as long as the filter, or what is
/// wrong with its signature, in this order.
pub proof fn refused_deltas_say_why(s: State, d: Delta)
    ensures
        ({
            let fault = delta_fault(s, d);
            let started = d.from_version == s.filter.version;
            let fits = d.inner.bytes.len() == s.filter.m_bytes;
            let found = verify_fault(d.inner, s.public_key);
            &&& s.guard is Frozen ==> fault == Some(
                DeltaFault::EngineFrozen { reason: s.guard->reason },
            )
            &&& s.guard is Active && !started ==> fault == Some(
                DeltaFault::VersionMismatch {
                    expected: s.filter.version,
                    received: d.from_version,
                },
            )
            &&& s.guard is Active && started && !fits ==> fault == Some(
                DeltaFault::BadDeltaSize(d.inner.bytes.len()),
            )
            &&& s.guard is Active && started && fits && found is Some ==> fault == Some(
                DeltaFault::VerificationFailed(found->0),
            )
            &&& s.guard is Active && started && fits && found is None ==> fault is None
        }),
{
}

/// What is signed is the digest and then the eight bytes of the version, the
/// lowest first.
pub proof fn signed_message_layout(digest: Seq<u8>, version: u64)
    ensures
        signed_message(digest, version).len() == digest.len() + 8,
        signed_message(digest, version).take(digest.len() as int) == digest,
        forall|i: int|
            0 <= i < 8 ==> #[trigger] signed_message(digest, version)[digest.len() + i] == (
            version as int / pow(256, i as nat)) % 256,
{
    bytes_are_digits(version as nat, 8, 0);
    assert(signed_message(digest, version).take(digest.len() as int) =~= digest);
    assert forall|i: int| 0 <= i < 8 implies #[trigger] signed_message(digest, version)[digest.len()
        + i] == (version as int / pow(256, i as nat)) % 256 by {
        bytes_are_digits(version as nat, 8, i);
        assert(signed_message(digest, version)[digest.len() + i] == le_bytes(
            version as nat,
            8,
        )[i]);
    }
}

/// What a verdict leads to, whatever it is: a delta that fits is applied on a
/// good one; on a bad one, as where it does not fit, the filter is rolled back
/// and updates are frozen; and nothing changes while they are. A complete filter
/// replaces the bits on a good verdict, and is treated like a delta on a bad one.
pub proof fn verdicts_decide(
    s: State,
    d: Delta,
    bytes: Seq<u8>,
    version: u64,
    k: u32,
    found: Option<VerifyFault>,
)
    ensures
        ({
            let fits = d.from_version == s.filter.version && d.inner.bytes.len()
                == s.filter.m_bytes;
            let t = judged(s, d, found);
            &&& s.guard is Frozen ==> t == s && judged_fault(s, d, found) is Some
            &&& s.guard is Active && fits && found is None ==> judged_fault(s, d, found) is None
                && t.guard is Active && t.filter == s.filter.changed(d.inner.bytes, d.to_version)
            &&& s.guard is Active && fits && found is Some ==> judged_fault(s, d, found) == Some(
                DeltaFault::VerificationFailed(found->0),
            ) && t.guard is Frozen && t.filter == s.filter.rolled_back()
            &&& s.guard is Active && !fits ==> judged_fault(s, d, found) is Some && t.guard is Frozen
                && t.filter == s.filter.rolled_back()
        }),
        ({
            let t = replaced(s, bytes, version, k, found);
            &&& found is None ==> t.guard is Active && t.filter.current == bytes
                && t.filter.previous == s.filter.current && t.filter.version == version
                && t.filter.k == k && t.filter.m_bytes == s.filter.m_bytes
            &&& found is Some ==> t.guard is Frozen && t.filter == s.filter.rolled_back()
        }),
        found is Some ==> refused_text(found->0) == "فشل التحقق من الفلتر المضمّن: "@
            + found->0.text(),
{
}

/// What is recorded where an update freezes the engine.
pub proof fn frozen_for_a_reason(s: State, d: Delta, p: Payload, k: u32)
    ensures
        s.guard is Active ==> match delta_fault(s, d) {
            None => after_delta(s, d).guard is Active,
            Some(DeltaFault::VerificationFailed(fault)) => after_delta(s, d).guard == (
            Guard::Frozen { reason: "فشل التحقق: "@ + fault.text() }),
            Some(fault) => after_delta(s, d).guard == (Guard::Frozen { reason: fault.text() }),
        },
        match verify_fault(p, s.public_key) {
            None => after_full_filter(s, p, k).guard is Active,
            Some(fault) => after_full_filter(s, p, k).guard == (Guard::Frozen {
                reason: "فشل التحقق من الفلتر الكامل: "@ + fault.text(),
            }),
        },
{
}

/// An accepted delta changes the bits in use by its own bits, and the version to
/// the one it leads to; a complete filter that is accepted replaces the bits.
pub proof fn accepted_updates_take_effect(s: State, d: Delta, p: Payload, k: u32)
    ensures
        delta_fault(s, d) is None ==> {
            let t = after_delta(s, d);
            &&& t.filter.version == d.to_version
            &&& t.filter.previous == s.filter.current
            &&& t.filter.current.len() == s.filter.current.len()
            &&& forall|j: int|
                0 <= j < 8 * s.filter.current.len() && j < 8 * d.inner.bytes.len() ==> (
                #[trigger] bit_set(t.filter.current, j) <==> bit_set(s.filter.current, j)
                    != bit_set(d.inner.bytes, j))
            &&& t.filter.k == s.filter.k
            &&& t.guard == s.guard
        },
        verify_fault(p, s.public_key) is None ==> {
            let t = after_full_filter(s, p, k);
            &&& t.filter.current == p.bytes
            &&& t.filter.previous == s.filter.current
            &&& t.filter.version == p.version
            &&& t.filter.k == k
        },
{
    delta_keeps_the_old_bits(s.filter, d.inner.bytes, d.to_version);
}

// ---------------------------------------------------------------------------
// The embedded filter
// ---------------------------------------------------------------------------

/// An embedded filter is taken if and only if its file can be read and its
/// payload is accepted. It then is in use as the current and as the previous
/// version, and the rest of the state stays.
pub proof fn embedded_filter_taken_iff_signed(s: State, d: Seq<u8>)
    ensures
        embedded_fault(s, d) is None <==> file_fault(d) is None && verify_fault(
            Payload {
                bytes: parts(d).bits,
                sha256: hex_text(parts(d).sha256),
                signature: hex_text(parts(d).sig),
                version: parts(d).version,
            },
            s.public_key,
        ) is None,
        file_fault(d) is Some ==> embedded_fault(s, d) == file_fault(d),
        file_fault(d) is None && embedded_fault(s, d) is Some ==> embedded_fault(s, d) == Some(
            "فشل التحقق من الفلتر المضمّن: "@ + verify_fault(parts(d).payload(), s.public_key)->0.text(),
        ),
{
}

/// What an embedded filter is once it is in use.
pub proof fn embedded_filter_in_both_copies(s: State, f: Embedded)
    ensures
        installed(s, f).filter.current == f.bits,
        installed(s, f).filter.previous == f.bits,
        installed(s, f).filter.version == f.version,
        installed(s, f).filter.k == f.k,
        installed(s, f).guard == s.guard,
{
}

/// The blocker starts unfrozen, with the key and the address it was given: with
/// the embedded filter in use where that is taken, and blank where it is not.
pub proof fn start_is_embedded_or_blank(key: Seq<u8>, address: Seq<char>, d: Seq<u8>)
    ensures
        ({
            let s = initial(key, address, d);
            &&& s.public_key == key
            &&& s.server_base == address
            &&& s.guard is Active
            &&& s.filter.m_bytes == 4_792_530
            &&& embedded_fault(blank(key, address), d) is None ==> s.filter.current == parts(d).bits
                && s.filter.previous == parts(d).bits && s.filter.version == parts(d).version
                && s.filter.k == parts(d).k
            &&& embedded_fault(blank(key, address), d) is Some ==> s.filter.version == 0
                && s.filter.k == 13 && s.filter.current == zeros(4_792_530) && s.filter.previous
                == zeros(4_792_530)
        }),
{
}

// ---------------------------------------------------------------------------
// What users are told
// ---------------------------------------------------------------------------

/// The messages name what is wrong, with the values that show it.
pub proof fn messages(fault: VerifyFault, delta: DeltaFault, m: nat, n: nat)
    ensures
        match fault {
            VerifyFault::HashMismatch { expected, received } => fault.text()
                == "SHA256 لا يتطابق: متوقع="@ + expected + " مستقبَل="@ + received,
            VerifyFault::BadSignature(why) => fault.text() == "توقيع Ed25519 غير صحيح: "@ + why,
            VerifyFault::BadSignatureSize(size) => fault.text() == "حجم التوقيع خاطئ: "@
                + decimal(size) + " بايت"@,
            VerifyFault::EmptyPayload => fault.text() == "بيانات الـ payload فارغة"@,
        },
        match delta {
            DeltaFault::VerificationFailed(inner) => delta.text() == "التحقق فشل: "@ + inner.text(),
            DeltaFault::VersionMismatch { expected, received } => delta.text()
                == "تسلسل الإصدار خاطئ: متوقع from="@ + decimal(expected as nat) + " مستقبَل="@
                + decimal(received as nat),
            DeltaFault::EngineFrozen { reason } => delta.text() == "المحرك مجمّد بسبب: "@ + reason,
            DeltaFault::BadDeltaSize(size) => delta.text() == "حجم delta خاطئ: "@ + decimal(size)
                + " بايت"@,
        },
        wrong_size_text(n, m) == "حجم delta ("@ + decimal(n) + ") لا يتطابق مع حجم الفلتر ("@
            + decimal(m) + ")"@,
{
}

// ---------------------------------------------------------------------------
// Views
// ---------------------------------------------------------------------------

/// The models show the fields they are named after.
pub proof fn models_show_the_fields(
    f: FilterState,
    s: BrxonState,
    p: SignedPayload,
    d: SignedDelta,
)
    ensures
        f@.current == f.current@ && f@.previous == f.previous@ && f@.version == f.version && f@.k
            == f.k && f@.m_bytes == f.m_bytes,
        s@.filter == s.filter@ && s@.guard == s.guard@ && s@.public_key == s.public_key@
            && s@.server_base == s.server_base@,
        p@.bytes == p.payload_bytes@ && p@.sha256 == p.sha256@ && p@.signature == p.signature@
            && p@.version == p.version,
        d@.inner == d.inner@ && d@.from_version == d.from_version && d@.to_version == d.to_version,
{
}

/// The models of what comes from outside show the fields they are named after.
pub proof fn models_of_answers_show_the_fields(
    full: FullFilterResponse,
    e: EmbeddedFilter,
    o: BuildOptions,
    i: int,
    engine: DeltaEngine,
)
    ensures
        full.payload() == (Payload {
            bytes: full.filter_bytes@,
            sha256: full.sha256@,
            signature: full.signature@,
            version: full.version,
        }),
        e@ == (Embedded {
            version: e.version,
            k: e.k,
            m_bytes: e.m_bytes,
            sha256: e.sha256@,
            sig: e.sig@,
            bits: e.bits@,
        }),
        e@.payload() == (Payload {
            bytes: e.bits@,
            sha256: hex_text(e.sha256@),
            signature: hex_text(e.sig@),
            version: e.version,
        }),
        o@.lists.len() == o.lists@.len(),
        o@.output == o.output@,
        0 <= i < o.lists@.len() ==> o@.lists[i] == (o.lists@[i].label@, o.lists@[i].path@),
        engine@ == engine.state@,
{
}

/// A result reports the fault of its error, and none where it has none; and an
/// error shows its values as they are.
pub proof fn results_report_their_errors(e: VerifyError, g: DeltaError, guard: SecurityGuard)
    ensures
        fault_of::<()>(Ok(())) is None,
        fault_of::<()>(Err(e)) == Some(e@),
        delta_fault_of(Ok(())) is None,
        delta_fault_of(Err(g)) == Some(g@),
        match e {
            VerifyError::HashMismatch { expected, received } => e@ == (VerifyFault::HashMismatch {
                expected: expected@,
                received: received@,
            }),
            VerifyError::BadSignature(text) => e@ == VerifyFault::BadSignature(text@),
            VerifyError::BadSignatureSize(n) => e@ == VerifyFault::BadSignatureSize(n as nat),
            VerifyError::EmptyPayload => e@ == VerifyFault::EmptyPayload,
        },
        match g {
            DeltaError::VerificationFailed(inner) => g@ == DeltaFault::VerificationFailed(inner@),
            DeltaError::VersionMismatch { expected, received } => g@ == (
            DeltaFault::VersionMismatch { expected, received }),
            DeltaError::EngineFrozen { reason } => g@ == (DeltaFault::EngineFrozen {
                reason: reason@,
            }),
            DeltaError::BadDeltaSize(n) => g@ == DeltaFault::BadDeltaSize(n as nat),
        },
        match guard {
            SecurityGuard::Active => guard@ == Guard::Active,
            SecurityGuard::Frozen { reason } => guard@ == (Guard::Frozen { reason: reason@ }),
        },
{
}

} // verus!
