//! Updates: deltas and complete filters, each accepted only with a good
//! signature. One that is refused takes the filter back a version and freezes
//! updates; while they are frozen, deltas have no effect.

use vstd::prelude::*;

use crate::signing::{
    fault_of, verify_delta, verify_fault, verify_payload, Delta, Payload, SignedDelta,
    SignedPayload, VerifyError, VerifyFault,
};
use crate::state::{BrxonState, Filter, Guard, SecurityGuard, State};
use crate::text::{decimal, decimal_text};

verus! {

// ---------------------------------------------------------------------------
// Errors
// ---------------------------------------------------------------------------

/// Why an update is refused.
#[derive(Debug)]
pub enum DeltaError {
    /// The signature or the digest is wrong.
    VerificationFailed(VerifyError),
    /// The delta does not start from the version in use.
    VersionMismatch { expected: u64, received: u64 },
    /// Updates are frozen.
    EngineFrozen { reason: String },
    /// The delta is not as long as the filter.
    BadDeltaSize(usize),
}

/// The content of a [`DeltaError`].
pub enum DeltaFault {
    VerificationFailed(VerifyFault),
    VersionMismatch { expected: u64, received: u64 },
    EngineFrozen { reason: Seq<char> },
    BadDeltaSize(nat),
}

impl View for DeltaError {
    type V = DeltaFault;

    open spec fn view(&self) -> DeltaFault {
        match self {
            DeltaError::VerificationFailed(e) => DeltaFault::VerificationFailed(e@),
            DeltaError::VersionMismatch { expected, received } => DeltaFault::VersionMismatch {
                expected: *expected,
                received: *received,
            },
            DeltaError::EngineFrozen { reason } => DeltaFault::EngineFrozen { reason: reason@ },
            DeltaError::BadDeltaSize(n) => DeltaFault::BadDeltaSize(*n as nat),
        }
    }
}

impl DeltaFault {
    /// What is shown to the user.
    pub open spec fn text(self) -> Seq<char> {
        match self {
            DeltaFault::VerificationFailed(fault) => "التحقق فشل: "@ + fault.text(),
            DeltaFault::VersionMismatch { expected, received } =>
                "تسلسل الإصدار خاطئ: متوقع from="@ + decimal(expected as nat) + " مستقبَل="@
                + decimal(received as nat),
            DeltaFault::EngineFrozen { reason } => "المحرك مجمّد بسبب: "@ + reason,
            DeltaFault::BadDeltaSize(n) => "حجم delta خاطئ: "@ + decimal(n) + " بايت"@,
        }
    }
}

impl DeltaError {
    /// What is shown to the user.
    pub fn message(&self) -> (r: String)
        ensures
            r@ == self@.text(),
    {
        match self {
            DeltaError::VerificationFailed(e) => {
                let mut out = String::from_str("التحقق فشل: ");
                out.append(e.message().as_str());
                out
            },
            DeltaError::VersionMismatch { expected, received } => {
                let mut out = String::from_str("تسلسل الإصدار خاطئ: متوقع from=");
                out.append(decimal_text(*expected).as_str());
                out.append(" مستقبَل=");
                out.append(decimal_text(*received).as_str());
                out
            },
            DeltaError::EngineFrozen { reason } => {
                let mut out = String::from_str("المحرك مجمّد بسبب: ");
                out.append(reason.as_str());
                out
            },
            DeltaError::BadDeltaSize(n) => {
                let mut out = String::from_str("حجم delta خاطئ: ");
                out.append(decimal_text(*n as u64).as_str());
                out.append(" بايت");
                out
            },
        }
    }
}

/// The fault that a result reports, if any.
pub open spec fn delta_fault_of(r: Result<(), DeltaError>) -> Option<DeltaFault> {
    match r {
        Ok(_) => None,
        Err(e) => Some(e@),
    }
}

// ---------------------------------------------------------------------------
// What an update does
// ---------------------------------------------------------------------------

/// The state after an update was refused: the version before, and no updates.
pub open spec fn frozen(s: State, reason: Seq<char>) -> State {
    State { filter: s.filter.rolled_back(), guard: Guard::Frozen { reason }, ..s }
}

/// What stands against a delta before its signature is looked at.
pub open spec fn precheck_fault(s: State, d: Delta) -> Option<DeltaFault> {
    if let Guard::Frozen { reason } = s.guard {
        Some(DeltaFault::EngineFrozen { reason })
    } else if d.from_version != s.filter.version {
        Some(
            DeltaFault::VersionMismatch { expected: s.filter.version, received: d.from_version },
        )
    } else if d.inner.bytes.len() != s.filter.m_bytes {
        Some(DeltaFault::BadDeltaSize(d.inner.bytes.len()))
    } else {
        None
    }
}

/// What stands against a delta, given what its verification found.
pub open spec fn judged_fault(s: State, d: Delta, found: Option<VerifyFault>) -> Option<
    DeltaFault,
> {
    match precheck_fault(s, d) {
        Some(fault) => Some(fault),
        None => match found {
            Some(fault) => Some(DeltaFault::VerificationFailed(fault)),
            None => None,
        },
    }
}

/// The state after a delta came in, given what its verification found. Where
/// updates are not frozen yet, any fault freezes them.
pub open spec fn judged(s: State, d: Delta, found: Option<VerifyFault>) -> State {
    match precheck_fault(s, d) {
        Some(DeltaFault::EngineFrozen { .. }) => s,
        Some(fault) => frozen(s, fault.text()),
        None => match found {
            Some(fault) => frozen(s, "فشل التحقق: "@ + fault.text()),
            None => State { filter: s.filter.changed(d.inner.bytes, d.to_version), ..s },
        },
    }
}

/// What stands against a delta.
pub open spec fn delta_fault(s: State, d: Delta) -> Option<DeltaFault> {
    judged_fault(s, d, verify_fault(d.inner, s.public_key))
}

/// The state after a delta came in.
pub open spec fn after_delta(s: State, d: Delta) -> State {
    judged(s, d, verify_fault(d.inner, s.public_key))
}

/// The state after a complete filter came in, given what its verification
/// found.
pub open spec fn replaced(s: State, bytes: Seq<u8>, version: u64, k: u32, found: Option<
    VerifyFault,
>) -> State {
    match found {
        Some(fault) => frozen(s, "فشل التحقق من الفلتر الكامل: "@ + fault.text()),
        None => State {
            filter: Filter {
                current: bytes,
                previous: s.filter.current,
                version,
                k,
                m_bytes: s.filter.m_bytes,
            },
            guard: Guard::Active,
            ..s
        },
    }
}

/// The state after a complete filter came in, signed as `p`.
pub open spec fn after_full_filter(s: State, p: Payload, k: u32) -> State {
    replaced(s, p.bytes, p.version, k, verify_fault(p, s.public_key))
}

// ---------------------------------------------------------------------------
// The engine
// ---------------------------------------------------------------------------

/// Applies updates to the state it owns.
#[derive(Debug)]
pub struct DeltaEngine {
    pub state: BrxonState,
}

impl View for DeltaEngine {
    type V = State;

    open spec fn view(&self) -> State {
        self.state@
    }
}

impl DeltaEngine {
    /// The engine for a state.
    pub fn new(state: BrxonState) -> (r: Self)
        ensures
            r@ == state@,
    {
        Self { state }
    }

    /// Takes in a delta. It is applied if and only if updates are not frozen,
    /// it starts from the version in use, it is as long as the filter, and its
    /// signature is good. Where updates are frozen, nothing changes. Any other
    /// failure takes the filter back a version and freezes updates.
    pub fn apply(&mut self, delta: &SignedDelta) -> (r: Result<(), DeltaError>)
        ensures
            final(self)@ == after_delta(old(self)@, delta@),
            delta_fault_of(r) == delta_fault(old(self)@, delta@),
            old(self)@.well_formed() ==> final(self)@.well_formed(),
    {
        match self.precheck(delta) {
            Ok(_) => {},
            Err(e) => {
                if !matches!(e, DeltaError::EngineFrozen { .. }) {
                    self.freeze_and_rollback(e.message());
                }
                return Err(e);
            },
        }
        let verdict = verify_delta(delta, &self.state.public_key);
        self.conclude(delta, verdict)
    }

    /// Whether a delta can be considered at all.
    pub fn precheck(&self, delta: &SignedDelta) -> (r: Result<(), DeltaError>)
        ensures
            delta_fault_of(r) == precheck_fault(self@, delta@),
    {
        match &self.state.guard {
            SecurityGuard::Frozen { reason } => {
                return Err(DeltaError::EngineFrozen { reason: reason.clone() });
            },
            SecurityGuard::Active => {},
        }
        let current: u64 = self.state.filter.version;
        if delta.from_version != current {
            return Err(
                DeltaError::VersionMismatch { expected: current, received: delta.from_version },
            );
        }
        if delta.inner.payload_bytes.len() != self.state.filter.m_bytes {
            return Err(DeltaError::BadDeltaSize(delta.inner.payload_bytes.len()));
        }
        Ok(())
    }

    /// Acts on the verdict about a delta that can be considered.
    pub fn conclude(&mut self, delta: &SignedDelta, verdict: Result<(), VerifyError>) -> (r: Result<
        (),
        DeltaError,
    >)
        requires
            precheck_fault(old(self)@, delta@) is None,
        ensures
            final(self)@ == judged(old(self)@, delta@, fault_of(verdict)),
            delta_fault_of(r) == judged_fault(old(self)@, delta@, fault_of(verdict)),
            old(self)@.well_formed() ==> final(self)@.well_formed(),
    {
        match verdict {
            Ok(_) => {
                match self.state.filter.apply_delta(
                    delta.inner.payload_bytes.as_slice(),
                    delta.to_version,
                ) {
                    Ok(_) => Ok(()),
                    Err(_) => Err(DeltaError::BadDeltaSize(0)),
                }
            },
            Err(e) => {
                let mut reason = String::from_str("فشل التحقق: ");
                reason.append(e.message().as_str());
                self.freeze_and_rollback(reason);
                Err(DeltaError::VerificationFailed(e))
            },
        }
    }

    /// Goes back to the version before and freezes updates.
    fn freeze_and_rollback(&mut self, reason: String)
        ensures
            final(self)@ == frozen(old(self)@, reason@),
    {
        self.state.filter.rollback();
        self.state.guard = SecurityGuard::Frozen { reason };
    }

    /// Takes in a complete filter. With a good signature it replaces the one in
    /// use, which is kept for a rollback, and updates are accepted again. With a
    /// bad one the filter is taken back a version and updates are frozen.
    pub fn load_full_filter(
        &mut self,
        filter_bytes: Vec<u8>,
        version: u64,
        k: u32,
        sha256_hex: &str,
        signature_hex: &str,
    ) -> (r: Result<(), DeltaError>)
        ensures
            ({
                let payload = Payload {
                    bytes: filter_bytes@,
                    sha256: sha256_hex@,
                    signature: signature_hex@,
                    version,
                };
                &&& final(self)@ == after_full_filter(old(self)@, payload, k)
                &&& delta_fault_of(r) == match verify_fault(payload, old(self)@.public_key) {
                    Some(fault) => Some(DeltaFault::VerificationFailed(fault)),
                    None => None,
                }
            }),
            old(self)@.well_formed() && 8 * filter_bytes@.len() <= usize::MAX
                ==> final(self)@.well_formed(),
    {
        let payload = SignedPayload {
            payload_bytes: filter_bytes,
            sha256: String::from_str(sha256_hex),
            signature: String::from_str(signature_hex),
            version,
        };
        let verdict = verify_payload(&payload, &self.state.public_key);
        self.conclude_full_filter(payload.payload_bytes, version, k, verdict)
    }

    /// Acts on the verdict about a complete filter.
    pub fn conclude_full_filter(
        &mut self,
        filter_bytes: Vec<u8>,
        version: u64,
        k: u32,
        verdict: Result<(), VerifyError>,
    ) -> (r: Result<(), DeltaError>)
        ensures
            final(self)@ == replaced(old(self)@, filter_bytes@, version, k, fault_of(verdict)),
            delta_fault_of(r) == match fault_of(verdict) {
                Some(fault) => Some(DeltaFault::VerificationFailed(fault)),
                None => None,
            },
            old(self)@.well_formed() && 8 * filter_bytes@.len() <= usize::MAX
                ==> final(self)@.well_formed(),
    {
        match verdict {
            Ok(_) => {
                std::mem::swap(&mut self.state.filter.previous, &mut self.state.filter.current);
                self.state.filter.current = filter_bytes;
                self.state.filter.version = version;
                self.state.filter.k = k;
                self.state.guard = SecurityGuard::Active;
                Ok(())
            },
            Err(e) => {
                let mut reason = String::from_str("فشل التحقق من الفلتر الكامل: ");
                reason.append(e.message().as_str());
                self.freeze_and_rollback(reason);
                Err(DeltaError::VerificationFailed(e))
            },
        }
    }
}

} // verus!
