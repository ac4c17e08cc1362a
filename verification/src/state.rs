//! The state that lookups read and updates change: two versions of the filter,
//! and whether updates are accepted.

use vstd::prelude::*;

use crate::text::{decimal, decimal_text};

verus! {

// ---------------------------------------------------------------------------
// The guard
// ---------------------------------------------------------------------------

/// Whether updates are accepted. Once frozen, no delta is, until a complete
/// filter with a good signature arrives. Requests are looked up either way.
#[derive(Debug, Clone, PartialEq, Eq)]
pub enum SecurityGuard {
    /// Updates are accepted.
    Active,
    /// Tampering was detected: updates are refused, and work goes on with the
    /// version before.
    Frozen { reason: String },
}

/// The content of a [`SecurityGuard`].
pub enum Guard {
    Active,
    Frozen { reason: Seq<char> },
}

impl View for SecurityGuard {
    type V = Guard;

    open spec fn view(&self) -> Guard {
        match self {
            SecurityGuard::Active => Guard::Active,
            SecurityGuard::Frozen { reason } => Guard::Frozen { reason: reason@ },
        }
    }
}

impl SecurityGuard {
    /// Whether updates are accepted.
    pub fn is_active(&self) -> (r: bool)
        ensures
            r == (self@ is Active),
    {
        matches!(self, SecurityGuard::Active)
    }
}

// ---------------------------------------------------------------------------
// The filter
// ---------------------------------------------------------------------------

/// Two versions of the filter.
#[derive(Debug, Clone)]
pub struct FilterState {
    /// The bits in use.
    pub current: Vec<u8>,
    /// The bits before the last change.
    pub previous: Vec<u8>,
    /// Version of the bits in use; 0 before any were loaded.
    pub version: u64,
    /// Number of bits that are tested for a domain.
    pub k: u32,
    /// Size that a delta must have, in bytes.
    pub m_bytes: usize,
}

/// The content of a [`FilterState`].
#[verifier::ext_equal]
pub struct Filter {
    pub current: Seq<u8>,
    pub previous: Seq<u8>,
    pub version: u64,
    pub k: u32,
    pub m_bytes: usize,
}

impl View for FilterState {
    type V = Filter;

    open spec fn view(&self) -> Filter {
        Filter {
            current: self.current@,
            previous: self.previous@,
            version: self.version,
            k: self.k,
            m_bytes: self.m_bytes,
        }
    }
}

/// `n` bytes, all zero.
pub open spec fn zeros(n: nat) -> Seq<u8> {
    Seq::new(n, |i: int| 0u8)
}

/// `bits` with each byte of `delta` exclusive-ored onto the byte at the same
/// place. Bytes without a counterpart stay as they are.
pub open spec fn xored(bits: Seq<u8>, delta: Seq<u8>) -> Seq<u8> {
    Seq::new(
        bits.len(),
        |i: int|
            if i < delta.len() {
                bits[i] ^ delta[i]
            } else {
                bits[i]
            },
    )
}

impl Filter {
    /// The filter before anything was loaded.
    pub open spec fn empty(m_bytes: usize, k: u32) -> Filter {
        Filter {
            current: zeros(m_bytes as nat),
            previous: zeros(m_bytes as nat),
            version: 0,
            k,
            m_bytes,
        }
    }

    /// The filter after a delta.
    pub open spec fn changed(self, delta: Seq<u8>, new_version: u64) -> Filter {
        Filter {
            current: xored(self.current, delta),
            previous: self.current,
            version: new_version,
            ..self
        }
    }

    /// The filter after going back to the version before.
    pub open spec fn rolled_back(self) -> Filter {
        Filter {
            current: self.previous,
            previous: self.current,
            version: if self.version > 0 {
                (self.version - 1) as u64
            } else {
                0
            },
            ..self
        }
    }
}

/// What is shown where a delta has the wrong size.
pub open spec fn wrong_size_text(delta_len: nat, m_bytes: nat) -> Seq<char> {
    "حجم delta ("@ + decimal(delta_len) + ") لا يتطابق مع حجم الفلتر ("@ + decimal(m_bytes) + ")"@
}

impl FilterState {
    /// The filter before anything was loaded.
    pub fn empty(m_bytes: usize, k: u32) -> (r: Self)
        ensures
            r@ == Filter::empty(m_bytes, k),
    {
        let current = vec![0u8; m_bytes];
        let previous = vec![0u8; m_bytes];
        assert(current@ =~= zeros(m_bytes as nat));
        assert(previous@ =~= zeros(m_bytes as nat));
        Self { current, previous, version: 0, k, m_bytes }
    }

    /// Exclusive-ors a delta onto the bits in use, keeping the old ones for a
    /// rollback. A delta of the wrong size is refused and changes nothing.
    pub fn apply_delta(&mut self, delta: &[u8], new_version: u64) -> (r: Result<(), String>)
        ensures
            delta@.len() != old(self).m_bytes ==> {
                &&& final(self)@ == old(self)@
                &&& r matches Err(text) && text@ == wrong_size_text(
                    delta@.len(),
                    old(self).m_bytes as nat,
                )
            },
            delta@.len() == old(self).m_bytes ==> {
                &&& r is Ok
                &&& final(self)@ == old(self)@.changed(delta@, new_version)
            },
    {
        if delta.len() != self.m_bytes {
            let mut text = String::from_str("حجم delta (");
            text.append(decimal_text(delta.len() as u64).as_str());
            text.append(") لا يتطابق مع حجم الفلتر (");
            text.append(decimal_text(self.m_bytes as u64).as_str());
            text.append(")");
            return Err(text);
        }
        let ghost before = self.current@;
        self.previous = self.current.clone();
        assert(self.previous@ == before);
        let mut i: usize = 0;
        while i < self.current.len() && i < delta.len()
            invariant
                i <= self.current@.len(),
                i <= delta@.len(),
                self.current@.len() == before.len(),
                self.previous@ == before,
                self.version == old(self).version,
                self.k == old(self).k,
                self.m_bytes == old(self).m_bytes,
                forall|j: int| 0 <= j < i ==> self.current@[j] == xored(before, delta@)[j],
                forall|j: int| i <= j < before.len() ==> self.current@[j] == before[j],
            decreases delta@.len() - i,
        {
            let mixed: u8 = self.current[i] ^ delta[i];
            self.current[i] = mixed;
            i += 1;
        }
        assert(self.current@ =~= xored(before, delta@));
        self.version = new_version;
        Ok(())
    }

    /// Goes back to the version before.
    pub fn rollback(&mut self)
        ensures
            final(self)@ == old(self)@.rolled_back(),
    {
        std::mem::swap(&mut self.current, &mut self.previous);
        if self.version > 0 {
            self.version -= 1;
        }
    }
}

// ---------------------------------------------------------------------------
// The complete state
// ---------------------------------------------------------------------------

/// All that the blocker knows.
#[derive(Debug, Clone)]
pub struct BrxonState {
    pub filter: FilterState,
    pub guard: SecurityGuard,
    /// The key that updates are checked against.
    pub public_key: [u8; 32],
    /// Address of the server.
    pub server_base: String,
}

/// The content of a [`BrxonState`].
pub struct State {
    pub filter: Filter,
    pub guard: Guard,
    pub public_key: Seq<u8>,
    pub server_base: Seq<char>,
}

impl View for BrxonState {
    type V = State;

    open spec fn view(&self) -> State {
        State {
            filter: self.filter@,
            guard: self.guard@,
            public_key: self.public_key@,
            server_base: self.server_base@,
        }
    }
}

impl State {
    /// Whether a filter is loaded and updates are not frozen.
    pub open spec fn ready(self) -> bool {
        self.guard is Active && self.filter.version > 0
    }

    /// What every operation keeps: the positions of all bits, of either version
    /// of the filter, fit a machine word.
    pub open spec fn well_formed(self) -> bool {
        &&& 8 * self.filter.current.len() <= usize::MAX
        &&& 8 * self.filter.previous.len() <= usize::MAX
    }
}

impl BrxonState {
    /// The state before any filter was loaded.
    pub fn new(public_key: [u8; 32], server_base: String, m_bytes: usize, k: u32) -> (r: Self)
        ensures
            r@ == (State {
                filter: Filter::empty(m_bytes, k),
                guard: Guard::Active,
                public_key: public_key@,
                server_base: server_base@,
            }),
            !r@.ready(),
            8 * m_bytes <= usize::MAX ==> r@.well_formed(),
    {
        Self {
            filter: FilterState::empty(m_bytes, k),
            guard: SecurityGuard::Active,
            public_key,
            server_base,
        }
    }

    /// Whether a filter is loaded and updates are not frozen.
    pub fn is_ready(&self) -> (r: bool)
        ensures
            r == self@.ready(),
    {
        self.guard.is_active() && self.filter.version > 0
    }
}

} // verus!
