//! The decision on each request: load it, refuse it silently, or refuse it and
//! show the block page.
//!
//! A request is refused if a filter was loaded and holds its domain or a parent
//! domain, whether updates are frozen or not. The block page is shown for pages and for pages inside pages; any
//! other request is refused silently.

pub mod content_type;
pub mod policy_decision;

use vstd::prelude::*;

use crate::bloom::{holds_or_parent, normalize_domain, normalized, BloomFilter};
use crate::policy::content_type::{TYPE_DOCUMENT, TYPE_SUBDOCUMENT};
use crate::policy::policy_decision::{ACCEPT, REJECT_REQUEST, REJECT_TYPE};
use crate::state::{BrxonState, State};

verus! {

/// What is to be done with a request.
#[derive(Debug, Clone, Copy, PartialEq, Eq, Structural)]
pub enum PolicyOutcome {
    /// Load it.
    Accept,
    /// Refuse it without a word.
    RejectSilent,
    /// Refuse it and show the block page.
    RejectWithBlockPage,
}

/// The answer to Gecko that stands for an outcome.
pub open spec fn gecko_decision(outcome: PolicyOutcome) -> int {
    match outcome {
        PolicyOutcome::Accept => 1,
        PolicyOutcome::RejectSilent => -1,
        PolicyOutcome::RejectWithBlockPage => -2,
    }
}

impl PolicyOutcome {
    /// The answer to Gecko that stands for this outcome.
    pub fn to_gecko_decision(&self) -> (r: i16)
        ensures
            r == gecko_decision(*self),
    {
        match self {
            PolicyOutcome::Accept => ACCEPT,
            PolicyOutcome::RejectSilent => REJECT_REQUEST,
            PolicyOutcome::RejectWithBlockPage => REJECT_TYPE,
        }
    }

    /// The complete answer to Gecko.
    pub fn to_decision(&self) -> (r: BrxonDecision)
        ensures
            r.decision == gecko_decision(*self),
            r.show_block_page == (*self == PolicyOutcome::RejectWithBlockPage),
    {
        BrxonDecision {
            decision: self.to_gecko_decision(),
            show_block_page: matches!(self, PolicyOutcome::RejectWithBlockPage),
        }
    }
}

/// The complete answer to Gecko.
#[derive(Debug)]
pub struct BrxonDecision {
    /// 1 to load, -1 to refuse silently, -2 to refuse with the block page.
    pub decision: i16,
    /// Whether the block page is to be shown.
    pub show_block_page: bool,
}

/// How a request of this kind is refused.
pub open spec fn reject_type(content_type: u32) -> PolicyOutcome {
    if content_type == TYPE_DOCUMENT || content_type == TYPE_SUBDOCUMENT {
        PolicyOutcome::RejectWithBlockPage
    } else {
        PolicyOutcome::RejectSilent
    }
}

/// Whether requests are looked up: a filter was loaded, or an update was refused
/// and the bits that were in use before count again, whatever their version.
pub open spec fn in_force(s: State) -> bool {
    s.filter.version > 0 || s.guard is Frozen
}

/// Whether requests are looked up and the filter in use holds `domain` or a
/// parent of it. A filter that has no bits to test holds nothing.
pub open spec fn domain_blocked(s: State, domain: Seq<char>) -> bool {
    &&& in_force(s)
    &&& s.filter.k == 0 || s.filter.current.len() > 0
    &&& holds_or_parent(s.filter.current, s.filter.k as int, domain)
}

/// What is to be done with a request to this domain.
pub open spec fn domain_outcome(s: State, content_type: u32, domain: Seq<char>) -> PolicyOutcome {
    if domain.len() > 0 && domain_blocked(s, domain) {
        reject_type(content_type)
    } else {
        PolicyOutcome::Accept
    }
}

/// What is to be done with a request.
pub open spec fn request_outcome(s: State, content_type: u32, uri: Seq<char>) -> PolicyOutcome {
    domain_outcome(s, content_type, normalized(uri))
}

/// Decides on requests by a state.
pub struct ContentPolicy<'a> {
    state: &'a BrxonState,
}

impl<'a> View for ContentPolicy<'a> {
    type V = State;

    /// The state that decides.
    closed spec fn view(&self) -> State {
        self.state@
    }
}

impl<'a> ContentPolicy<'a> {
    /// The policy that decides by `state`.
    pub fn new(state: &'a BrxonState) -> (r: Self)
        ensures
            r@ == state@,
    {
        Self { state }
    }

    /// Decides on a request of the given kind for the given URI. Before a
    /// filter is loaded, everything is let through. A frozen engine goes on
    /// deciding, by the bits it went back to.
    pub fn should_load(&self, content_type: u32, uri: &str) -> (r: PolicyOutcome)
        requires
            8 * self@.filter.current.len() <= usize::MAX,
        ensures
            r == request_outcome(self@, content_type, uri@),
    {
        if !self.is_in_force() {
            return PolicyOutcome::Accept;
        }
        let domain = normalize_domain(uri);
        self.should_load_domain(content_type, domain.as_str())
    }

    /// Decides on a request of the given kind for the given domain, which is in
    /// the form that lookups use.
    pub fn should_load_domain(&self, content_type: u32, domain: &str) -> (r: PolicyOutcome)
        requires
            8 * self@.filter.current.len() <= usize::MAX,
        ensures
            r == domain_outcome(self@, content_type, domain@),
    {
        if domain.is_empty() {
            return PolicyOutcome::Accept;
        }
        if !self.is_listed(domain) {
            return PolicyOutcome::Accept;
        }
        self.determine_reject_type(content_type, domain)
    }

    /// How a request of this kind is refused, whatever its domain.
    pub fn determine_reject_type(&self, content_type: u32, domain: &str) -> (r: PolicyOutcome)
        ensures
            r == reject_type(content_type),
    {
        if content_type == TYPE_DOCUMENT || content_type == TYPE_SUBDOCUMENT {
            PolicyOutcome::RejectWithBlockPage
        } else {
            PolicyOutcome::RejectSilent
        }
    }

    /// Whether requests to a domain, given in any form, are refused.
    pub fn is_domain_blocked(&self, domain: &str) -> (r: bool)
        requires
            8 * self@.filter.current.len() <= usize::MAX,
        ensures
            r == domain_blocked(self@, normalized(domain@)),
    {
        if !self.is_in_force() {
            return false;
        }
        let domain = normalize_domain(domain);
        self.is_listed(domain.as_str())
    }

    /// Whether requests are looked up.
    fn is_in_force(&self) -> (r: bool)
        ensures
            r == in_force(self@),
    {
        self.state.filter.version > 0 || !self.state.guard.is_active()
    }

    /// Whether the filter in use holds the domain or a parent of it.
    fn is_listed(&self, domain: &str) -> (r: bool)
        requires
            8 * self@.filter.current.len() <= usize::MAX,
        ensures
            r == domain_blocked(self@, domain@),
    {
        let filter = &self.state.filter;
        if !self.is_in_force() || (filter.k != 0 && filter.current.len() == 0) {
            return false;
        }
        let bloom = BloomFilter::from_slice(filter.current.as_slice(), filter.k);
        bloom.contains_or_parent(domain)
    }

    /// The complete answer to Gecko on a request.
    pub fn decide(&self, content_type: u32, uri: &str) -> (r: BrxonDecision)
        requires
            8 * self@.filter.current.len() <= usize::MAX,
        ensures
            r.decision == gecko_decision(request_outcome(self@, content_type, uri@)),
            r.show_block_page == (request_outcome(self@, content_type, uri@)
                == PolicyOutcome::RejectWithBlockPage),
    {
        self.should_load(content_type, uri).to_decision()
    }
}

} // verus!
