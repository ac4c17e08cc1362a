//! What holds of the crate as a whole. Each law is stated over the models that
//! the functions' own contracts speak of.

pub mod building;
pub mod formats;
pub mod lookup;
pub mod names;
pub mod stream;
pub mod updates;

use vstd::arithmetic::power2::{lemma2_to64, lemma_pow2_unfold, pow2};
use vstd::prelude::*;

use crate::bloom::{
    bit_len, bit_set, domain_hashes, holds, holds_hashes, holds_or_parent, is_parent_at, normalized,
    probe, BLOOM_K, BLOOM_M_BYTES,
};
use crate::build_filter::{list_entry, line_sets, probed, set_below, with_hashes, with_lines};
use crate::delta::{after_delta, after_full_filter, delta_fault, frozen, DeltaFault};
use crate::initial_filter::{embedded_fault, installed, parts, Embedded};
use crate::little_endian::{le_bytes, lemma_byte_ranges, lemma_le_round_trip};
use crate::policy::content_type::{TYPE_DOCUMENT, TYPE_SUBDOCUMENT};
use crate::policy::{domain_blocked, in_force, reject_type, request_outcome, PolicyOutcome};
use crate::signing::{signed_message, verify_fault, Delta, Payload, SignedDelta};
use crate::startup::{blank, initial};
use crate::state::{xored, zeros, Filter, Guard, State};
use crate::text::{lead, tail, trim_start, trimmed, white_space};
use crate::transport::{
    event_end, event_step, lemma_event_end, next_wait, processed, run, MAX_RETRY_SECS,
};

verus! {

// ---------------------------------------------------------------------------
// Lookups never miss
// ---------------------------------------------------------------------------

/// A probe stays within the filter.
proof fn lemma_probe_range(h: (u64, u64), i: int, m: int)
    requires
        m > 0,
    ensures
        0 <= probe(h, i, m) < m,
{
}

/// A domain that was added is found.
pub proof fn added_is_held(before: Seq<u8>, after: Seq<u8>, k: int, h: (u64, u64))
    requires
        before.len() > 0,
        with_hashes(before, after, k, h),
    ensures
        holds_hashes(after, k, h),
{
    let m = bit_len(before);
    assert forall|i: int| 0 <= i < k implies bit_set(after, #[trigger] probe(h, i, bit_len(after))) by {
        lemma_probe_range(h, i, m);
        assert(probed(h, k, m, probe(h, i, m)));
    }
}

/// Adding a domain never makes another one unfindable.
pub proof fn additions_keep(
    before: Seq<u8>,
    after: Seq<u8>,
    k: int,
    h: (u64, u64),
    other: (u64, u64),
)
    requires
        before.len() > 0,
        with_hashes(before, after, k, h),
        holds_hashes(before, k, other),
    ensures
        holds_hashes(after, k, other),
{
    assert forall|i: int| 0 <= i < k implies bit_set(
        after,
        #[trigger] probe(other, i, bit_len(after)),
    ) by {
        lemma_probe_range(other, i, bit_len(before));
        assert(bit_set(before, probe(other, i, bit_len(before))));
    }
}

/// Every domain of a block list is found once the list was loaded, and so is
/// every domain that was found before.
pub proof fn listed_is_held(before: Seq<u8>, after: Seq<u8>, lines: Seq<String>, n: int)
    requires
        before.len() > 0,
        with_lines(before, after, lines, n),
    ensures
        forall|i: int|
            0 <= i < n && list_entry(lines[i]@) is Some ==> holds(
                after,
                BLOOM_K as int,
                list_entry(#[trigger] lines[i]@)->0,
            ),
        forall|domain: Seq<char>|
            holds(before, BLOOM_K as int, domain) ==> #[trigger] holds(
                after,
                BLOOM_K as int,
                domain,
            ),
{
    let m = bit_len(before);
    let k = BLOOM_K as int;
    assert forall|i: int| 0 <= i < n && list_entry(lines[i]@) is Some implies holds(
        after,
        k,
        list_entry(#[trigger] lines[i]@)->0,
    ) by {
        let h = domain_hashes(list_entry(lines[i]@)->0);
        assert forall|t: int| 0 <= t < k implies bit_set(
            after,
            #[trigger] probe(h, t, bit_len(after)),
        ) by {
            lemma_probe_range(h, t, m);
            let j = probe(h, t, m);
            assert(probed(h, k, m, j));
            assert(line_sets(lines[i]@, m, j));
        }
    }
    assert forall|domain: Seq<char>| holds(before, k, domain) implies #[trigger] holds(
        after,
        k,
        domain,
    ) by {
        let h = domain_hashes(domain);
        assert forall|t: int| 0 <= t < k implies bit_set(
            after,
            #[trigger] probe(h, t, bit_len(after)),
        ) by {
            lemma_probe_range(h, t, m);
            assert(bit_set(before, probe(h, t, m)));
        }
    }
}

/// A listed domain stands for all of its subdomains: if the filter holds a
/// domain with a dot, it blocks every name that ends in a dot and that domain.
pub proof fn subdomains_are_held(bits: Seq<u8>, k: int, sub: Seq<char>, domain: Seq<char>)
    requires
        holds(bits, k, domain),
        domain.contains('.'),
    ensures
        holds_or_parent(bits, k, sub + seq!['.'] + domain),
{
    let name = sub + seq!['.'] + domain;
    let dot = sub.len() as int;
    assert(name[dot] == '.');
    assert(name.skip(dot + 1) =~= domain);
    assert(is_parent_at(name, dot));
}

/// A top-level domain does not stand for the domains under it: a name of two
/// labels is blocked only if it is held itself.
pub proof fn top_level_is_no_parent(bits: Seq<u8>, k: int, label: Seq<char>, top: Seq<char>)
    requires
        !label.contains('.'),
        !top.contains('.'),
    ensures
        holds_or_parent(bits, k, label + seq!['.'] + top) <==> holds(
            bits,
            k,
            label + seq!['.'] + top,
        ),
{
    let name = label + seq!['.'] + top;
    assert forall|dot: int| !#[trigger] is_parent_at(name, dot) by {
        if 0 <= dot < name.len() && name[dot] == '.' {
            if dot < label.len() {
                assert(label[dot] == '.');
            } else if dot > label.len() {
                assert(top[dot - label.len() - 1] == '.');
            } else {
                assert(name.skip(dot + 1) =~= top);
            }
        }
    }
}

/// A filter without a set bit blocks nothing.
pub proof fn empty_filter_blocks_nothing(n: nat, k: int, domain: Seq<char>)
    requires
        n > 0,
        k > 0,
    ensures
        !holds(zeros(n), k, domain),
        !holds_or_parent(zeros(n), k, domain),
{
    assert forall|d: Seq<char>| !#[trigger] holds(zeros(n), k, d) by {
        let h = domain_hashes(d);
        let j = probe(h, 0, bit_len(zeros(n)));
        lemma_probe_range(h, 0, bit_len(zeros(n)));
        let s = (j % 8) as u8;
        assert(zeros(n)[j / 8] == 0u8);
        assert((0u8 >> s) & 1 == 0) by (bit_vector);
        assert(!bit_set(zeros(n), j));
    }
}

// ---------------------------------------------------------------------------
// Counting bits
// ---------------------------------------------------------------------------

/// How many of the first `k` probes fall below `n`.
spec fn probes_below(h: (u64, u64), k: int, m: int, n: int) -> nat
    decreases k,
{
    if k <= 0 {
        0
    } else {
        probes_below(h, k - 1, m, n) + (if probe(h, k - 1, m) < n {
            1nat
        } else {
            0nat
        })
    }
}

proof fn lemma_probes_below(h: (u64, u64), k: int, m: int, n: int)
    requires
        k >= 0,
    ensures
        probes_below(h, k, m, n) <= k,
        probes_below(h, k, m, n) <= probes_below(h, k, m, n + 1),
        probed(h, k, m, n) ==> probes_below(h, k, m, n) < probes_below(h, k, m, n + 1),
    decreases k,
{
    if k > 0 {
        lemma_probes_below(h, k - 1, m, n);
        if probed(h, k, m, n) {
            let i = choose|i: int| 0 <= i < k && #[trigger] probe(h, i, m) == n;
            if i < k - 1 {
                assert(probed(h, k - 1, m, n));
            }
        }
    }
}

proof fn lemma_added_bits(before: Seq<u8>, after: Seq<u8>, k: int, h: (u64, u64), n: int)
    requires
        k >= 0,
        with_hashes(before, after, k, h),
        0 <= n <= bit_len(before),
    ensures
        set_below(before, n) <= set_below(after, n),
        set_below(after, n) <= set_below(before, n) + probes_below(h, k, bit_len(before), n),
    decreases n,
{
    if n > 0 {
        lemma_added_bits(before, after, k, h, n - 1);
        lemma_probes_below(h, k, bit_len(before), n - 1);
        assert(bit_set(after, n - 1) <==> bit_set(before, n - 1) || probed(
            h,
            k,
            bit_len(before),
            n - 1,
        ));
    }
}

/// Adding a domain sets at most `k` bits, and clears none.
pub proof fn added_bits(before: Seq<u8>, after: Seq<u8>, k: int, h: (u64, u64))
    requires
        k >= 0,
        with_hashes(before, after, k, h),
    ensures
        set_below(before, bit_len(before)) <= set_below(after, bit_len(after)),
        set_below(after, bit_len(after)) <= set_below(before, bit_len(before)) + k,
{
    lemma_added_bits(before, after, k, h, bit_len(before));
    lemma_probes_below(h, k, bit_len(before), bit_len(before));
}

// ---------------------------------------------------------------------------
// Deltas
// ---------------------------------------------------------------------------

/// Applying a delta twice gives back the bits.
pub proof fn delta_undoes_itself(bits: Seq<u8>, delta: Seq<u8>)
    ensures
        xored(xored(bits, delta), delta) == bits,
{
    assert forall|a: u8, b: u8| #[trigger] (a ^ b) ^ b == a by {
        assert((a ^ b) ^ b == a) by (bit_vector);
    }
    assert(xored(xored(bits, delta), delta) =~= bits);
}

/// The exclusive or of two filters of the same size is the delta from the one
/// to the other.
pub proof fn delta_between(old_bits: Seq<u8>, new_bits: Seq<u8>)
    requires
        old_bits.len() == new_bits.len(),
    ensures
        xored(old_bits, xored(old_bits, new_bits)) == new_bits,
{
    assert forall|a: u8, b: u8| #[trigger] (a ^ (a ^ b)) == b by {
        assert(a ^ (a ^ b) == b) by (bit_vector);
    }
    assert(xored(old_bits, xored(old_bits, new_bits)) =~= new_bits);
}

/// A rollback gives back the bits that a delta replaced. Where the delta led to
/// the next version, it gives back the version too.
pub proof fn rollback_undoes_delta(f: Filter, delta: Seq<u8>, new_version: u64)
    ensures
        f.changed(delta, new_version).rolled_back().current == f.current,
        new_version == f.version + 1 ==> f.changed(delta, new_version).rolled_back().version
            == f.version,
{
}

/// Two rollbacks in a row give back the bits.
pub proof fn rollbacks_cancel(f: Filter)
    ensures
        f.rolled_back().rolled_back().current == f.current,
        f.rolled_back().rolled_back().previous == f.previous,
{
}

// ---------------------------------------------------------------------------
// The first event of a stream
// ---------------------------------------------------------------------------

/// What follows the first complete event.
spec fn after_event(buf: Seq<char>) -> Seq<char> {
    buf.skip(event_end(buf, 0) + 2)
}

/// The state that the first complete event leads to, and whether the processing
/// ends with it.
proof fn first_step<F: Fn(String) -> Option<SignedDelta>>(
    parse: F,
    pre: State,
    buf: Seq<char>,
    post: State,
    rest: Seq<char>,
    stopped: bool,
) -> (r: (State, bool))
    requires
        run(parse, pre, buf, post, rest, stopped),
        event_end(buf, 0) < buf.len(),
    ensures
        after_event(buf).len() < buf.len(),
        event_step(parse, pre, buf.take(event_end(buf, 0)), r.0, r.1),
        if r.1 {
            post == r.0 && rest == after_event(buf) && stopped
        } else {
            run(parse, r.0, after_event(buf), post, rest, stopped)
        },
        pre.guard is Frozen ==> r.0 == pre,
        r.1 ==> pre.guard is Frozen,
        same_settings(pre, r.0),
{
    lemma_event_end(buf, 0);
    choose|next: State, stop: bool|
        {
            &&& #[trigger] event_step(parse, pre, buf.take(event_end(buf, 0)), next, stop)
            &&& if stop {
                post == next && rest == after_event(buf) && stopped
            } else {
                run(parse, next, after_event(buf), post, rest, stopped)
            }
        }
}

// ---------------------------------------------------------------------------
// Only signed data gets in
// ---------------------------------------------------------------------------

/// A delta is taken if and only if updates are not frozen, it starts from the
/// version in use, it is as long as the filter, and it is signed. Then the bits
/// are changed by it and kept for a rollback, and nothing else changes but the
/// version.
pub proof fn delta_taken_iff_signed(s: State, d: Delta)
    ensures
        delta_fault(s, d) is None <==> {
            &&& s.guard is Active
            &&& d.from_version == s.filter.version
            &&& d.inner.bytes.len() == s.filter.m_bytes
            &&& verify_fault(d.inner, s.public_key) is None
        },
        delta_fault(s, d) is None ==> after_delta(s, d) == (State {
            filter: s.filter.changed(d.inner.bytes, d.to_version),
            ..s
        }),
{
}

/// A refused delta takes the filter back a version and freezes updates, unless
/// they are frozen already: then it changes nothing.
pub proof fn refused_delta_freezes(s: State, d: Delta)
    requires
        delta_fault(s, d) is Some,
    ensures
        s.guard is Frozen ==> after_delta(s, d) == s,
        s.guard is Active ==> {
            let t = after_delta(s, d);
            &&& t.guard is Frozen
            &&& t.filter == s.filter.rolled_back()
            &&& t.filter.current == s.filter.previous
            &&& t.filter.previous == s.filter.current
            &&& !t.ready()
        },
        after_delta(s, d).guard is Frozen,
{
}

/// Once frozen, no delta is taken and none changes anything.
pub proof fn frozen_takes_no_delta(s: State, d: Delta)
    requires
        s.guard is Frozen,
    ensures
        delta_fault(s, d) == Some(DeltaFault::EngineFrozen { reason: s.guard->reason }),
        after_delta(s, d) == s,
{
}

/// Once frozen, nothing that the stream of updates brings changes anything.
pub proof fn frozen_stream_changes_nothing<F: Fn(String) -> Option<SignedDelta>>(
    parse: F,
    pre: State,
    buf: Seq<char>,
    post: State,
    rest: Seq<char>,
)
    requires
        pre.guard is Frozen,
        processed(parse, pre, buf, post, rest),
    ensures
        post == pre,
    decreases buf.len(),
{
    let stopped = run(parse, pre, buf, post, rest, true);
    if event_end(buf, 0) < buf.len() {
        let (next, stop) = first_step(parse, pre, buf, post, rest, stopped);
        if !stop {
            frozen_stream_changes_nothing(parse, next, after_event(buf), post, rest);
        }
    }
}

/// A complete filter is taken if and only if it is signed, even while updates
/// are frozen, and then updates are accepted again. An unsigned one takes the
/// filter back a version and freezes updates.
pub proof fn full_filter_taken_iff_signed(s: State, p: Payload, k: u32)
    ensures
        verify_fault(p, s.public_key) is None ==> {
            let t = after_full_filter(s, p, k);
            &&& t.guard is Active
            &&& t.filter.current == p.bytes
            &&& t.filter.previous == s.filter.current
            &&& t.filter.version == p.version
            &&& t.filter.k == k
            &&& t.ready() <==> p.version > 0
        },
        verify_fault(p, s.public_key) is Some ==> {
            let t = after_full_filter(s, p, k);
            &&& t.guard is Frozen
            &&& t.filter == s.filter.rolled_back()
            &&& !t.ready()
        },
{
}

/// A signed message stands for one digest and one version only.
pub proof fn message_names_digest_and_version(
    digest1: Seq<u8>,
    version1: u64,
    digest2: Seq<u8>,
    version2: u64,
)
    requires
        digest1.len() == 32,
        digest2.len() == 32,
        signed_message(digest1, version1) == signed_message(digest2, version2),
    ensures
        digest1 == digest2,
        version1 == version2,
{
    let message = signed_message(digest1, version1);
    lemma_byte_ranges();
    lemma_le_round_trip(version1 as nat, 8);
    lemma_le_round_trip(version2 as nat, 8);
    assert(message.take(32) =~= digest1);
    assert(message.take(32) =~= digest2);
    assert(message.skip(32) =~= le_bytes(version1 as nat, 8));
    assert(message.skip(32) =~= le_bytes(version2 as nat, 8));
}

// ---------------------------------------------------------------------------
// What nothing changes
// ---------------------------------------------------------------------------

/// Whether two states agree in the key that updates are checked against, the
/// address of the server, and the size that a delta must have.
pub open spec fn same_settings(s: State, t: State) -> bool {
    &&& t.public_key == s.public_key
    &&& t.server_base == s.server_base
    &&& t.filter.m_bytes == s.filter.m_bytes
}

/// No delta, no complete filter and no embedded filter changes the settings,
/// whether it is taken or refused.
pub proof fn updates_keep_settings(s: State, d: Delta, p: Payload, k: u32, f: Embedded)
    ensures
        same_settings(s, after_delta(s, d)),
        same_settings(s, after_full_filter(s, p, k)),
        same_settings(s, installed(s, f)),
{
}

/// Nothing that the stream of updates brings changes the settings.
pub proof fn stream_keeps_settings<F: Fn(String) -> Option<SignedDelta>>(
    parse: F,
    pre: State,
    buf: Seq<char>,
    post: State,
    rest: Seq<char>,
)
    requires
        processed(parse, pre, buf, post, rest),
    ensures
        same_settings(pre, post),
    decreases buf.len(),
{
    let stopped = run(parse, pre, buf, post, rest, true);
    if event_end(buf, 0) < buf.len() {
        let (next, stop) = first_step(parse, pre, buf, post, rest, stopped);
        if !stop {
            stream_keeps_settings(parse, next, after_event(buf), post, rest);
        }
    }
}

// ---------------------------------------------------------------------------
// Requests
// ---------------------------------------------------------------------------

/// While no filter was loaded, every request is let through, also where an
/// update was refused meanwhile and the bits are still blank.
pub proof fn nothing_blocked_before_loading(s: State, content_type: u32, uri: Seq<char>)
    requires
        s.filter.version == 0,
        s.guard is Active || (s.filter.k > 0 && s.filter.current == zeros(
            s.filter.current.len(),
        )),
    ensures
        request_outcome(s, content_type, uri) == PolicyOutcome::Accept,
{
    if s.guard is Frozen && s.filter.current.len() > 0 {
        empty_filter_blocks_nothing(
            s.filter.current.len(),
            s.filter.k as int,
            normalized(uri),
        );
    }
}

/// Once a filter is loaded, whether updates are frozen makes no difference to
/// requests.
pub proof fn guard_decides_no_request(s: State, guard: Guard, content_type: u32, uri: Seq<char>)
    requires
        s.filter.version > 0,
    ensures
        request_outcome(State { guard, ..s }, content_type, uri) == request_outcome(
            s,
            content_type,
            uri,
        ),
{
}

/// Freezing does not end the blocking: what is blocked then is what the bits
/// before hold, whatever the version that was gone back from.
pub proof fn frozen_goes_on_blocking(s: State, reason: Seq<char>, domain: Seq<char>)
    ensures
        domain_blocked(frozen(s, reason), domain) <==> {
            &&& s.filter.k == 0 || s.filter.previous.len() > 0
            &&& holds_or_parent(s.filter.previous, s.filter.k as int, domain)
        },
{
}

/// The block page is shown only for pages and pages inside pages, and a refused
/// request of that kind always shows it.
pub proof fn block_page_for_navigation_only(s: State, content_type: u32, uri: Seq<char>)
    ensures
        request_outcome(s, content_type, uri) == PolicyOutcome::RejectWithBlockPage ==> (
        content_type == TYPE_DOCUMENT || content_type == TYPE_SUBDOCUMENT),
        request_outcome(s, content_type, uri) == PolicyOutcome::RejectSilent ==> !(content_type
            == TYPE_DOCUMENT || content_type == TYPE_SUBDOCUMENT),
{
}

/// A request is refused if and only if its URI names a domain that is blocked.
pub proof fn refused_iff_blocked(s: State, content_type: u32, uri: Seq<char>)
    ensures
        request_outcome(s, content_type, uri) != PolicyOutcome::Accept <==> (normalized(uri).len()
            > 0 && domain_blocked(s, normalized(uri))),
{
}

/// Block list to request: with a filter in use that was built from a block
/// list, a request for a listed domain is refused, and so is one for a
/// subdomain of a listed domain that has a dot.
pub proof fn listed_domain_is_refused(
    s: State,
    before: Seq<u8>,
    lines: Seq<String>,
    i: int,
    sub: Seq<char>,
    content_type: u32,
    uri: Seq<char>,
)
    requires
        in_force(s),
        s.filter.k == BLOOM_K,
        before.len() > 0,
        with_lines(before, s.filter.current, lines, lines.len() as int),
        0 <= i < lines.len(),
        list_entry(lines[i]@) is Some,
        ({
            let domain = list_entry(lines[i]@)->0;
            ||| normalized(uri) == domain
            ||| domain.contains('.') && normalized(uri) == sub + seq!['.'] + domain
        }),
    ensures
        request_outcome(s, content_type, uri) == reject_type(content_type),
{
    let domain = list_entry(lines[i]@)->0;
    listed_is_held(before, s.filter.current, lines, lines.len() as int);
    assert(holds(s.filter.current, BLOOM_K as int, list_entry(lines[i]@)->0));
    if domain.contains('.') {
        subdomains_are_held(s.filter.current, BLOOM_K as int, sub, domain);
    }
    if domain.len() == 0 {
        assert(!domain.contains('.'));
        assert(vstd::utf8::encode_utf8(domain).len() == 0);
    }
}

/// Block list to request, through the file: a client that starts with a file
/// which it takes, and which was built from a block list, refuses requests for
/// the listed domains and for the subdomains of those that have a dot.
pub proof fn shipped_list_is_enforced(
    public_key: Seq<u8>,
    server_base: Seq<char>,
    file: Seq<u8>,
    lines: Seq<String>,
    i: int,
    sub: Seq<char>,
    content_type: u32,
    uri: Seq<char>,
)
    requires
        embedded_fault(blank(public_key, server_base), file) is None,
        parts(file).k == BLOOM_K,
        parts(file).version > 0,
        with_lines(zeros(BLOOM_M_BYTES as nat), parts(file).bits, lines, lines.len() as int),
        0 <= i < lines.len(),
        list_entry(lines[i]@) is Some,
        ({
            let domain = list_entry(lines[i]@)->0;
            ||| normalized(uri) == domain
            ||| domain.contains('.') && normalized(uri) == sub + seq!['.'] + domain
        }),
    ensures
        initial(public_key, server_base, file).ready(),
        request_outcome(initial(public_key, server_base, file), content_type, uri) == reject_type(
            content_type,
        ),
{
    listed_domain_is_refused(
        initial(public_key, server_base, file),
        zeros(BLOOM_M_BYTES as nat),
        lines,
        i,
        sub,
        content_type,
        uri,
    );
}

/// An update that is refused does not take a shipped list out of force: it is in
/// both copies of the filter.
pub proof fn shipped_list_survives_a_refusal(
    public_key: Seq<u8>,
    server_base: Seq<char>,
    file: Seq<u8>,
    lines: Seq<String>,
    i: int,
    sub: Seq<char>,
    content_type: u32,
    uri: Seq<char>,
    reason: Seq<char>,
)
    requires
        embedded_fault(blank(public_key, server_base), file) is None,
        parts(file).k == BLOOM_K,
        with_lines(zeros(BLOOM_M_BYTES as nat), parts(file).bits, lines, lines.len() as int),
        0 <= i < lines.len(),
        list_entry(lines[i]@) is Some,
        ({
            let domain = list_entry(lines[i]@)->0;
            ||| normalized(uri) == domain
            ||| domain.contains('.') && normalized(uri) == sub + seq!['.'] + domain
        }),
    ensures
        request_outcome(
            frozen(initial(public_key, server_base, file), reason),
            content_type,
            uri,
        ) == reject_type(content_type),
{
    listed_domain_is_refused(
        frozen(initial(public_key, server_base, file), reason),
        zeros(BLOOM_M_BYTES as nat),
        lines,
        i,
        sub,
        content_type,
        uri,
    );
}

// ---------------------------------------------------------------------------
// Block lists and requests read names alike
// ---------------------------------------------------------------------------

proof fn lemma_lead(s: Seq<char>, i: int)
    requires
        0 <= i <= s.len(),
    ensures
        i <= lead(s, i) <= s.len(),
        lead(s, i) < s.len() ==> !white_space(s[lead(s, i)]),
    decreases s.len() - i,
{
    if i < s.len() && white_space(s[i]) {
        lemma_lead(s, i + 1);
    }
}

proof fn lemma_tail(s: Seq<char>, n: int)
    requires
        0 <= n <= s.len(),
    ensures
        0 <= tail(s, n) <= n,
        tail(s, n) > 0 ==> !white_space(s[tail(s, n) - 1]),
    decreases n,
{
    if n > 0 && white_space(s[n - 1]) {
        lemma_tail(s, n - 1);
    }
}

/// Trimming twice is trimming once.
pub proof fn trimming_twice(s: Seq<char>)
    ensures
        trimmed(trimmed(s)) == trimmed(s),
{
    let front = trim_start(s);
    let both = trimmed(s);
    lemma_lead(s, 0);
    lemma_tail(front, front.len() as int);
    if both.len() > 0 {
        assert(front[0] == s[lead(s, 0)]);
        assert(both[0] == front[0]);
        assert(both[both.len() - 1] == front[both.len() - 1]);
    }
    assert(lead(both, 0) == 0);
    assert(trim_start(both) =~= both);
    assert(tail(both, both.len() as int) == both.len());
    assert(both.take(both.len() as int) =~= both);
}

/// A line that adds a domain, and has no `*.` in front, adds the one that a
/// request for the text of the line is looked up by.
pub proof fn line_and_request_agree(line: Seq<char>)
    requires
        list_entry(line) is Some,
        !"*."@.is_prefix_of(trimmed(line)),
    ensures
        list_entry(line)->0 == normalized(line),
{
    trimming_twice(line);
}

// ---------------------------------------------------------------------------
// The stream of updates
// ---------------------------------------------------------------------------

/// The end of a complete event does not move when more text arrives.
pub proof fn complete_event_is_final(a: Seq<char>, b: Seq<char>, i: int)
    requires
        0 <= i <= a.len(),
        event_end(a, i) < a.len(),
    ensures
        event_end(a + b, i) == event_end(a, i),
    decreases a.len() - i,
{
    if i + 1 < a.len() {
        assert((a + b)[i] == a[i] && (a + b)[i + 1] == a[i + 1]);
        if !(a[i] == '\n' && a[i + 1] == '\n') {
            complete_event_is_final(a, b, i + 1);
        }
    }
}

/// Processing that ends early leaves updates frozen. So where they are not
/// frozen afterwards, every complete event was processed.
pub proof fn stops_only_when_frozen<F: Fn(String) -> Option<SignedDelta>>(
    parse: F,
    pre: State,
    buf: Seq<char>,
    post: State,
    rest: Seq<char>,
)
    requires
        run(parse, pre, buf, post, rest, true),
    ensures
        post.guard is Frozen,
    decreases buf.len(),
{
    if event_end(buf, 0) < buf.len() {
        let (next, stop) = first_step(parse, pre, buf, post, rest, true);
        if !stop {
            stops_only_when_frozen(parse, next, after_event(buf), post, rest);
        }
    }
}

/// What `a` leads to, and then what is left with `b` behind it, is what `a` and
/// `b` together lead to, where the processing of `a` did not end early.
proof fn lemma_runs_join<F: Fn(String) -> Option<SignedDelta>>(
    parse: F,
    pre: State,
    a: Seq<char>,
    mid: State,
    left: Seq<char>,
    b: Seq<char>,
    post: State,
    rest: Seq<char>,
    stopped: bool,
)
    requires
        run(parse, pre, a, mid, left, false),
        run(parse, mid, left + b, post, rest, stopped),
    ensures
        run(parse, pre, a + b, post, rest, stopped),
    decreases a.len(),
{
    if event_end(a, 0) < a.len() {
        let (next, stop) = first_step(parse, pre, a, mid, left, false);
        lemma_first_event(a, b);
        lemma_runs_join(parse, next, after_event(a), mid, left, b, post, rest, stopped);
        assert(event_step(parse, pre, (a + b).take(event_end(a + b, 0)), next, stop));
    }
}

/// Where the processing of `a` ends early, more text behind it is left over.
proof fn lemma_stopped_run_extends<F: Fn(String) -> Option<SignedDelta>>(
    parse: F,
    pre: State,
    a: Seq<char>,
    post: State,
    left: Seq<char>,
    b: Seq<char>,
)
    requires
        run(parse, pre, a, post, left, true),
    ensures
        run(parse, pre, a + b, post, left + b, true),
    decreases a.len(),
{
    if event_end(a, 0) < a.len() {
        let (next, stop) = first_step(parse, pre, a, post, left, true);
        lemma_first_event(a, b);
        if !stop {
            lemma_stopped_run_extends(parse, next, after_event(a), post, left, b);
        }
        assert(event_step(parse, pre, (a + b).take(event_end(a + b, 0)), next, stop));
    }
}

/// The first complete event stays the same when more text arrives.
proof fn lemma_first_event(a: Seq<char>, b: Seq<char>)
    requires
        event_end(a, 0) < a.len(),
    ensures
        event_end(a + b, 0) == event_end(a, 0),
        (a + b).take(event_end(a, 0)) == a.take(event_end(a, 0)),
        after_event(a + b) == after_event(a) + b,
{
    lemma_event_end(a, 0);
    complete_event_is_final(a, b, 0);
    assert((a + b).take(event_end(a, 0)) =~= a.take(event_end(a, 0)));
    assert(after_event(a + b) =~= after_event(a) + b);
}

/// The state that is reached after one chunk and then the next may also be
/// reached where both come at once. So may the text that is left to process,
/// unless a delta in the first chunk met a frozen engine.
pub proof fn chunks_may_be_joined<F: Fn(String) -> Option<SignedDelta>>(
    parse: F,
    pre: State,
    a: Seq<char>,
    mid: State,
    left: Seq<char>,
    b: Seq<char>,
    post: State,
    rest: Seq<char>,
)
    requires
        processed(parse, pre, a, mid, left),
        processed(parse, mid, left + b, post, rest),
    ensures
        exists|r: Seq<char>| #[trigger] processed(parse, pre, a + b, post, r),
        run(parse, pre, a, mid, left, false) ==> processed(parse, pre, a + b, post, rest),
{
    if run(parse, pre, a, mid, left, false) {
        let stopped = run(parse, mid, left + b, post, rest, true);
        lemma_runs_join(parse, pre, a, mid, left, b, post, rest, stopped);
        assert(processed(parse, pre, a + b, post, rest));
    } else {
        stops_only_when_frozen(parse, pre, a, mid, left);
        frozen_stream_changes_nothing(parse, mid, left + b, post, rest);
        lemma_stopped_run_extends(parse, pre, a, mid, left, b);
        assert(processed(parse, pre, a + b, post, left + b));
    }
}

/// The content of a delta, if there is one.
pub open spec fn content(parsed: Option<SignedDelta>) -> Option<Delta> {
    match parsed {
        Some(delta) => Some(delta@),
        None => None,
    }
}

/// Whether the same text always reads as the same delta.
pub open spec fn reads_alike<F: Fn(String) -> Option<SignedDelta>>(parse: F) -> bool {
    forall|t: String, u: String, a: Option<SignedDelta>, b: Option<SignedDelta>|
        t@ == u@ && #[trigger] call_ensures(parse, (t,), a) && #[trigger] call_ensures(
            parse,
            (u,),
            b,
        ) ==> content(a) == content(b)
}

/// If the same text always reads as the same delta, processing has one outcome.
pub proof fn processing_is_determined<F: Fn(String) -> Option<SignedDelta>>(
    parse: F,
    pre: State,
    buf: Seq<char>,
    post1: State,
    rest1: Seq<char>,
    post2: State,
    rest2: Seq<char>,
)
    requires
        reads_alike(parse),
        processed(parse, pre, buf, post1, rest1),
        processed(parse, pre, buf, post2, rest2),
    ensures
        post1 == post2,
        rest1 == rest2,
    decreases buf.len(),
{
    let stopped1 = run(parse, pre, buf, post1, rest1, true);
    let stopped2 = run(parse, pre, buf, post2, rest2, true);
    if event_end(buf, 0) < buf.len() {
        let (next1, stop1) = first_step(parse, pre, buf, post1, rest1, stopped1);
        let (next2, stop2) = first_step(parse, pre, buf, post2, rest2, stopped2);
        assert(next1 == next2 && stop1 == stop2);
        if !stop1 {
            processing_is_determined(
                parse,
                next1,
                after_event(buf),
                post1,
                rest1,
                post2,
                rest2,
            );
        }
    }
}

/// How the stream is cut into chunks makes no difference: if the same text
/// always reads as the same delta, one chunk and then the next lead to the same
/// state as both at once. They leave the same text to process too, unless a
/// delta in the first chunk met a frozen engine.
pub proof fn chunks_do_not_matter<F: Fn(String) -> Option<SignedDelta>>(
    parse: F,
    pre: State,
    a: Seq<char>,
    mid: State,
    left: Seq<char>,
    b: Seq<char>,
    post: State,
    rest: Seq<char>,
    post_at_once: State,
    rest_at_once: Seq<char>,
)
    requires
        reads_alike(parse),
        processed(parse, pre, a, mid, left),
        processed(parse, mid, left + b, post, rest),
        processed(parse, pre, a + b, post_at_once, rest_at_once),
    ensures
        post == post_at_once,
        run(parse, pre, a, mid, left, false) ==> rest == rest_at_once,
{
    chunks_may_be_joined(parse, pre, a, mid, left, b, post, rest);
    let r = choose|r: Seq<char>| #[trigger] processed(parse, pre, a + b, post, r);
    processing_is_determined(parse, pre, a + b, post, r, post_at_once, rest_at_once);
    if run(parse, pre, a, mid, left, false) {
        processing_is_determined(parse, pre, a + b, post, rest, post_at_once, rest_at_once);
    }
}

// ---------------------------------------------------------------------------
// Retries
// ---------------------------------------------------------------------------

/// The wait after `n` failures in a row, starting from `base`.
pub open spec fn nth_wait(base: u64, n: nat) -> u64
    decreases n,
{
    if n == 0 {
        base
    } else {
        next_wait(nth_wait(base, (n - 1) as nat))
    }
}

/// Waits grow exponentially up to the limit: the wait after `n` failures is
/// `base` times two to the power of `n`, or the limit if that is less.
pub proof fn waits_are_exponential(base: u64, n: nat)
    requires
        0 < base <= MAX_RETRY_SECS,
    ensures
        nth_wait(base, n) == if base * pow2(n) < MAX_RETRY_SECS {
            (base * pow2(n)) as int
        } else {
            MAX_RETRY_SECS as int
        },
        base <= nth_wait(base, n) <= nth_wait(base, n + 1) <= MAX_RETRY_SECS,
    decreases n,
{
    if n == 0 {
        lemma2_to64();
    } else {
        waits_are_exponential(base, (n - 1) as nat);
        lemma_pow2_unfold(n);
        let half = pow2((n - 1) as nat) as int;
        assert(base * (2 * half) == 2 * (base * half)) by (nonlinear_arith);
    }
    assert(nth_wait(base, n + 1) == next_wait(nth_wait(base, n)));
}

} // verus!
