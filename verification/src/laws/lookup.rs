//! What the filter holds and how names are looked up in it, told by the bits
//! and by the texts of the names.

use vstd::arithmetic::power2::{lemma2_to64, pow2};
use vstd::prelude::*;
use vstd::set_lib::set_int_range;
use vstd::utf8::encode_utf8;

use crate::bloom::{
    bit_len, bit_set, domain_hashes, holds, holds_hashes, holds_or_parent, is_parent_at, lookups,
    murmur3_hash, normalized, probe, BLOOM_K, BLOOM_M_BITS, BLOOM_M_BYTES,
};
use crate::build_filter::{probed, set_below, with_hashes};
use crate::policy::content_type::{
    TYPE_CSP_REPORT, TYPE_DOCUMENT, TYPE_FETCH, TYPE_FONT, TYPE_IMAGE, TYPE_IMAGESET, TYPE_MEDIA,
    TYPE_OBJECT, TYPE_OBJECT_SUBREQUEST, TYPE_OTHER, TYPE_PING, TYPE_SCRIPT, TYPE_SPECULATIVE,
    TYPE_STYLESHEET, TYPE_SUBDOCUMENT, TYPE_WEBSOCKET, TYPE_WEB_MANIFEST, TYPE_WEB_TRANSPORT,
    TYPE_XMLHTTPREQUEST,
};
use crate::policy::{
    domain_blocked, domain_outcome, gecko_decision, reject_type, request_outcome, PolicyOutcome,
};
use crate::state::State;

verus! {

// ---------------------------------------------------------------------------
// Names
// ---------------------------------------------------------------------------

/// Whether `name` stands for `domain`: it is the domain, or a name with a dot
/// that the domain ends in, behind another dot.
pub open spec fn stands_for(name: Seq<char>, domain: Seq<char>) -> bool {
    ||| name == domain
    ||| name.contains('.') && exists|sub: Seq<char>| domain == #[trigger] (sub + seq!['.'] + name)
}

proof fn lemma_parent(domain: Seq<char>, dot: int)
    requires
        is_parent_at(domain, dot),
    ensures
        domain.skip(dot + 1).contains('.'),
        domain == domain.take(dot) + seq!['.'] + domain.skip(dot + 1),
{
    assert(domain =~= domain.take(dot) + seq!['.'] + domain.skip(dot + 1));
}

proof fn lemma_stands(name: Seq<char>, domain: Seq<char>) -> (dot: int)
    requires
        stands_for(name, domain),
        name != domain,
    ensures
        is_parent_at(domain, dot),
        domain.skip(dot + 1) == name,
{
    let sub = choose|sub: Seq<char>| domain == #[trigger] (sub + seq!['.'] + name);
    let dot = sub.len() as int;
    assert(domain[dot] == '.');
    assert(domain.skip(dot + 1) =~= name);
    dot
}

/// A lookup succeeds if and only if the filter holds a name that stands for the
/// domain. Nothing but the domain and its parents is looked up, and none of
/// them is left out.
pub proof fn only_the_domain_and_its_parents(bits: Seq<u8>, k: int, domain: Seq<char>)
    ensures
        holds_or_parent(bits, k, domain) <==> exists|name: Seq<char>| #[trigger]
            stands_for(name, domain) && holds(bits, k, name),
{
    if holds_or_parent(bits, k, domain) {
        if holds(bits, k, domain) {
            assert(stands_for(domain, domain));
        } else {
            let dot = choose|dot: int| #[trigger]
                is_parent_at(domain, dot) && holds(bits, k, domain.skip(dot + 1));
            lemma_parent(domain, dot);
            let name = domain.skip(dot + 1);
            assert(domain == domain.take(dot) + seq!['.'] + name);
            assert(stands_for(name, domain));
        }
    }
    if exists|name: Seq<char>| #[trigger] stands_for(name, domain) && holds(bits, k, name) {
        let name = choose|name: Seq<char>| #[trigger]
            stands_for(name, domain) && holds(bits, k, name);
        if name != domain {
            let dot = lemma_stands(name, domain);
            assert(is_parent_at(domain, dot) && holds(bits, k, domain.skip(dot + 1)));
        }
    }
}

/// The names to look up are those that stand for the domain, each once, the
/// domain first and then ever shorter ones.
pub proof fn names_from_long_to_short(domain: Seq<char>)
    ensures
        ({
            let names = lookups(domain, domain.len() as int);
            &&& names.len() > 0
            &&& names[0] == domain
            &&& forall|i: int, j: int|
                0 <= i < j < names.len() ==> (#[trigger] names[i]).len() > (#[trigger] names[j]).len()
            &&& forall|name: Seq<char>| #[trigger]
                names.contains(name) <==> stands_for(name, domain)
        }),
{
    let n = domain.len() as int;
    let names = lookups(domain, n);
    lemma_lookups_order(domain, n);
    crate::bloom::lemma_lookups(domain, n);
    assert forall|name: Seq<char>| #[trigger] names.contains(name) <==> stands_for(name, domain) by {
        if names.contains(name) {
            let j = choose|j: int| 0 <= j < names.len() && names[j] == name;
            assert(crate::bloom::is_lookup(domain, names[j]));
            if name != domain {
                let dot = choose|dot: int| #[trigger]
                    is_parent_at(domain, dot) && name == domain.skip(dot + 1);
                lemma_parent(domain, dot);
                assert(domain == domain.take(dot) + seq!['.'] + name);
            }
        }
        if stands_for(name, domain) && name != domain {
            let dot = lemma_stands(name, domain);
            assert(is_parent_at(domain, dot));
        }
    }
}

proof fn lemma_lookups_order(domain: Seq<char>, n: int)
    requires
        0 <= n <= domain.len(),
    ensures
        ({
            let names = lookups(domain, n);
            &&& names.len() > 0
            &&& names[0] == domain
            &&& names[names.len() - 1].len() >= domain.len() - n
            &&& forall|i: int, j: int|
                0 <= i < j < names.len() ==> (#[trigger] names[i]).len() > (#[trigger] names[j]).len()
        }),
    decreases n,
{
    if n > 0 {
        lemma_lookups_order(domain, n - 1);
        let before = lookups(domain, n - 1);
        let names = lookups(domain, n);
        if is_parent_at(domain, n - 1) {
            assert(names == before.push(domain.skip(n)));
            assert forall|i: int, j: int| 0 <= i < j < names.len() implies (
            #[trigger] names[i]).len() > (#[trigger] names[j]).len() by {
                if j == before.len() {
                    assert(names[i] == before[i]);
                    if i < before.len() - 1 {
                        assert(before[i].len() > before[before.len() - 1].len());
                    }
                } else {
                    assert(before[i].len() > before[j].len());
                }
            }
        }
    }
}

// ---------------------------------------------------------------------------
// Bits and their positions
// ---------------------------------------------------------------------------

/// Bits are counted from the lowest of the first byte: the bytes read as a
/// number in base 256 have their binary digits in this order.
pub proof fn bits_are_binary_digits(bits: Seq<u8>, j: int)
    requires
        0 <= j < 8 * bits.len(),
    ensures
        bit_set(bits, j) <==> (bits[j / 8] as int / pow2((j % 8) as nat) as int) % 2 == 1,
{
    let b = bits[j / 8];
    let s = (j % 8) as u8;
    lemma2_to64();
    assert((b >> 0u8) & 1 == (b / 1) % 2 && (b >> 1u8) & 1 == (b / 2) % 2 && (b >> 2u8) & 1 == (b
        / 4) % 2 && (b >> 3u8) & 1 == (b / 8) % 2 && (b >> 4u8) & 1 == (b / 16) % 2 && (b >> 5u8)
        & 1 == (b / 32) % 2 && (b >> 6u8) & 1 == (b / 64) % 2 && (b >> 7u8) & 1 == (b / 128) % 2)
        by (bit_vector);
    assert(s == 0 || s == 1 || s == 2 || s == 3 || s == 4 || s == 5 || s == 6 || s == 7);
}

proof fn lemma_same_bit(a: Seq<u8>, b: Seq<u8>, i: int, s: u8)
    requires
        0 <= i < a.len(),
        s < 8,
        forall|j: int| 0 <= j < 8 * a.len() ==> (#[trigger] bit_set(a, j) <==> bit_set(b, j)),
    ensures
        (a[i] >> s) & 1 == 1 <==> (b[i] >> s) & 1 == 1,
{
    let j = 8 * i + s;
    assert(j / 8 == i && j % 8 == s);
    assert(bit_set(a, j) <==> bit_set(b, j));
}

/// Bytes with the same bits are the same.
pub proof fn same_bits_same_bytes(a: Seq<u8>, b: Seq<u8>)
    requires
        a.len() == b.len(),
        forall|j: int| 0 <= j < 8 * a.len() ==> (#[trigger] bit_set(a, j) <==> bit_set(b, j)),
    ensures
        a == b,
{
    assert forall|i: int| 0 <= i < a.len() implies a[i] == b[i] by {
        let x = a[i];
        let y = b[i];
        lemma_same_bit(a, b, i, 0u8);
        lemma_same_bit(a, b, i, 1u8);
        lemma_same_bit(a, b, i, 2u8);
        lemma_same_bit(a, b, i, 3u8);
        lemma_same_bit(a, b, i, 4u8);
        lemma_same_bit(a, b, i, 5u8);
        lemma_same_bit(a, b, i, 6u8);
        lemma_same_bit(a, b, i, 7u8);
        assert(x == y) by (bit_vector)
            requires
                (x >> 0u8) & 1 == 1 <==> (y >> 0u8) & 1 == 1,
                (x >> 1u8) & 1 == 1 <==> (y >> 1u8) & 1 == 1,
                (x >> 2u8) & 1 == 1 <==> (y >> 2u8) & 1 == 1,
                (x >> 3u8) & 1 == 1 <==> (y >> 3u8) & 1 == 1,
                (x >> 4u8) & 1 == 1 <==> (y >> 4u8) & 1 == 1,
                (x >> 5u8) & 1 == 1 <==> (y >> 5u8) & 1 == 1,
                (x >> 6u8) & 1 == 1 <==> (y >> 6u8) & 1 == 1,
                (x >> 7u8) & 1 == 1 <==> (y >> 7u8) & 1 == 1,
        ;
    }
    assert(a =~= b);
}

/// The probes of a domain walk round the 64-bit numbers: they start at the
/// first hash and go on by the second. Each is then reduced to the size of the
/// filter.
pub proof fn probes_walk_by_the_second_hash(h: (u64, u64), i: int, m: int)
    requires
        i >= 0,
        m > 0,
    ensures
        ({
            let round = 0x1_0000_0000_0000_0000int;
            let here = probe(h, i, round);
            let next = probe(h, i + 1, round);
            &&& probe(h, 0, round) == h.0
            &&& 0 <= here < round
            &&& next == here + h.1 || next == here + h.1 - round
            &&& 0 <= next < round
            &&& probe(h, i, m) == here % m
            &&& 0 <= probe(h, i, m) < m
        }),
{
    let round = 0x1_0000_0000_0000_0000int;
    let x = h.0 + i * h.1;
    assert(h.0 + (i + 1) * h.1 == x + h.1) by (nonlinear_arith)
        requires
            x == h.0 + i * h.1,
    ;
    assert(0 * h.1 == 0) by (nonlinear_arith);
    let here = x % round;
    vstd::arithmetic::div_mod::lemma_add_mod_noop(x, h.1 as int, round);
    vstd::arithmetic::div_mod::lemma_mod_twice(x, round);
    vstd::arithmetic::div_mod::lemma_mod_twice(x + h.1, round);
    assert((x + h.1) % round == (here + h.1) % round);
}

/// The hashes of a domain are the lower halves of the two 128-bit hashes of its
/// UTF-8 form, under the two seeds.
pub proof fn hashes_are_lower_halves(domain: Seq<char>)
    ensures
        exists|high: int|
            murmur3_hash(encode_utf8(domain), 0xDEAD_BEEF) == #[trigger] (high
                * 0x1_0000_0000_0000_0000) + domain_hashes(domain).0,
        exists|high: int|
            murmur3_hash(encode_utf8(domain), 0xC0DE_CAFE) == #[trigger] (high
                * 0x1_0000_0000_0000_0000) + domain_hashes(domain).1,
{
    let x = murmur3_hash(encode_utf8(domain), 0xDEAD_BEEF) as int;
    let y = murmur3_hash(encode_utf8(domain), 0xC0DE_CAFE) as int;
    let round = 0x1_0000_0000_0000_0000int;
    assert(x == (x / round) * round + x % round);
    assert(y == (y / round) * round + y % round);
}

/// The deployed filter has 4,792,530 bytes and tests thirteen bits for a domain.
pub proof fn deployed_size()
    ensures
        BLOOM_M_BYTES == 4_792_530,
        BLOOM_M_BITS == 38_340_240,
        BLOOM_K == 13,
{
}

// ---------------------------------------------------------------------------
// Adding and looking up
// ---------------------------------------------------------------------------

/// A domain is found if and only if adding it would change nothing.
pub proof fn found_iff_adding_changes_nothing(bits: Seq<u8>, k: int, h: (u64, u64))
    requires
        bits.len() > 0,
    ensures
        holds_hashes(bits, k, h) <==> with_hashes(bits, bits, k, h),
{
    let m = bit_len(bits);
    if holds_hashes(bits, k, h) {
        assert forall|j: int| 0 <= j < m implies (#[trigger] bit_set(bits, j) <==> bit_set(bits, j)
            || probed(h, k, m, j)) by {
            if probed(h, k, m, j) {
                let i = choose|i: int| 0 <= i < k && #[trigger] probe(h, i, m) == j;
                assert(bit_set(bits, probe(h, i, m)));
            }
        }
    }
    if with_hashes(bits, bits, k, h) {
        assert forall|i: int| 0 <= i < k implies bit_set(
            bits,
            #[trigger] probe(h, i, bit_len(bits)),
        ) by {
            let j = probe(h, i, m);
            assert(0 <= j < m);
            assert(probed(h, k, m, j));
        }
    }
}

/// Adding sets the probed bits and no others, and clears none.
pub proof fn adding_sets_the_probes(before: Seq<u8>, after: Seq<u8>, k: int, h: (u64, u64), j: int)
    requires
        with_hashes(before, after, k, h),
        0 <= j < 8 * before.len(),
    ensures
        after.len() == before.len(),
        bit_set(before, j) ==> bit_set(after, j),
        bit_set(after, j) && !bit_set(before, j) ==> exists|i: int|
            0 <= i < k && #[trigger] probe(h, i, 8 * before.len() as int) == j,
        (exists|i: int| 0 <= i < k && #[trigger] probe(h, i, 8 * before.len() as int) == j)
            ==> bit_set(after, j),
{
    assert(bit_len(before) == 8 * before.len());
    assert(bit_set(after, j) <==> bit_set(before, j) || probed(h, k, bit_len(before), j));
}

/// Adding has one outcome.
pub proof fn adding_is_determined(
    before: Seq<u8>,
    one: Seq<u8>,
    other: Seq<u8>,
    k: int,
    h: (u64, u64),
)
    requires
        with_hashes(before, one, k, h),
        with_hashes(before, other, k, h),
    ensures
        one == other,
{
    assert forall|j: int| 0 <= j < 8 * one.len() implies (#[trigger] bit_set(one, j) <==> bit_set(
        other,
        j,
    )) by {
        assert(bit_set(one, j) <==> bit_set(before, j) || probed(h, k, bit_len(before), j));
        assert(bit_set(other, j) <==> bit_set(before, j) || probed(h, k, bit_len(before), j));
    }
    same_bits_same_bytes(one, other);
}

/// The count of set bits is the number of positions that hold one.
pub proof fn count_is_a_number_of_positions(bits: Seq<u8>, n: int)
    requires
        n >= 0,
    ensures
        set_int_range(0, n).filter(|j: int| bit_set(bits, j)).finite(),
        set_below(bits, n) == set_int_range(0, n).filter(|j: int| bit_set(bits, j)).len(),
    decreases n,
{
    let p = |j: int| bit_set(bits, j);
    let now = set_int_range(0, n).filter(p);
    if n == 0 {
        assert(now =~= Set::empty());
    } else {
        count_is_a_number_of_positions(bits, n - 1);
        let before = set_int_range(0, n - 1).filter(p);
        if p(n - 1) {
            assert(now =~= before.insert(n - 1));
        } else {
            assert(now =~= before);
        }
    }
}

// ---------------------------------------------------------------------------
// Decisions
// ---------------------------------------------------------------------------

/// What is decided on a domain, in whatever form it is given: it is blocked if
/// and only if a filter is in force and holds a name that stands for it, and
/// then it is refused unless it is empty.
pub proof fn domain_refused_iff_a_name_is_held(s: State, content_type: u32, domain: Seq<char>)
    ensures
        domain_blocked(s, domain) <==> {
            &&& s.filter.version > 0 || s.guard is Frozen
            &&& s.filter.k == 0 || s.filter.current.len() > 0
            &&& exists|name: Seq<char>| #[trigger]
                stands_for(name, domain) && holds(s.filter.current, s.filter.k as int, name)
        },
        domain.len() > 0 && domain_blocked(s, domain) ==> domain_outcome(s, content_type, domain)
            == reject_type(content_type),
        domain.len() == 0 || !domain_blocked(s, domain) ==> domain_outcome(s, content_type, domain)
            == PolicyOutcome::Accept,
{
    only_the_domain_and_its_parents(s.filter.current, s.filter.k as int, domain);
}

/// A request is refused if and only if it names a domain, a filter is in force,
/// and the filter holds a name that stands for the domain.
pub proof fn refused_iff_a_name_is_held(s: State, content_type: u32, uri: Seq<char>)
    ensures
        request_outcome(s, content_type, uri) != PolicyOutcome::Accept <==> {
            &&& normalized(uri).len() > 0
            &&& s.filter.version > 0 || s.guard is Frozen
            &&& s.filter.k == 0 || s.filter.current.len() > 0
            &&& exists|name: Seq<char>| #[trigger]
                stands_for(name, normalized(uri)) && holds(
                    s.filter.current,
                    s.filter.k as int,
                    name,
                )
        },
{
    only_the_domain_and_its_parents(s.filter.current, s.filter.k as int, normalized(uri));
}

/// A refused request shows the block page if and only if its type is 6, a page,
/// or 7, a page inside a page; and what Gecko is told is 1 to load, -1 to
/// refuse silently, and -2 to refuse with the block page.
pub proof fn refusals_by_number(s: State, content_type: u32, uri: Seq<char>)
    ensures
        reject_type(content_type) == PolicyOutcome::RejectWithBlockPage <==> content_type == 6
            || content_type == 7,
        reject_type(content_type) == PolicyOutcome::RejectSilent <==> content_type != 6
            && content_type != 7,
        request_outcome(s, content_type, uri) == PolicyOutcome::Accept || request_outcome(
            s,
            content_type,
            uri,
        ) == reject_type(content_type),
        gecko_decision(PolicyOutcome::Accept) == 1,
        gecko_decision(PolicyOutcome::RejectSilent) == -1,
        gecko_decision(PolicyOutcome::RejectWithBlockPage) == -2,
{
}

/// The types of requests have the numbers that Gecko gives them.
pub proof fn request_type_numbers()
    ensures
        TYPE_OTHER == 1,
        TYPE_SCRIPT == 2,
        TYPE_IMAGE == 3,
        TYPE_STYLESHEET == 4,
        TYPE_OBJECT == 5,
        TYPE_DOCUMENT == 6,
        TYPE_SUBDOCUMENT == 7,
        TYPE_PING == 10,
        TYPE_XMLHTTPREQUEST == 11,
        TYPE_OBJECT_SUBREQUEST == 12,
        TYPE_FONT == 14,
        TYPE_MEDIA == 15,
        TYPE_WEBSOCKET == 19,
        TYPE_CSP_REPORT == 20,
        TYPE_FETCH == 22,
        TYPE_IMAGESET == 23,
        TYPE_WEB_MANIFEST == 25,
        TYPE_SPECULATIVE == 26,
        TYPE_WEB_TRANSPORT == 31,
{
}

} // verus!
