//! The Bloom filter that domains are looked up in, and the reduction of a URI
//! to the domain that is looked up.
//!
//! A filter of `m` bits tests `k` of them for a domain. Their positions come
//! from two 64-bit hashes by double hashing: the `i`-th is `h1 + i * h2`,
//! modulo 2^64 and then modulo `m`.

use vstd::prelude::*;
use vstd::slice::slice_subrange;
use vstd::utf8::encode_utf8;

use crate::text::{
    before_first, chars_of, cut, last_at, lemma_first_at, lowercase, position, strip_prefix, text_of,
    trim, trimmed, without_prefix,
};

verus! {

/// Size of the deployed filter in bytes: two million domains at an error rate
/// of 0.01%.
pub const BLOOM_M_BYTES: usize = 4_792_530;

/// Size of the deployed filter in bits.
pub const BLOOM_M_BITS: usize = BLOOM_M_BYTES * 8;

/// Number of bits that the deployed filter tests for a domain.
pub const BLOOM_K: u32 = 13;

/// Seed of the first hash.
pub const FIRST_SEED: u32 = 0xDEAD_BEEF;

/// Seed of the second hash.
pub const SECOND_SEED: u32 = 0xC0DE_CAFE;

// ---------------------------------------------------------------------------
// Hashing
// ---------------------------------------------------------------------------

/// The 128-bit hash of `data` under `seed`, as `murmur3::murmur3_x64_128`
/// computes it.
pub uninterp spec fn murmur3_hash(data: Seq<u8>, seed: u32) -> u128;

/// Calls `murmur3::murmur3_x64_128` on a reader over `data`. The hash is a
/// function of the bytes and the seed; the call reports only errors of its
/// reader, and reading from memory has none.
#[verifier::external_body]
fn murmur3_of(data: &[u8], seed: u32) -> (r: Option<u128>)
    ensures
        r == Some(murmur3_hash(data@, seed)),
{
    murmur3::murmur3_x64_128(&mut std::io::Cursor::new(data), seed).ok()
}

/// The lower half of a 128-bit hash.
pub open spec fn low_half(x: u128) -> u64 {
    (x % 0x1_0000_0000_0000_0000) as u64
}

/// The two hashes of a domain.
pub open spec fn domain_hashes(domain: Seq<char>) -> (u64, u64) {
    (
        low_half(murmur3_hash(encode_utf8(domain), FIRST_SEED)),
        low_half(murmur3_hash(encode_utf8(domain), SECOND_SEED)),
    )
}

/// The two hashes of a domain.
pub fn hash_pair(input: &str) -> (r: (u64, u64))
    ensures
        r == domain_hashes(input@),
{
    let b = input.as_bytes();
    let first: u128 = match murmur3_of(b, FIRST_SEED) {
        Some(h) => h,
        None => 0,
    };
    let second: u128 = match murmur3_of(b, SECOND_SEED) {
        Some(h) => h,
        None => 0,
    };
    assert(first as u64 == first % 0x1_0000_0000_0000_0000) by (bit_vector);
    assert(second as u64 == second % 0x1_0000_0000_0000_0000) by (bit_vector);
    (first as u64, second as u64)
}

// ---------------------------------------------------------------------------
// Bits
// ---------------------------------------------------------------------------

/// The number of bits in `bits`.
pub open spec fn bit_len(bits: Seq<u8>) -> int {
    8 * bits.len() as int
}

/// Whether bit `j` of `bits` is set; bit `j` is bit `j % 8` of byte `j / 8`,
/// counted from the lowest.
pub open spec fn bit_set(bits: Seq<u8>, j: int) -> bool {
    (bits[j / 8] >> ((j % 8) as u8)) & 1 == 1
}

/// The position of the `i`-th of the bits that a filter of `m` bits tests for
/// a domain with the hashes `h`.
pub open spec fn probe(h: (u64, u64), i: int, m: int) -> int {
    ((h.0 + i * h.1) % 0x1_0000_0000_0000_0000) % m
}

/// Whether all `k` bits for the hashes `h` are set: the filter holds the
/// domain, or one that it cannot tell from it.
pub open spec fn holds_hashes(bits: Seq<u8>, k: int, h: (u64, u64)) -> bool {
    forall|i: int| 0 <= i < k ==> bit_set(bits, #[trigger] probe(h, i, bit_len(bits)))
}

/// Whether the filter holds `domain`.
pub open spec fn holds(bits: Seq<u8>, k: int, domain: Seq<char>) -> bool {
    holds_hashes(bits, k, domain_hashes(domain))
}

/// Whether a parent domain of `domain` follows the dot at position `dot`: what
/// follows is more than a top-level domain, since it has a dot itself.
pub open spec fn is_parent_at(domain: Seq<char>, dot: int) -> bool {
    0 <= dot < domain.len() && domain[dot] == '.' && domain.skip(dot + 1).contains('.')
}

/// Whether the filter holds `domain` or one of its parent domains.
pub open spec fn holds_or_parent(bits: Seq<u8>, k: int, domain: Seq<char>) -> bool {
    ||| holds(bits, k, domain)
    ||| exists|dot: int| #[trigger]
        is_parent_at(domain, dot) && holds(bits, k, domain.skip(dot + 1))
}

/// Computes the position of the `i`-th bit for the hashes `h1` and `h2`.
pub fn probe_index(h1: u64, h2: u64, i: u64, m_bits: u64) -> (r: u64)
    requires
        m_bits > 0,
    ensures
        r == probe((h1, h2), i as int, m_bits as int),
        r < m_bits,
{
    let step: u64 = i.wrapping_mul(h2);
    let sum: u64 = h1.wrapping_add(step);
    proof {
        let range = 0x1_0000_0000_0000_0000int;
        let product = i * h2;
        vstd::arithmetic::mul::lemma_mul_nonnegative(i as int, h2 as int);
        assert(step == product % range);
        vstd::arithmetic::div_mod::lemma_add_mod_noop_right(h1 as int, product, range);
        assert((h1 + step) % range == (h1 + product) % range);
        assert(sum == (h1 + step) % range);
    }
    sum % m_bits
}

// ---------------------------------------------------------------------------
// The filter
// ---------------------------------------------------------------------------

/// A Bloom filter over borrowed bits, for lookups only.
pub struct BloomFilter<'a> {
    bits: &'a [u8],
    m_bits: usize,
    k: u32,
}

impl<'a> BloomFilter<'a> {
    #[verifier::type_invariant]
    spec fn inv(self) -> bool {
        self.m_bits == 8 * self.bits@.len()
    }

    /// The bits of the filter.
    pub closed spec fn bits(&self) -> Seq<u8> {
        self.bits@
    }

    /// The number of bits that are tested for a domain.
    pub closed spec fn k(&self) -> int {
        self.k as int
    }

    /// The filter with the given bits, which tests `k` of them for a domain.
    pub fn from_slice(bits: &'a [u8], k: u32) -> (r: Self)
        requires
            8 * bits@.len() <= usize::MAX,
        ensures
            r.bits() == bits@,
            r.k() == k,
    {
        Self { bits, m_bits: bits.len() * 8, k }
    }

    /// Looks up exactly this domain.
    pub fn contains(&self, domain: &str) -> (r: bool)
        requires
            self.k() == 0 || self.bits().len() > 0,
        ensures
            r == holds(self.bits(), self.k(), domain@),
    {
        let (h1, h2) = self.hash_pair(domain);
        self.contains_hashed(h1, h2)
    }

    /// Looks up a domain by its two hashes.
    pub fn contains_hashed(&self, h1: u64, h2: u64) -> (r: bool)
        requires
            self.k() == 0 || self.bits().len() > 0,
        ensures
            r == holds_hashes(self.bits(), self.k(), (h1, h2)),
    {
        proof {
            use_type_invariant(self);
        }
        let k: u64 = self.k as u64;
        let mut i: u64 = 0;
        while i < k
            invariant
                i <= k,
                k == self.k(),
                self.k == k,
                self.k() == 0 || self.bits().len() > 0,
                self.m_bits == 8 * self.bits().len(),
                forall|j: int| 0 <= j < i ==> bit_set(
                    self.bits(),
                    #[trigger] probe((h1, h2), j, bit_len(self.bits())),
                ),
            decreases k - i,
        {
            let idx: u64 = probe_index(h1, h2, i, self.m_bits as u64);
            if !self.get_bit(idx as usize) {
                assert(!bit_set(
                    self.bits(),
                    probe((h1, h2), i as int, bit_len(self.bits())),
                ));
                return false;
            }
            i += 1;
        }
        true
    }

    /// Looks up the domain and each of its parent domains, so that a listed
    /// domain stands for all of its subdomains. A top-level domain is no
    /// parent in this sense.
    pub fn contains_or_parent(&self, domain: &str) -> (r: bool)
        requires
            self.k() == 0 || self.bits().len() > 0,
        ensures
            r == holds_or_parent(self.bits(), self.k(), domain@),
    {
        let names = lookup_names(domain);
        proof {
            lemma_lookups(domain@, domain@.len() as int);
        }
        let ghost wanted = lookups(domain@, domain@.len() as int);
        let mut i: usize = 0;
        while i < names.len()
            invariant
                i <= names@.len(),
                names@.len() == wanted.len(),
                forall|j: int| 0 <= j < names@.len() ==> (#[trigger] names@[j])@ == wanted[j],
                wanted == lookups(domain@, domain@.len() as int),
                forall|j: int|
                    0 <= j < wanted.len() ==> is_lookup(domain@, #[trigger] wanted[j]),
                self.k() == 0 || self.bits().len() > 0,
                forall|j: int| 0 <= j < i ==> !holds(self.bits(), self.k(), #[trigger] wanted[j]),
            decreases names@.len() - i,
        {
            assert(names@[i as int]@ == wanted[i as int]);
            if self.contains(names[i]) {
                assert(is_lookup(domain@, wanted[i as int]));
                return true;
            }
            i += 1;
        }
        proof {
            assert forall|dot: int| #[trigger] is_parent_at(domain@, dot) implies !holds(
                self.bits(),
                self.k(),
                domain@.skip(dot + 1),
            ) by {
                assert(wanted.contains(domain@.skip(dot + 1)));
            }
            assert(wanted.contains(domain@));
        }
        false
    }

    /// The two hashes of a domain.
    fn hash_pair(&self, input: &str) -> (r: (u64, u64))
        ensures
            r == domain_hashes(input@),
    {
        crate::bloom::hash_pair(input)
    }

    /// Whether the bit at `index` is set; no bit past the end is.
    pub fn get_bit(&self, index: usize) -> (r: bool)
        ensures
            r == (index < 8 * self.bits().len() && bit_set(self.bits(), index as int)),
    {
        let byte: usize = index / 8;
        let bit: usize = index % 8;
        if byte >= self.bits.len() {
            return false;
        }
        let b: u8 = self.bits[byte];
        let s: u8 = bit as u8;
        (b >> s) & 1 == 1
    }
}

// ---------------------------------------------------------------------------
// Domains and their parents
// ---------------------------------------------------------------------------

/// The names to look up for `domain` when the dots among its first `n`
/// characters are taken into account: the domain itself, then the parents, the
/// longest first.
pub open spec fn lookups(domain: Seq<char>, n: int) -> Seq<Seq<char>>
    decreases n,
{
    if n <= 0 {
        seq![domain]
    } else if is_parent_at(domain, n - 1) {
        lookups(domain, n - 1).push(domain.skip(n))
    } else {
        lookups(domain, n - 1)
    }
}

/// Whether `name` is `domain` or one of its parents.
pub open spec fn is_lookup(domain: Seq<char>, name: Seq<char>) -> bool {
    ||| name == domain
    ||| exists|dot: int| #[trigger] is_parent_at(domain, dot) && name == domain.skip(dot + 1)
}

/// `lookups` lists the domain and its parents, and nothing else.
pub proof fn lemma_lookups(domain: Seq<char>, n: int)
    requires
        0 <= n <= domain.len(),
    ensures
        lookups(domain, n).contains(domain),
        forall|dot: int|
            #![trigger is_parent_at(domain, dot)]
            dot < n && is_parent_at(domain, dot) ==> lookups(domain, n).contains(
                domain.skip(dot + 1),
            ),
        forall|j: int|
            0 <= j < lookups(domain, n).len() ==> is_lookup(
                domain,
                #[trigger] lookups(domain, n)[j],
            ),
    decreases n,
{
    if n == 0 {
        assert(lookups(domain, 0)[0] == domain);
    } else {
        lemma_lookups(domain, n - 1);
        let before = lookups(domain, n - 1);
        let now = lookups(domain, n);
        if is_parent_at(domain, n - 1) {
            assert(now == before.push(domain.skip(n)));
            assert(now[before.len() as int] == domain.skip(n));
            assert forall|x: Seq<char>| before.contains(x) implies now.contains(x) by {
                let i = choose|i: int| 0 <= i < before.len() && before[i] == x;
                assert(now[i] == x);
            }
        }
    }
}

/// The names to look up for `domain`: the domain itself, then its parents that
/// have a dot, the longest first.
pub fn lookup_names<'a>(domain: &'a str) -> (r: Vec<&'a str>)
    ensures
        r@.map_values(|s: &str| s@) == lookups(domain@, domain@.len() as int),
        r@.len() == lookups(domain@, domain@.len() as int).len(),
        forall|j: int|
            0 <= j < r@.len() ==> (#[trigger] r@[j])@ == lookups(domain@, domain@.len() as int)[j],
{
    let chars = chars_of(domain);
    let mut names: Vec<&'a str> = Vec::new();
    names.push(domain);
    let mut i: usize = 0;
    while i < chars.len()
        invariant
            i <= chars@.len(),
            chars@ == domain@,
            names@.len() == lookups(domain@, i as int).len(),
            forall|j: int|
                0 <= j < names@.len() ==> (#[trigger] names@[j])@ == lookups(domain@, i as int)[j],
        decreases chars@.len() - i,
    {
        if chars[i] == '.' {
            let next: usize = position(chars.as_slice(), '.', i + 1);
            proof {
                lemma_first_at(domain@, '.', i + 1);
                let rest = domain@.skip(i + 1);
                if next < chars@.len() {
                    assert(rest[next - (i + 1)] == '.');
                } else {
                    assert forall|j: int| 0 <= j < rest.len() implies rest[j] != '.' by {
                        assert(rest[j] == domain@[i + 1 + j]);
                    }
                }
            }
            if next < chars.len() {
                let parent = domain.substring_char(i + 1, chars.len());
                assert(parent@ == domain@.skip(i + 1));
                names.push(parent);
            }
        }
        i += 1;
    }
    assert(names@.map_values(|s: &str| s@) =~= lookups(domain@, domain@.len() as int));
    names
}

// ---------------------------------------------------------------------------
// From a URI to a domain
// ---------------------------------------------------------------------------

/// `s` without `https://` or `http://` at its start.
pub open spec fn without_scheme(s: Seq<char>) -> Seq<char> {
    if "https://"@.is_prefix_of(s) {
        s.skip("https://"@.len() as int)
    } else {
        without_prefix(s, "http://"@)
    }
}

/// Whether every character is one of `0` to `9`.
pub open spec fn all_digits(s: Seq<char>) -> bool {
    forall|i: int| 0 <= i < s.len() ==> '0' <= #[trigger] s[i] <= '9'
}

/// `s` without its last colon and what follows, where only digits follow.
pub open spec fn without_port(s: Seq<char>) -> Seq<char> {
    let colon = last_at(s, ':', s.len() as int);
    if colon >= 0 && all_digits(s.skip(colon + 1)) {
        s.take(colon)
    } else {
        s
    }
}

/// The length that is left of the first `n` characters of `s` once the dots at
/// their end are dropped.
pub open spec fn dotless(s: Seq<char>, n: int) -> int
    decreases n,
{
    if n > 0 && s[n - 1] == '.' {
        dotless(s, n - 1)
    } else {
        n
    }
}

/// `s` without the dots at its end.
pub open spec fn without_final_dots(s: Seq<char>) -> Seq<char> {
    s.take(dotless(s, s.len() as int))
}

/// The host that a URI, or a line of a block list, names: without the space
/// around it, the scheme, `www.`, the path, query and fragment, the port and
/// the dots at the end, in this order.
pub open spec fn host(raw: Seq<char>) -> Seq<char> {
    let named = without_prefix(without_scheme(trimmed(raw)), "www."@);
    let authority = before_first(before_first(before_first(named, '/'), '?'), '#');
    without_final_dots(without_port(authority))
}

/// The domain that a URI or a line of a block list stands for: its host in
/// lower case.
pub open spec fn normalized(raw: Seq<char>) -> Seq<char> {
    lowercase(host(raw))
}

/// Removes `https://` or `http://` from the start.
fn strip_scheme(s: &[char]) -> (r: &[char])
    ensures
        r@ == without_scheme(s@),
{
    match strip_prefix(s, "https://") {
        Some(rest) => rest,
        None => match strip_prefix(s, "http://") {
            Some(rest) => rest,
            None => s,
        },
    }
}

/// Whether every character is one of `0` to `9`.
fn only_digits(s: &[char]) -> (r: bool)
    ensures
        r == all_digits(s@),
{
    let mut i: usize = 0;
    while i < s.len()
        invariant
            i <= s@.len(),
            forall|j: int| 0 <= j < i ==> '0' <= #[trigger] s@[j] <= '9',
        decreases s@.len() - i,
    {
        if s[i] < '0' || s[i] > '9' {
            return false;
        }
        i += 1;
    }
    true
}

/// Removes the port.
fn strip_port(s: &[char]) -> (r: &[char])
    ensures
        r@ == without_port(s@),
{
    let mut end: usize = s.len();
    while end > 0 && s[end - 1] != ':'
        invariant
            end <= s@.len(),
            last_at(s@, ':', s@.len() as int) == last_at(s@, ':', end as int),
        decreases end,
    {
        end -= 1;
    }
    if end > 0 && only_digits(slice_subrange(s, end, s.len())) {
        assert(s@.subrange(end as int, s@.len() as int) == s@.skip(end as int));
        slice_subrange(s, 0, end - 1)
    } else {
        assert(end > 0 ==> s@.subrange(end as int, s@.len() as int) == s@.skip(end as int));
        s
    }
}

/// Removes the dots at the end.
fn strip_final_dots(s: &[char]) -> (r: &[char])
    ensures
        r@ == without_final_dots(s@),
{
    let mut end: usize = s.len();
    while end > 0 && s[end - 1] == '.'
        invariant
            end <= s@.len(),
            dotless(s@, s@.len() as int) == dotless(s@, end as int),
        decreases end,
    {
        end -= 1;
    }
    slice_subrange(s, 0, end)
}

/// Cuts a URI down to the host that it names.
pub fn host_of(raw: &str) -> (r: String)
    ensures
        r@ == host(raw@),
{
    let chars = chars_of(raw);
    let s = strip_scheme(trim(chars.as_slice()));
    let s = match strip_prefix(s, "www.") {
        Some(rest) => rest,
        None => s,
    };
    let s = cut(cut(cut(s, '/'), '?'), '#');
    text_of(strip_final_dots(strip_port(s)))
}

/// Reduces a URI, or a line of a block list, to the domain it stands for.
pub fn normalize_domain(raw: &str) -> (r: String)
    ensures
        r@ == normalized(raw@),
{
    host_of(raw).as_str().to_lowercase()
}

} // verus!
