//! Building a filter from block lists, signing it, and laying it out as the
//! file that the client embeds.

use vstd::prelude::*;
use vstd::slice::slice_to_vec;
use vstd::utf8::encode_utf8;

use crate::bloom::{
    bit_len, bit_set, domain_hashes, hash_pair, holds, holds_hashes, holds_or_parent,
    normalize_domain, normalized, probe, probe_index, BloomFilter, BLOOM_K, BLOOM_M_BITS,
    BLOOM_M_BYTES,
};
use crate::hexadecimal::{hex_bytes, hex_decode, hex_encode, hex_text, is_hex, lemma_hex_round_trip};
use crate::initial_filter::{
    embedded_fault, file_bytes, file_fault, lemma_file_round_trip, parts, Embedded,
};
use crate::little_endian::push_le;
use crate::signing::{
    ed25519_public_key, ed25519_sign, ed25519_signature, sha256, sha256_of, signed_message,
    verify_fault, Payload,
};
use crate::state::{zeros, State};
use crate::text::{
    chars_of, lemma_first_at, position, same_text, strip_prefix, text_of, trim, trimmed,
    without_prefix,
};

verus! {

// ---------------------------------------------------------------------------
// Setting bits
// ---------------------------------------------------------------------------

/// Whether bit `j` is one of those that a filter of `m` bits tests for the
/// hashes `h`.
pub open spec fn probed(h: (u64, u64), k: int, m: int, j: int) -> bool {
    exists|i: int| 0 <= i < k && #[trigger] probe(h, i, m) == j
}

/// Whether `after` is `before` with the bits for the hashes `h` set as well,
/// and no other bit changed.
pub open spec fn with_hashes(before: Seq<u8>, after: Seq<u8>, k: int, h: (u64, u64)) -> bool {
    &&& after.len() == before.len()
    &&& forall|j: int|
        0 <= j < bit_len(before) ==> (#[trigger] bit_set(after, j) <==> bit_set(before, j)
            || probed(h, k, bit_len(before), j))
}

/// Sets bit `j`.
fn set_bit(bits: &mut Vec<u8>, j: usize)
    requires
        j < bit_len(old(bits)@),
    ensures
        final(bits)@.len() == old(bits)@.len(),
        forall|t: int|
            0 <= t < bit_len(old(bits)@) ==> (#[trigger] bit_set(final(bits)@, t) <==> bit_set(
                old(bits)@,
                t,
            ) || t == j),
    no_unwind
{
    let byte: usize = j / 8;
    let s: u8 = (j % 8) as u8;
    let b: u8 = bits[byte];
    bits[byte] = b | (1u8 << s);
    proof {
        let ghost before = old(bits)@;
        let ghost after = bits@;
        let ghost c = b | (1u8 << s);
        assert forall|t: int| 0 <= t < bit_len(before) implies (#[trigger] bit_set(after, t)
            <==> bit_set(before, t) || t == j) by {
            if t / 8 == byte {
                let u = (t % 8) as u8;
                assert(u < 8 && s < 8 ==> ((b | (1u8 << s)) >> u) & 1 == (if u == s {
                    1u8
                } else {
                    (b >> u) & 1
                })) by (bit_vector);
            }
        }
    }
}

// ---------------------------------------------------------------------------
// The builder
// ---------------------------------------------------------------------------

/// A filter of the deployed size that domains can be added to.
pub struct BloomBuilder {
    bits: Vec<u8>,
}

impl View for BloomBuilder {
    type V = Seq<u8>;

    /// The bits set so far.
    closed spec fn view(&self) -> Seq<u8> {
        self.bits@
    }
}

impl BloomBuilder {
    #[verifier::type_invariant]
    spec fn inv(self) -> bool {
        self.bits@.len() == BLOOM_M_BYTES
    }

    /// An empty filter.
    pub fn new() -> (r: Self)
        ensures
            r@ == zeros(BLOOM_M_BYTES as nat),
    {
        let bits = vec![0u8; BLOOM_M_BYTES];
        assert(bits@ =~= zeros(BLOOM_M_BYTES as nat));
        Self { bits }
    }

    /// Adds a domain given by its two hashes.
    pub fn add_hashed(&mut self, h1: u64, h2: u64)
        ensures
            with_hashes(old(self)@, final(self)@, BLOOM_K as int, (h1, h2)),
    {
        proof {
            use_type_invariant(&*self);
        }
        let ghost before = self@;
        let k: u64 = BLOOM_K as u64;
        let mut i: u64 = 0;
        while i < k
            invariant
                i <= k,
                k == BLOOM_K,
                before.len() == BLOOM_M_BYTES,
                with_hashes(before, self@, i as int, (h1, h2)),
            decreases k - i,
        {
            let idx: u64 = probe_index(h1, h2, i, BLOOM_M_BITS as u64);
            let ghost middle = self@;
            set_bit(&mut self.bits, idx as usize);
            proof {
                assert forall|j: int| 0 <= j < bit_len(before) implies (#[trigger] bit_set(self@, j)
                    <==> bit_set(before, j) || probed((h1, h2), i + 1, bit_len(before), j)) by {
                    assert(bit_set(self@, j) <==> bit_set(middle, j) || j == idx);
                    assert(probe((h1, h2), i as int, bit_len(before)) == idx);
                }
            }
            i += 1;
        }
    }

    /// Adds a domain.
    pub fn add(&mut self, domain: &str)
        ensures
            with_hashes(old(self)@, final(self)@, BLOOM_K as int, domain_hashes(domain@)),
    {
        let (h1, h2) = hash_pair(domain);
        self.add_hashed(h1, h2);
    }

    /// The bits set so far.
    pub fn bits(&self) -> (r: &[u8])
        ensures
            r@ == self@,
            r@.len() == BLOOM_M_BYTES,
    {
        proof {
            use_type_invariant(self);
        }
        self.bits.as_slice()
    }

    /// Looks up exactly this domain.
    pub fn contains(&self, domain: &str) -> (r: bool)
        ensures
            r == holds(self@, BLOOM_K as int, domain@),
    {
        BloomFilter::from_slice(self.bits(), BLOOM_K).contains(domain)
    }

    /// Looks up a domain by its two hashes.
    pub fn contains_hashed(&self, h1: u64, h2: u64) -> (r: bool)
        ensures
            r == holds_hashes(self@, BLOOM_K as int, (h1, h2)),
    {
        BloomFilter::from_slice(self.bits(), BLOOM_K).contains_hashed(h1, h2)
    }

    /// The number of bits that are set.
    pub fn count_set_bits(&self) -> (r: u64)
        ensures
            r == set_below(self@, bit_len(self@)),
    {
        let bits = self.bits();
        let filter = BloomFilter::from_slice(bits, BLOOM_K);
        let n: usize = BLOOM_M_BITS;
        let mut count: u64 = 0;
        let mut j: usize = 0;
        while j < n
            invariant
                j <= n,
                n == bit_len(bits@),
                n == BLOOM_M_BITS,
                filter.bits() == bits@,
                count <= j,
                count == set_below(bits@, j as int),
            decreases n - j,
        {
            if filter.get_bit(j) {
                count += 1;
            }
            j += 1;
        }
        count
    }
}

/// The number of set bits among the first `n`.
pub open spec fn set_below(bits: Seq<u8>, n: int) -> nat
    decreases n,
{
    if n <= 0 {
        0
    } else {
        set_below(bits, n - 1) + (if bit_set(bits, n - 1) {
            1nat
        } else {
            0nat
        })
    }
}

/// Whether the filter under construction blocks `domain`: it, or a parent
/// domain, was added.
pub fn is_blocked(builder: &BloomBuilder, domain: &str) -> (r: bool)
    ensures
        r == holds_or_parent(builder@, BLOOM_K as int, domain@),
{
    BloomFilter::from_slice(builder.bits(), BLOOM_K).contains_or_parent(domain)
}

/// Reduces a line of a block list to the domain it stands for, exactly as the
/// client reduces a URI.
pub fn normalize(raw: &str) -> (r: String)
    ensures
        r@ == normalized(raw@),
{
    normalize_domain(raw)
}

// ---------------------------------------------------------------------------
// Block lists
// ---------------------------------------------------------------------------

/// The domain that a line of a block list adds, if any. Empty lines and
/// comments add none. A leading `*.` is dropped, since a domain stands for its
/// subdomains anyway. A name without a dot is kept if it is two bytes or more.
pub open spec fn list_entry(line: Seq<char>) -> Option<Seq<char>> {
    let content = trimmed(line);
    let domain = normalized(without_prefix(content, "*."@));
    if content.len() == 0 || content[0] == '#' {
        None
    } else if domain.contains('.') || encode_utf8(domain).len() >= 2 {
        Some(domain)
    } else {
        None
    }
}

/// Whether a line of a block list sets bit `j` of a filter of `m` bits.
pub open spec fn line_sets(line: Seq<char>, m: int, j: int) -> bool {
    list_entry(line) matches Some(domain) && probed(domain_hashes(domain), BLOOM_K as int, m, j)
}

/// Whether `after` is `before` with the bits for the domains of the first `n`
/// lines set as well, and no other bit changed.
pub open spec fn with_lines(before: Seq<u8>, after: Seq<u8>, lines: Seq<String>, n: int) -> bool {
    &&& after.len() == before.len()
    &&& forall|j: int|
        0 <= j < bit_len(before) ==> (#[trigger] bit_set(after, j) <==> bit_set(before, j)
            || exists|i: int| 0 <= i < n && line_sets(#[trigger] lines[i]@, bit_len(before), j))
}

/// The number of the first `n` lines that add a domain.
pub open spec fn entries(lines: Seq<String>, n: int) -> nat
    decreases n,
{
    if n <= 0 {
        0
    } else {
        entries(lines, n - 1) + (if list_entry(lines[n - 1]@) is Some {
            1nat
        } else {
            0nat
        })
    }
}

/// The domain that a line of a block list adds, if any.
pub fn entry_of(line: &str) -> (r: Option<String>)
    ensures
        r is Some <==> list_entry(line@) is Some,
        r matches Some(domain) ==> list_entry(line@) == Some(domain@),
{
    let chars = chars_of(line);
    let content = trim(chars.as_slice());
    if content.len() == 0 || content[0] == '#' {
        return None;
    }
    let rest = match strip_prefix(content, "*.") {
        Some(rest) => rest,
        None => content,
    };
    let domain = normalize(text_of(rest).as_str());
    let letters = chars_of(domain.as_str());
    let dot: usize = position(letters.as_slice(), '.', 0);
    proof {
        lemma_first_at(domain@, '.', 0);
        if dot < domain@.len() {
            assert(domain@[dot as int] == '.');
        }
    }
    if dot < letters.len() || domain.as_str().as_bytes().len() >= 2 {
        Some(domain)
    } else {
        None
    }
}

/// Adds the domains of a block list, given line by line. Returns the number of
/// lines that added one, and the number of those that did not.
pub fn load_list(lines: &Vec<String>, builder: &mut BloomBuilder) -> (r: (usize, usize))
    ensures
        with_lines(old(builder)@, final(builder)@, lines@, lines@.len() as int),
        r.0 == entries(lines@, lines@.len() as int),
        r.0 + r.1 == lines@.len(),
{
    let ghost before = builder@;
    let mut added: usize = 0;
    let mut skipped: usize = 0;
    let mut i: usize = 0;
    while i < lines.len()
        invariant
            i <= lines@.len(),
            added + skipped == i,
            added == entries(lines@, i as int),
            with_lines(before, builder@, lines@, i as int),
        decreases lines@.len() - i,
    {
        let ghost middle = builder@;
        let ghost m = bit_len(before);
        match entry_of(lines[i].as_str()) {
            Some(domain) => {
                builder.add(domain.as_str());
                added += 1;
                proof {
                    assert forall|j: int| 0 <= j < m implies (#[trigger] bit_set(builder@, j)
                        <==> bit_set(before, j) || exists|t: int|
                        0 <= t < i + 1 && line_sets(#[trigger] lines@[t]@, m, j)) by {
                        assert(bit_set(builder@, j) <==> bit_set(middle, j) || line_sets(
                            lines@[i as int]@,
                            m,
                            j,
                        ));
                        assert(bit_set(middle, j) <==> bit_set(before, j) || exists|t: int|
                            0 <= t < i && line_sets(#[trigger] lines@[t]@, m, j));
                    }
                }
            },
            None => {
                skipped += 1;
                proof {
                    assert forall|j: int| 0 <= j < m implies (#[trigger] bit_set(builder@, j)
                        <==> bit_set(before, j) || exists|t: int|
                        0 <= t < i + 1 && line_sets(#[trigger] lines@[t]@, m, j)) by {
                        assert(!line_sets(lines@[i as int]@, m, j));
                    }
                }
            },
        }
        i += 1;
    }
    (added, skipped)
}

// ---------------------------------------------------------------------------
// Signing and the file
// ---------------------------------------------------------------------------

/// Signs the bits of a filter for a version. Returns the digest of the bits and
/// the signature, both in hexadecimal. With them, the bits are accepted under
/// the public key of the same secret key.
pub fn sign_filter(bits: &[u8], version: u64, secret_key: &[u8; 32]) -> (r: (String, String))
    ensures
        r.0@ == hex_text(sha256(bits@)),
        r.1@ == hex_text(
            ed25519_signature(secret_key@, signed_message(sha256(bits@), version)),
        ),
        is_hex(r.0@) && hex_bytes(r.0@).len() == 32,
        is_hex(r.1@) && hex_bytes(r.1@).len() == 64,
        bits@.len() > 0 ==> verify_fault(
            Payload { bytes: bits@, sha256: r.0@, signature: r.1@, version },
            ed25519_public_key(secret_key@),
        ) is None,
{
    let digest = sha256_of(bits);
    let message = message_to_sign(&digest, version);
    let signature = ed25519_sign(secret_key, message.as_slice());
    proof {
        lemma_hex_round_trip(digest@);
        lemma_hex_round_trip(signature@);
    }
    (hex_encode(digest.as_slice()), hex_encode(signature.as_slice()))
}

/// What is signed for bits with this digest, for this version.
pub fn message_to_sign(digest: &[u8; 32], version: u64) -> (r: Vec<u8>)
    ensures
        r@ == signed_message(digest@, version),
{
    let mut message = slice_to_vec(digest.as_slice());
    push_le(&mut message, version, 8);
    message
}

/// Lays out a filter file.
pub fn filter_file(version: u64, k: u32, sha256: &[u8], signature: &[u8], bits: &[u8]) -> (r: Vec<
    u8,
>)
    ensures
        r@ == file_bytes(version, k, sha256@, signature@, bits@),
{
    let mut out: Vec<u8> = Vec::new();
    push_le(&mut out, version, 8);
    push_le(&mut out, k as u64, 4);
    push_le(&mut out, bits.len() as u64, 8);
    out.extend_from_slice(sha256);
    out.extend_from_slice(signature);
    out.extend_from_slice(bits);
    assert(out@ =~= file_bytes(version, k, sha256@, signature@, bits@));
    out
}

/// A signed filter: the file, and what was signed, in hexadecimal.
#[derive(Debug)]
pub struct SignedFilter {
    pub file: Vec<u8>,
    pub sha256_hex: String,
    pub signature_hex: String,
}

/// Signs the filter under construction and lays it out as a file. The file is
/// read back as what it was made from, and a client that knows the public key
/// of the same secret key takes it.
pub fn finish(builder: &BloomBuilder, version: u64, secret_key: &[u8; 32]) -> (r: SignedFilter)
    ensures
        ({
            let digest = sha256(builder@);
            let signature = ed25519_signature(secret_key@, signed_message(digest, version));
            &&& r.sha256_hex@ == hex_text(digest)
            &&& r.signature_hex@ == hex_text(signature)
            &&& r.file@ == file_bytes(version, BLOOM_K, digest, signature, builder@)
            &&& file_fault(r.file@) is None
            &&& parts(r.file@) == (Embedded {
                version,
                k: BLOOM_K,
                m_bytes: BLOOM_M_BYTES,
                sha256: digest,
                sig: signature,
                bits: builder@,
            })
        }),
        forall|s: State|
            s.public_key == ed25519_public_key(secret_key@) ==> #[trigger] embedded_fault(
                s,
                r.file@,
            ) is None,
{
    let bits = builder.bits();
    let (sha256_hex, signature_hex) = sign_filter(bits, version, secret_key);
    let ghost digest = sha256(builder@);
    let ghost signature = ed25519_signature(secret_key@, signed_message(digest, version));
    proof {
        lemma_hex_round_trip(digest);
        lemma_hex_round_trip(signature);
    }
    let digest_bytes = match hex_decode(sha256_hex.as_str()) {
        Ok(bytes) => bytes,
        Err(_) => Vec::new(),
    };
    let signature_bytes = match hex_decode(signature_hex.as_str()) {
        Ok(bytes) => bytes,
        Err(_) => Vec::new(),
    };
    let file = filter_file(
        version,
        BLOOM_K,
        digest_bytes.as_slice(),
        signature_bytes.as_slice(),
        bits,
    );
    proof {
        lemma_file_round_trip(version, BLOOM_K, digest, signature, builder@);
    }
    SignedFilter { file, sha256_hex, signature_hex }
}

// ---------------------------------------------------------------------------
// The command line
// ---------------------------------------------------------------------------

/// A block list to load: what it is called, and where it is.
#[derive(Debug)]
pub struct ListSource {
    pub label: String,
    pub path: String,
}

/// What the command line asks for.
#[derive(Debug)]
pub struct BuildOptions {
    pub lists: Vec<ListSource>,
    pub output: String,
}

/// The content of [`BuildOptions`]: label and path of each list, and the file
/// to write.
pub struct Options {
    pub lists: Seq<(Seq<char>, Seq<char>)>,
    pub output: Seq<char>,
}

impl View for BuildOptions {
    type V = Options;

    open spec fn view(&self) -> Options {
        Options {
            lists: self.lists@.map_values(|l: ListSource| (l.label@, l.path@)),
            output: self.output@,
        }
    }
}

/// The label of the lists that an option introduces.
pub open spec fn label_of(option: Seq<char>) -> Option<Seq<char>> {
    if option == "--nsfw"@ {
        Some("NSFW"@)
    } else if option == "--ads"@ {
        Some("Ads"@)
    } else if option == "--tracking"@ {
        Some("Tracking"@)
    } else if option == "--phishing"@ {
        Some("Phishing"@)
    } else if option == "--list"@ {
        Some("Custom"@)
    } else {
        None
    }
}

/// What the arguments from position `i` on add to `o`. An option takes the
/// argument after it, whatever that is; an option at the end, and an argument
/// that is no option, adds nothing.
pub open spec fn options_from(args: Seq<String>, i: int, o: Options) -> Options
    decreases args.len() - i,
{
    if i + 1 >= args.len() {
        o
    } else if label_of(args[i]@) is Some {
        options_from(
            args,
            i + 2,
            Options { lists: o.lists.push((label_of(args[i]@)->0, args[i + 1]@)), ..o },
        )
    } else if args[i]@ == "--output"@ {
        options_from(args, i + 2, Options { output: args[i + 1]@, ..o })
    } else {
        options_from(args, i + 1, o)
    }
}

/// The label of the lists that an option introduces.
fn list_label(option: &str) -> (r: Option<String>)
    ensures
        r is Some <==> label_of(option@) is Some,
        r matches Some(label) ==> label_of(option@) == Some(label@),
{
    if same_text(option, "--nsfw") {
        Some(String::from_str("NSFW"))
    } else if same_text(option, "--ads") {
        Some(String::from_str("Ads"))
    } else if same_text(option, "--tracking") {
        Some(String::from_str("Tracking"))
    } else if same_text(option, "--phishing") {
        Some(String::from_str("Phishing"))
    } else if same_text(option, "--list") {
        Some(String::from_str("Custom"))
    } else {
        None
    }
}

/// Reads the command line; the first argument is the name of the program.
pub fn parse_args(args: &Vec<String>) -> (r: BuildOptions)
    ensures
        r@ == options_from(
            args@,
            1,
            Options { lists: Seq::empty(), output: "initial_filter.bin"@ },
        ),
{
    let mut lists: Vec<ListSource> = Vec::new();
    let mut output = String::from_str("initial_filter.bin");
    let ghost start = Options { lists: Seq::empty(), output: "initial_filter.bin"@ };
    let ghost named = |l: ListSource| (l.label@, l.path@);
    assert(lists@.map_values(named) =~= Seq::empty());
    let len: usize = args.len();
    let mut i: usize = 1;
    while i < len && len - i > 1
        invariant
            len == args@.len(),
            named == (|l: ListSource| (l.label@, l.path@)),
            options_from(args@, 1, start) == options_from(
                args@,
                i as int,
                Options { lists: lists@.map_values(named), output: output@ },
            ),
        decreases len - i,
    {
        match list_label(args[i].as_str()) {
            Some(label) => {
                let ghost before = lists@;
                lists.push(ListSource { label, path: args[i + 1].clone() });
                assert(lists@.map_values(named) =~= before.map_values(named).push(
                    (label_of(args@[i as int]@)->0, args@[i + 1]@),
                ));
                i += 2;
            },
            None => {
                if same_text(args[i].as_str(), "--output") {
                    output = args[i + 1].clone();
                    i += 2;
                } else {
                    i += 1;
                }
            },
        }
    }
    BuildOptions { lists, output }
}

} // verus!
