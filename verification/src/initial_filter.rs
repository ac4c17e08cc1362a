//! The filter that ships with the product, so that lookups work before the
//! first update.
//!
//! The file holds, without gaps: the version (8 bytes), the number of tested
//! bits (4 bytes) and the size of the filter (8 bytes), each with the lowest
//! byte first; the SHA-256 digest of the bits (32 bytes); the signature (64
//! bytes); and the bits.

use vstd::prelude::*;
use vstd::slice::{slice_subrange, slice_to_vec};

use crate::bloom::BLOOM_M_BYTES;
use crate::hexadecimal::{hex_encode, hex_text};
use crate::little_endian::{le_bytes, le_value, lemma_byte_ranges, lemma_le_round_trip, read_le};
use crate::signing::{
    verify_fault, verify_payload, Payload, SignedPayload, VerifyError, VerifyFault,
};
use crate::state::{BrxonState, Filter, State};
use crate::text::{decimal, decimal_text};

verus! {

/// Size of what precedes the bits.
pub const HEADER_BYTES: usize = 116;

/// A filter file, taken apart.
#[derive(Debug)]
pub struct EmbeddedFilter<'a> {
    pub version: u64,
    pub k: u32,
    pub m_bytes: usize,
    pub sha256: [u8; 32],
    pub sig: [u8; 64],
    pub bits: &'a [u8],
}

/// The content of an [`EmbeddedFilter`].
pub struct Embedded {
    pub version: u64,
    pub k: u32,
    pub m_bytes: usize,
    pub sha256: Seq<u8>,
    pub sig: Seq<u8>,
    pub bits: Seq<u8>,
}

impl<'a> View for EmbeddedFilter<'a> {
    type V = Embedded;

    open spec fn view(&self) -> Embedded {
        Embedded {
            version: self.version,
            k: self.k,
            m_bytes: self.m_bytes,
            sha256: self.sha256@,
            sig: self.sig@,
            bits: self.bits@,
        }
    }
}

/// The size of the filter that a file with a complete header declares.
pub open spec fn declared_size(d: Seq<u8>) -> usize {
    le_value(d.subrange(12, 20)) as u64 as usize
}

/// The parts of a well-formed file.
pub open spec fn parts(d: Seq<u8>) -> Embedded {
    let m = declared_size(d);
    Embedded {
        version: le_value(d.subrange(0, 8)) as u64,
        k: le_value(d.subrange(8, 12)) as u32,
        m_bytes: m,
        sha256: d.subrange(20, 52),
        sig: d.subrange(52, 116),
        bits: d.subrange(116, 116 + m),
    }
}

/// What is shown where a file cannot be read: its header is incomplete, bits
/// are missing, or the filter is not of the deployed size. A declared size for
/// which the end of the bits is no machine word counts as a wrong size.
pub open spec fn file_fault(d: Seq<u8>) -> Option<Seq<char>> {
    let m = declared_size(d);
    if d.len() < HEADER_BYTES {
        Some("initial_filter.bin أصغر من المتوقع"@)
    } else if HEADER_BYTES + m <= usize::MAX && d.len() < HEADER_BYTES + m {
        Some("initial_filter.bin ناقص — متوقع "@ + decimal(m as nat) + " بايت"@)
    } else if m != BLOOM_M_BYTES {
        Some(
            "حجم الفلتر "@ + decimal(m as nat) + " لا يتطابق مع BLOOM_M_BYTES "@ + decimal(
                BLOOM_M_BYTES as nat,
            ),
        )
    } else {
        None
    }
}

/// The file for a filter.
pub open spec fn file_bytes(
    version: u64,
    k: u32,
    sha256: Seq<u8>,
    sig: Seq<u8>,
    bits: Seq<u8>,
) -> Seq<u8> {
    le_bytes(version as nat, 8) + le_bytes(k as nat, 4) + le_bytes(bits.len(), 8) + sha256 + sig
        + bits
}

/// A file laid out for a filter of the deployed size is read back as what it
/// was laid out from.
pub proof fn lemma_file_round_trip(
    version: u64,
    k: u32,
    sha256: Seq<u8>,
    sig: Seq<u8>,
    bits: Seq<u8>,
)
    requires
        sha256.len() == 32,
        sig.len() == 64,
        bits.len() == BLOOM_M_BYTES,
    ensures
        file_fault(file_bytes(version, k, sha256, sig, bits)) is None,
        parts(file_bytes(version, k, sha256, sig, bits)) == (Embedded {
            version,
            k,
            m_bytes: BLOOM_M_BYTES,
            sha256,
            sig,
            bits,
        }),
{
    let d = file_bytes(version, k, sha256, sig, bits);
    lemma_byte_ranges();
    lemma_le_round_trip(version as nat, 8);
    lemma_le_round_trip(k as nat, 4);
    lemma_le_round_trip(bits.len(), 8);
    assert(d.subrange(0, 8) =~= le_bytes(version as nat, 8));
    assert(d.subrange(8, 12) =~= le_bytes(k as nat, 4));
    assert(d.subrange(12, 20) =~= le_bytes(bits.len(), 8));
    assert(d.subrange(20, 52) =~= sha256);
    assert(d.subrange(52, 116) =~= sig);
    assert(d.subrange(116, 116 + BLOOM_M_BYTES) =~= bits);
}

/// Copies 32 bytes.
fn copy_32(d: &[u8], at: usize) -> (r: [u8; 32])
    requires
        at + 32 <= d@.len(),
    ensures
        r@ == d@.subrange(at as int, at + 32),
{
    let len: usize = d.len();
    let mut out: [u8; 32] = [0u8; 32];
    let mut i: usize = 0;
    while i < 32
        invariant
            i <= 32,
            len == d@.len(),
            at + 32 <= len,
            forall|j: int| 0 <= j < i ==> out@[j] == d@[at + j],
        decreases 32 - i,
    {
        out[i] = d[at + i];
        i += 1;
    }
    assert(out@ =~= d@.subrange(at as int, at + 32));
    out
}

/// Copies 64 bytes.
fn copy_64(d: &[u8], at: usize) -> (r: [u8; 64])
    requires
        at + 64 <= d@.len(),
    ensures
        r@ == d@.subrange(at as int, at + 64),
{
    let len: usize = d.len();
    let mut out: [u8; 64] = [0u8; 64];
    let mut i: usize = 0;
    while i < 64
        invariant
            i <= 64,
            len == d@.len(),
            at + 64 <= len,
            forall|j: int| 0 <= j < i ==> out@[j] == d@[at + j],
        decreases 64 - i,
    {
        out[i] = d[at + i];
        i += 1;
    }
    assert(out@ =~= d@.subrange(at as int, at + 64));
    out
}

impl<'a> EmbeddedFilter<'a> {
    /// Takes a filter file apart.
    pub fn parse(d: &'a [u8]) -> (r: Result<Self, String>)
        ensures
            r is Ok <==> file_fault(d@) is None,
            r matches Ok(f) ==> f@ == parts(d@) && f.bits@.len() == BLOOM_M_BYTES,
            r matches Err(text) ==> file_fault(d@) == Some(text@),
    {
        if d.len() < HEADER_BYTES {
            return Err(String::from_str("initial_filter.bin أصغر من المتوقع"));
        }
        let version: u64 = read_le(d, 0, 8);
        let k_field: u64 = read_le(d, 8, 4);
        let size: u64 = read_le(d, 12, 8);
        proof {
            lemma_byte_ranges();
        }
        let k: u32 = k_field as u32;
        let m_bytes: usize = size as usize;
        let sha256 = copy_32(d, 20);
        let sig = copy_64(d, 52);
        let missing = match HEADER_BYTES.checked_add(m_bytes) {
            Some(end) => d.len() < end,
            None => false,
        };
        if missing {
            let mut text = String::from_str("initial_filter.bin ناقص — متوقع ");
            text.append(decimal_text(m_bytes as u64).as_str());
            text.append(" بايت");
            return Err(text);
        }
        if m_bytes != BLOOM_M_BYTES {
            let mut text = String::from_str("حجم الفلتر ");
            text.append(decimal_text(m_bytes as u64).as_str());
            text.append(" لا يتطابق مع BLOOM_M_BYTES ");
            text.append(decimal_text(BLOOM_M_BYTES as u64).as_str());
            return Err(text);
        }
        let bits = slice_subrange(d, HEADER_BYTES, HEADER_BYTES + m_bytes);
        Ok(Self { version, k, m_bytes, sha256, sig, bits })
    }

    /// The bits as a payload with digest and signature.
    pub fn payload(&self) -> (r: SignedPayload)
        ensures
            r@ == self@.payload(),
    {
        SignedPayload {
            payload_bytes: slice_to_vec(self.bits),
            sha256: hex_encode(self.sha256.as_slice()),
            signature: hex_encode(self.sig.as_slice()),
            version: self.version,
        }
    }

    /// Puts the filter in use if the verdict on its payload is good.
    pub fn install(&self, state: &mut BrxonState, verdict: Result<(), VerifyError>) -> (r: Result<
        (),
        String,
    >)
        ensures
            r is Ok <==> verdict is Ok,
            r matches Err(text) ==> verdict matches Err(e) && text@ == refused_text(e@),
            final(state)@ == if verdict is Ok {
                installed(old(state)@, self@)
            } else {
                old(state)@
            },
    {
        match verdict {
            Ok(_) => {
                state.filter.current = slice_to_vec(self.bits);
                state.filter.previous = slice_to_vec(self.bits);
                state.filter.version = self.version;
                state.filter.k = self.k;
                Ok(())
            },
            Err(e) => {
                let mut text = String::from_str("فشل التحقق من الفلتر المضمّن: ");
                text.append(e.message().as_str());
                Err(text)
            },
        }
    }
}

impl Embedded {
    /// The bits as a payload with digest and signature.
    pub open spec fn payload(self) -> Payload {
        Payload {
            bytes: self.bits,
            sha256: hex_text(self.sha256),
            signature: hex_text(self.sig),
            version: self.version,
        }
    }
}

/// The state with an embedded filter in use, both as the current and as the
/// previous one.
pub open spec fn installed(s: State, f: Embedded) -> State {
    State {
        filter: Filter {
            current: f.bits,
            previous: f.bits,
            version: f.version,
            k: f.k,
            m_bytes: s.filter.m_bytes,
        },
        ..s
    }
}

/// What is shown where the signature of an embedded filter is bad.
pub open spec fn refused_text(fault: VerifyFault) -> Seq<char> {
    "فشل التحقق من الفلتر المضمّن: "@ + fault.text()
}

/// What is shown where a filter file is not taken: it cannot be read, or its
/// signature is bad.
pub open spec fn embedded_fault(s: State, d: Seq<u8>) -> Option<Seq<char>> {
    match file_fault(d) {
        Some(text) => Some(text),
        None => match verify_fault(parts(d).payload(), s.public_key) {
            Some(fault) => Some(refused_text(fault)),
            None => None,
        },
    }
}

/// Puts the filter of a file in use if the file can be read and its signature
/// is good; otherwise nothing changes.
pub fn load_embedded_filter(state: &mut BrxonState, data: &[u8]) -> (r: Result<(), String>)
    ensures
        r is Ok <==> embedded_fault(old(state)@, data@) is None,
        r matches Err(text) ==> embedded_fault(old(state)@, data@) == Some(text@),
        final(state)@ == if r is Ok {
            installed(old(state)@, parts(data@))
        } else {
            old(state)@
        },
        old(state)@.well_formed() ==> final(state)@.well_formed(),
{
    let embedded = match EmbeddedFilter::parse(data) {
        Ok(embedded) => embedded,
        Err(text) => {
            return Err(text);
        },
    };
    let payload = embedded.payload();
    let verdict = verify_payload(&payload, &state.public_key);
    embedded.install(state, verdict)
}

} // verus!
