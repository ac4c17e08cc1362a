//! The note that goes with a freshly built filter: its keys and figures, and
//! the public key in the form in which it is built into the client.

use vstd::prelude::*;

use crate::bloom::{BLOOM_K, BLOOM_M_BYTES};
use crate::build_filter::SignedFilter;
use crate::hexadecimal::{hex_encode, hex_text};
use crate::signing::{ed25519_public_key, public_key_of};
use crate::text::{decimal, decimal_text, replace, replaced_from};

verus! {

// ---------------------------------------------------------------------------
// A key as source text
// ---------------------------------------------------------------------------

/// Number of bytes in a row of a key.
pub const ROW_BYTES: usize = 8;

/// The upper-case hexadecimal digit with the value `n`.
pub open spec fn upper_digit(n: int) -> char {
    if n < 10 {
        ('0' as int + n) as char
    } else {
        ('A' as int + n - 10) as char
    }
}

/// A byte as a Rust literal: `0x` and two upper-case digits.
pub open spec fn byte_literal(b: u8) -> Seq<char> {
    "0x"@ + seq![upper_digit(b as int / 16), upper_digit(b as int % 16)]
}

/// The first `n` bytes from position `at` on as literals, with a comma and a
/// space between them.
pub open spec fn literals(key: Seq<u8>, at: int, n: nat) -> Seq<char>
    decreases n,
{
    if n == 0 {
        Seq::empty()
    } else if n == 1 {
        byte_literal(key[at])
    } else {
        literals(key, at, (n - 1) as nat) + ", "@ + byte_literal(key[at + n - 1])
    }
}

/// The first `n` rows of a key, each indented, with a comma and a line feed
/// between them.
pub open spec fn rows(key: Seq<u8>, n: nat) -> Seq<char>
    decreases n,
{
    if n == 0 {
        Seq::empty()
    } else {
        let row = "    "@ + literals(key, ROW_BYTES * (n - 1), ROW_BYTES as nat);
        if n == 1 {
            row
        } else {
            rows(key, (n - 1) as nat) + ",\n"@ + row
        }
    }
}

/// Writes an upper-case hexadecimal digit.
fn push_upper_digit(out: &mut String, n: u8)
    requires
        n < 16,
    ensures
        final(out)@ == old(out)@.push(upper_digit(n as int)),
{
    let code: u8 = if n < 10 {
        48 + n
    } else {
        55 + n
    };
    out.push(code as char);
}

/// Writes a byte as a literal.
fn push_literal(out: &mut String, b: u8)
    ensures
        final(out)@ == old(out)@ + byte_literal(b),
{
    out.append("0x");
    push_upper_digit(out, b / 16);
    push_upper_digit(out, b % 16);
    assert(out@ == old(out)@ + byte_literal(b));
}

/// Writes a key as rows of literals.
pub fn key_rows(key: &[u8; 32]) -> (r: String)
    ensures
        r@ == rows(key@, 4),
{
    let mut out = String::new();
    let mut row: usize = 0;
    while row < 4
        invariant
            row <= 4,
            out@ == rows(key@, row as nat),
        decreases 4 - row,
    {
        let ghost above = out@;
        if row > 0 {
            out.append(",\n");
        }
        let ghost start = out@;
        out.append("    ");
        let mut i: usize = 0;
        while i < ROW_BYTES
            invariant
                i <= ROW_BYTES,
                row < 4,
                out@ == start + ("    "@ + literals(key@, ROW_BYTES * row, i as nat)),
            decreases ROW_BYTES - i,
        {
            let ghost before = literals(key@, ROW_BYTES * row, i as nat);
            if i > 0 {
                out.append(", ");
            }
            push_literal(&mut out, key[ROW_BYTES * row + i]);
            i += 1;
            assert(literals(key@, ROW_BYTES * row, i as nat) == if i == 1 {
                byte_literal(key@[ROW_BYTES * row as int])
            } else {
                before + ", "@ + byte_literal(key@[ROW_BYTES * row + i - 1])
            });
            assert(out@ == start + ("    "@ + literals(key@, ROW_BYTES * row, i as nat)));
        }
        row += 1;
        assert(out@ == rows(key@, row as nat));
    }
    out
}

/// Writes a key as rows of literals, with the indentation halved.
pub fn key_listing(key: &[u8; 32]) -> (r: String)
    ensures
        r@ == replaced_from(rows(key@, 4), "    "@, "  "@, 0),
{
    proof {
        reveal_strlit("    ");
    }
    replace(key_rows(key).as_str(), "    ", "  ")
}

// ---------------------------------------------------------------------------
// The note
// ---------------------------------------------------------------------------

/// Where the note for the filter file `output` is written.
pub fn keys_path(output: &str) -> (r: String)
    ensures
        r@ == replaced_from(output@, ".bin"@, "_keys.json"@, 0),
{
    proof {
        reveal_strlit(".bin");
    }
    replace(output, ".bin", "_keys.json")
}

/// The text of the note. The rows of the public key stand in it with their line
/// feeds.
pub open spec fn note(
    version: u64,
    secret_key: Seq<u8>,
    sha256_hex: Seq<char>,
    signature_hex: Seq<char>,
    domains_added: nat,
    fill_ratio: Seq<char>,
) -> Seq<char> {
    let public_key = ed25519_public_key(secret_key);
    "{\n  \"note\":           \"احتفظ بالمفتاح الخاص في مكان آمن — لا تشاركه\",\n"@
        + "  \"version\":        "@ + decimal(version as nat) + ",\n"@
        + "  \"public_key_hex\": \""@ + hex_text(public_key) + "\",\n"@
        + "  \"private_key_hex\":\""@ + hex_text(secret_key) + "\",\n"@
        + "  \"sha256\":         \""@ + sha256_hex + "\",\n"@
        + "  \"signature\":      \""@ + signature_hex + "\",\n"@
        + "  \"m_bytes\":        "@ + decimal(BLOOM_M_BYTES as nat) + ",\n"@
        + "  \"k\":              "@ + decimal(BLOOM_K as nat) + ",\n"@
        + "  \"domains_added\":  "@ + decimal(domains_added) + ",\n"@
        + "  \"fill_ratio_pct\": "@ + fill_ratio + ",\n"@
        + "  \"rust_key_array\": \"[\\n"@ + rows(public_key, 4) + "\\n]\"\n}"@
}

/// Writes the note for a filter that was signed with the given key. The
/// percentage of bits that are set comes as text.
pub fn keys_json(
    version: u64,
    secret_key: &[u8; 32],
    signed: &SignedFilter,
    domains_added: usize,
    fill_ratio: &str,
) -> (r: String)
    ensures
        r@ == note(
            version,
            secret_key@,
            signed.sha256_hex@,
            signed.signature_hex@,
            domains_added as nat,
            fill_ratio@,
        ),
{
    let public_key = public_key_of(secret_key);
    let mut out = String::from_str(
        "{\n  \"note\":           \"احتفظ بالمفتاح الخاص في مكان آمن — لا تشاركه\",\n",
    );
    out.append("  \"version\":        ");
    out.append(decimal_text(version).as_str());
    out.append(",\n");
    out.append("  \"public_key_hex\": \"");
    out.append(hex_encode(public_key.as_slice()).as_str());
    out.append("\",\n");
    out.append("  \"private_key_hex\":\"");
    out.append(hex_encode(secret_key.as_slice()).as_str());
    out.append("\",\n");
    out.append("  \"sha256\":         \"");
    out.append(signed.sha256_hex.as_str());
    out.append("\",\n");
    out.append("  \"signature\":      \"");
    out.append(signed.signature_hex.as_str());
    out.append("\",\n");
    out.append("  \"m_bytes\":        ");
    out.append(decimal_text(BLOOM_M_BYTES as u64).as_str());
    out.append(",\n");
    out.append("  \"k\":              ");
    out.append(decimal_text(BLOOM_K as u64).as_str());
    out.append(",\n");
    out.append("  \"domains_added\":  ");
    out.append(decimal_text(domains_added as u64).as_str());
    out.append(",\n");
    out.append("  \"fill_ratio_pct\": ");
    out.append(fill_ratio);
    out.append(",\n");
    out.append("  \"rust_key_array\": \"[\\n");
    out.append(key_rows(&public_key).as_str());
    out.append("\\n]\"\n}");
    out
}

} // verus!
