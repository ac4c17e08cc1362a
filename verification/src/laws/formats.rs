//! How numbers, keys and filters are written down, told by the characters and
//! bytes that come out.

use vstd::arithmetic::power::{lemma_pow0, lemma_pow_positive, pow};
use vstd::prelude::*;

use crate::hexadecimal::{hex_bytes, hex_digit_value, hex_text, is_hex};
use crate::initial_filter::{file_bytes, file_fault, parts};
use crate::key_file::{byte_literal, literals, note, rows};
use crate::little_endian::{
    le_bytes, le_value, lemma_byte_ranges, lemma_le_round_trip, lemma_le_value_bound,
};
use crate::signing::ed25519_public_key;
use crate::text::{decimal, replaced_from};

verus! {

// ---------------------------------------------------------------------------
// Numbers
// ---------------------------------------------------------------------------

/// The bytes of a number are its digits in base 256, the lowest first.
pub proof fn bytes_are_digits(n: nat, width: nat, i: int)
    requires
        0 <= i < width,
    ensures
        le_bytes(n, width).len() == width,
        le_bytes(n, width)[i] == (n as int / pow(256, i as nat)) % 256,
    decreases width,
{
    lemma_le_len(n, width);
    lemma_pow0(256);
    if i > 0 {
        let less = (i - 1) as nat;
        bytes_are_digits(n / 256, (width - 1) as nat, i - 1);
        assert(le_bytes(n, width)[i] == le_bytes(n / 256, (width - 1) as nat)[i - 1]);
        reveal(pow);
        assert(pow(256, i as nat) == 256 * pow(256, less));
        lemma_pow_positive(256, less);
        vstd::arithmetic::div_mod::lemma_div_denominator(n as int, 256, pow(256, less));
    }
}

proof fn lemma_le_len(n: nat, width: nat)
    ensures
        le_bytes(n, width).len() == width,
    decreases width,
{
    if width > 0 {
        lemma_le_len(n / 256, (width - 1) as nat);
    }
}

/// Bytes that are read as a number are the bytes of that number.
pub proof fn numbers_keep_their_bytes(s: Seq<u8>)
    ensures
        le_bytes(le_value(s), s.len()) == s,
        le_value(s) < pow(256, s.len()),
    decreases s.len(),
{
    lemma_le_value_bound(s);
    if s.len() == 0 {
        assert(le_bytes(le_value(s), 0) =~= s);
    } else {
        numbers_keep_their_bytes(s.skip(1));
        let n = le_value(s);
        assert(n % 256 == s[0] && n / 256 == le_value(s.skip(1)));
        assert(le_bytes(n, s.len()) =~= s);
    }
}

/// The number that decimal digits spell.
pub open spec fn decimal_value(s: Seq<char>) -> int
    decreases s.len(),
{
    if s.len() == 0 {
        0
    } else {
        10 * decimal_value(s.drop_last()) + (s.last() as int - '0' as int)
    }
}

/// A numeral is made of digits, spells its number, and has no leading zero.
pub proof fn numerals_spell_their_number(n: nat)
    ensures
        decimal(n).len() > 0,
        forall|i: int| 0 <= i < decimal(n).len() ==> '0' <= #[trigger] decimal(n)[i] <= '9',
        decimal_value(decimal(n)) == n,
        decimal(n).len() > 1 ==> decimal(n)[0] != '0',
    decreases n,
{
    if n < 10 {
        assert(decimal(n).drop_last() =~= Seq::empty());
        assert(decimal_value(decimal(n).drop_last()) == 0);
    } else {
        let front = decimal(n / 10);
        numerals_spell_their_number(n / 10);
        assert(decimal(n).drop_last() =~= front);
        if front.len() == 1 {
            assert(decimal_value(front) == n / 10);
            assert(front.drop_last() =~= Seq::empty());
            assert(decimal_value(front.drop_last()) == 0);
        }
    }
}

// ---------------------------------------------------------------------------
// Hexadecimal
// ---------------------------------------------------------------------------

/// Each byte is written as two of the digits `0` to `9` and `a` to `f`, the
/// higher first.
pub proof fn hexadecimal_is_written_low_case(bytes: Seq<u8>, i: int)
    requires
        0 <= i < bytes.len(),
    ensures
        hex_text(bytes).len() == 2 * bytes.len(),
        hex_text(bytes)[2 * i] == "0123456789abcdef"@[bytes[i] as int / 16],
        hex_text(bytes)[2 * i + 1] == "0123456789abcdef"@[bytes[i] as int % 16],
{
    reveal_strlit("0123456789abcdef");
    let b = bytes[i] as int;
    assert((2 * i) / 2 == i && (2 * i + 1) / 2 == i && (2 * i) % 2 == 0 && (2 * i + 1) % 2 == 1);
    assert(0 <= b / 16 < 16 && 0 <= b % 16 < 16);
    lemma_low_digits(b / 16);
    lemma_low_digits(b % 16);
}

proof fn lemma_low_digits(n: int)
    requires
        0 <= n < 16,
    ensures
        crate::hexadecimal::hex_digit(n) == "0123456789abcdef"@[n],
{
    reveal_strlit("0123456789abcdef");
    assert(n == 0 || n == 1 || n == 2 || n == 3 || n == 4 || n == 5 || n == 6 || n == 7 || n == 8
        || n == 9 || n == 10 || n == 11 || n == 12 || n == 13 || n == 14 || n == 15);
}

proof fn lemma_digit_values(c: char)
    ensures
        hex_digit_value(c) is Some <==> ('0' <= c <= '9' || 'a' <= c <= 'f' || 'A' <= c <= 'F'),
        hex_digit_value(c) is Some ==> 0 <= hex_digit_value(c)->0 < 16 && (c
            == "0123456789abcdef"@[hex_digit_value(c)->0] || c
            == "0123456789ABCDEF"@[hex_digit_value(c)->0]),
{
    reveal_strlit("0123456789abcdef");
    reveal_strlit("0123456789ABCDEF");
    if hex_digit_value(c) is Some {
        let n = hex_digit_value(c)->0;
        assert(n == 0 || n == 1 || n == 2 || n == 3 || n == 4 || n == 5 || n == 6 || n == 7 || n
            == 8 || n == 9 || n == 10 || n == 11 || n == 12 || n == 13 || n == 14 || n == 15);
    }
}

/// A text is read as hexadecimal if and only if it is made of pairs of digits
/// of either case, and each pair is read as the byte that it spells.
pub proof fn hexadecimal_is_read_in_either_case(s: Seq<char>)
    ensures
        is_hex(s) <==> s.len() % 2 == 0 && forall|i: int|
            0 <= i < s.len() ==> '0' <= #[trigger] s[i] <= '9' || 'a' <= s[i] <= 'f' || 'A' <= s[i]
                <= 'F',
        is_hex(s) ==> hex_bytes(s).len() == s.len() / 2 && forall|i: int|
            0 <= i < s.len() / 2 ==> {
                let b = #[trigger] hex_bytes(s)[i] as int;
                &&& s[2 * i] == "0123456789abcdef"@[b / 16] || s[2 * i]
                    == "0123456789ABCDEF"@[b / 16]
                &&& s[2 * i + 1] == "0123456789abcdef"@[b % 16] || s[2 * i + 1]
                    == "0123456789ABCDEF"@[b % 16]
            },
{
    assert forall|i: int| 0 <= i < s.len() implies (hex_digit_value(#[trigger] s[i]) is Some <==> (
    '0' <= s[i] <= '9' || 'a' <= s[i] <= 'f' || 'A' <= s[i] <= 'F')) by {
        lemma_digit_values(s[i]);
    }
    if is_hex(s) {
        assert forall|i: int| 0 <= i < s.len() / 2 implies {
            let b = #[trigger] hex_bytes(s)[i] as int;
            &&& s[2 * i] == "0123456789abcdef"@[b / 16] || s[2 * i] == "0123456789ABCDEF"@[b / 16]
            &&& s[2 * i + 1] == "0123456789abcdef"@[b % 16] || s[2 * i + 1]
                == "0123456789ABCDEF"@[b % 16]
        } by {
            lemma_digit_values(s[2 * i]);
            lemma_digit_values(s[2 * i + 1]);
            assert(hex_digit_value(s[2 * i]) is Some && hex_digit_value(s[2 * i + 1]) is Some);
            let hi = hex_digit_value(s[2 * i])->0;
            let lo = hex_digit_value(s[2 * i + 1])->0;
            let b = hex_bytes(s)[i] as int;
            assert(b == 16 * hi + lo);
            assert(b / 16 == hi && b % 16 == lo);
        }
    }
}

// ---------------------------------------------------------------------------
// The filter file
// ---------------------------------------------------------------------------

/// Where the parts of a filter lie in its file.
pub proof fn file_layout(version: u64, k: u32, sha256: Seq<u8>, sig: Seq<u8>, bits: Seq<u8>)
    requires
        sha256.len() == 32,
        sig.len() == 64,
    ensures
        ({
            let d = file_bytes(version, k, sha256, sig, bits);
            &&& d.len() == 116 + bits.len()
            &&& d.subrange(0, 8) == le_bytes(version as nat, 8)
            &&& d.subrange(8, 12) == le_bytes(k as nat, 4)
            &&& d.subrange(12, 20) == le_bytes(bits.len(), 8)
            &&& d.subrange(20, 52) == sha256
            &&& d.subrange(52, 116) == sig
            &&& d.skip(116) == bits
        }),
{
    let d = file_bytes(version, k, sha256, sig, bits);
    lemma_le_len(version as nat, 8);
    lemma_le_len(k as nat, 4);
    lemma_le_len(bits.len(), 8);
    assert(d.subrange(0, 8) =~= le_bytes(version as nat, 8));
    assert(d.subrange(8, 12) =~= le_bytes(k as nat, 4));
    assert(d.subrange(12, 20) =~= le_bytes(bits.len(), 8));
    assert(d.subrange(20, 52) =~= sha256);
    assert(d.subrange(52, 116) =~= sig);
    assert(d.skip(116) =~= bits);
}

/// A file with a complete header that declares the deployed size, and with all
/// the bits, is read; where a machine word has 64 bits, no other is. What is
/// read is what lies in it: the file of what was read is the file, up to what
/// follows the bits. (A shorter word may take a larger size for the deployed
/// one.)
pub proof fn files_are_read_as_laid_out(d: Seq<u8>)
    ensures
        d.len() >= 4_792_646 && d.subrange(12, 20) == le_bytes(4_792_530, 8) ==> file_fault(
            d,
        ) is None,
        file_fault(d) is None ==> {
            let f = parts(d);
            &&& d.len() >= 4_792_646
            &&& le_bytes(f.version as nat, 8) == d.subrange(0, 8)
            &&& le_bytes(f.k as nat, 4) == d.subrange(8, 12)
            &&& f.m_bytes == 4_792_530
            &&& f.sha256 == d.subrange(20, 52)
            &&& f.sig == d.subrange(52, 116)
            &&& f.bits == d.subrange(116, 4_792_646)
        },
        file_fault(d) is None && usize::MAX >= u64::MAX ==> {
            let f = parts(d);
            &&& d.subrange(12, 20) == le_bytes(4_792_530, 8)
            &&& file_bytes(f.version, f.k, f.sha256, f.sig, f.bits) == d.take(4_792_646)
        },
{
    lemma_byte_ranges();
    if d.len() >= 116 {
        numbers_keep_their_bytes(d.subrange(0, 8));
        numbers_keep_their_bytes(d.subrange(8, 12));
        numbers_keep_their_bytes(d.subrange(12, 20));
        lemma_le_round_trip(4_792_530, 8);
        if file_fault(d) is None && usize::MAX >= u64::MAX {
            let f = parts(d);
            assert(file_bytes(f.version, f.k, f.sha256, f.sig, f.bits) =~= d.take(
                4_792_646,
            ));
        }
    }
}

/// What is said of a file that is not read: the header is incomplete, bits are
/// missing, or the declared size is not the deployed one.
pub proof fn unread_files_say_why(d: Seq<u8>)
    ensures
        d.len() < 116 ==> file_fault(d) == Some("initial_filter.bin أصغر من المتوقع"@),
        ({
            let m = le_value(d.subrange(12, 20));
            d.len() >= 116 && m + 116 <= usize::MAX ==> {
                &&& d.len() < 116 + m ==> file_fault(d) == Some(
                    "initial_filter.bin ناقص — متوقع "@ + decimal(m) + " بايت"@,
                )
                &&& d.len() >= 116 + m && m != 4_792_530 ==> file_fault(d) == Some(
                    "حجم الفلتر "@ + decimal(m) + " لا يتطابق مع BLOOM_M_BYTES "@ + decimal(
                        4_792_530,
                    ),
                )
            }
        }),
{
    lemma_byte_ranges();
    if d.len() >= 116 {
        lemma_le_value_bound(d.subrange(12, 20));
    }
}

// ---------------------------------------------------------------------------
// Keys as source text
// ---------------------------------------------------------------------------

/// A byte is written as `0x` and two of the digits `0` to `9` and `A` to `F`,
/// the higher first.
pub proof fn byte_literals(b: u8)
    ensures
        byte_literal(b).len() == 4,
        byte_literal(b)[0] == '0',
        byte_literal(b)[1] == 'x',
        byte_literal(b)[2] == "0123456789ABCDEF"@[b as int / 16],
        byte_literal(b)[3] == "0123456789ABCDEF"@[b as int % 16],
{
    reveal_strlit("0x");
    reveal_strlit("0123456789ABCDEF");
    let hi = b as int / 16;
    let lo = b as int % 16;
    assert(hi == 0 || hi == 1 || hi == 2 || hi == 3 || hi == 4 || hi == 5 || hi == 6 || hi == 7
        || hi == 8 || hi == 9 || hi == 10 || hi == 11 || hi == 12 || hi == 13 || hi == 14 || hi
        == 15);
    assert(lo == 0 || lo == 1 || lo == 2 || lo == 3 || lo == 4 || lo == 5 || lo == 6 || lo == 7
        || lo == 8 || lo == 9 || lo == 10 || lo == 11 || lo == 12 || lo == 13 || lo == 14 || lo
        == 15);
}

proof fn lemma_literals(key: Seq<u8>, at: int, n: nat, c: int)
    requires
        n > 0,
        0 <= c < n,
    ensures
        literals(key, at, n).len() == 6 * n - 2,
        literals(key, at, n).subrange(6 * c, 6 * c + 4) == byte_literal(key[at + c]),
        c < n - 1 ==> literals(key, at, n)[6 * c + 4] == ',' && literals(key, at, n)[6 * c + 5]
            == ' ',
    decreases n,
{
    reveal_strlit(", ");
    byte_literals(key[at + n - 1]);
    let whole = literals(key, at, n);
    if n == 1 {
        assert(whole.subrange(0, 4) =~= byte_literal(key[at]));
    } else {
        let front = literals(key, at, (n - 1) as nat);
        lemma_literals(key, at, (n - 1) as nat, if c < n - 1 {
            c
        } else {
            0
        });
        if c < n - 1 {
            assert(whole.subrange(6 * c, 6 * c + 4) =~= front.subrange(6 * c, 6 * c + 4));
        } else {
            assert(whole.subrange(6 * c, 6 * c + 4) =~= byte_literal(key[at + c]));
        }
    }
}

/// A key is written as rows of eight literals, in order: each row is indented by
/// four spaces, a comma and a space stand between two literals, and a comma and
/// a line feed between two rows.
pub proof fn keys_are_rows_of_eight(key: Seq<u8>, n: nat, r: int, c: int)
    requires
        0 <= r < n,
        0 <= c < 8,
    ensures
        ({
            let text = rows(key, n);
            let start = 52 * r;
            &&& text.len() == 52 * n - 2
            &&& text[start] == ' ' && text[start + 1] == ' ' && text[start + 2] == ' ' && text[start
                + 3] == ' '
            &&& text.subrange(start + 4 + 6 * c, start + 8 + 6 * c) == byte_literal(key[8 * r + c])
            &&& c < 7 ==> text[start + 8 + 6 * c] == ',' && text[start + 9 + 6 * c] == ' '
            &&& r < n - 1 ==> text[start + 50] == ',' && text[start + 51] == '\n'
        }),
    decreases n,
{
    reveal_strlit("    ");
    reveal_strlit(",\n");
    let text = rows(key, n);
    let line = literals(key, 8 * (n - 1), 8);
    lemma_literals(key, 8 * (n - 1), 8, c);
    let row = "    "@ + line;
    if n == 1 {
        assert(text == row);
        assert(text.subrange(4 + 6 * c, 8 + 6 * c) =~= line.subrange(6 * c, 6 * c + 4));
    } else {
        let front = rows(key, (n - 1) as nat);
        keys_are_rows_of_eight(key, (n - 1) as nat, if r < n - 1 {
            r
        } else {
            0
        }, c);
        assert(text == front + ",\n"@ + row);
        let from = 52 * r + 4 + 6 * c;
        if r < n - 1 {
            assert(text.subrange(from, from + 4) =~= front.subrange(from, from + 4));
        } else {
            assert(text.subrange(from, from + 4) =~= line.subrange(6 * c, 6 * c + 4));
        }
    }
}

// ---------------------------------------------------------------------------
// The note on the keys
// ---------------------------------------------------------------------------

proof fn lemma_field(a: Seq<char>, label: Seq<char>, value: Seq<char>, end: Seq<char>)
    ensures
        a + label + value + end == a + (label + value + end),
{
    assert(a + label + value + end =~= a + (label + value + end));
}

/// The note holds the version, both keys, the digest, the signature and the
/// figures, each whole and under its own label, one behind the other in this
/// order and with nothing else but the heading.
pub proof fn note_holds_keys_and_figures(
    version: u64,
    secret: Seq<u8>,
    sha: Seq<char>,
    sig: Seq<char>,
    added: nat,
    fill: Seq<char>,
)
    ensures
        ({
            let text = note(version, secret, sha, sig, added, fill);
            let public = ed25519_public_key(secret);
            text
                == "{\n  \"note\":           \"احتفظ بالمفتاح الخاص في مكان آمن — لا تشاركه\",\n"@
                + ("  \"version\":        "@ + decimal(version as nat) + ",\n"@)
                + ("  \"public_key_hex\": \""@ + hex_text(public) + "\",\n"@)
                + ("  \"private_key_hex\":\""@ + hex_text(secret) + "\",\n"@)
                + ("  \"sha256\":         \""@ + sha + "\",\n"@)
                + ("  \"signature\":      \""@ + sig + "\",\n"@)
                + ("  \"m_bytes\":        "@ + decimal(4_792_530) + ",\n"@)
                + ("  \"k\":              "@ + decimal(13) + ",\n"@)
                + ("  \"domains_added\":  "@ + decimal(added) + ",\n"@)
                + ("  \"fill_ratio_pct\": "@ + fill + ",\n"@)
                + ("  \"rust_key_array\": \"[\\n"@ + rows(public, 4) + "\\n]\"\n}"@)
        }),
{
    let public = ed25519_public_key(secret);
    let text = note(version, secret, sha, sig, added, fill);
    let l0 =
        "{\n  \"note\":           \"احتفظ بالمفتاح الخاص في مكان آمن — لا تشاركه\",\n"@;
    let l1 = "  \"version\":        "@;
    let l2 = "  \"public_key_hex\": \""@;
    let l3 = "  \"private_key_hex\":\""@;
    let l4 = "  \"sha256\":         \""@;
    let l5 = "  \"signature\":      \""@;
    let l6 = "  \"m_bytes\":        "@;
    let l7 = "  \"k\":              "@;
    let l8 = "  \"domains_added\":  "@;
    let l9 = "  \"fill_ratio_pct\": "@;
    let l10 = "  \"rust_key_array\": \"[\\n"@;
    let bare = ",\n"@;
    let quoted = "\",\n"@;
    let closing = "\\n]\"\n}"@;
    let a1 = l0;
    let a2 = a1 + l1 + decimal(version as nat) + bare;
    let a3 = a2 + l2 + hex_text(public) + quoted;
    let a4 = a3 + l3 + hex_text(secret) + quoted;
    let a5 = a4 + l4 + sha + quoted;
    let a6 = a5 + l5 + sig + quoted;
    let a7 = a6 + l6 + decimal(4_792_530) + bare;
    let a8 = a7 + l7 + decimal(13) + bare;
    let a9 = a8 + l8 + decimal(added) + bare;
    let a10 = a9 + l9 + fill + bare;
    let a11 = a10 + l10 + rows(public, 4) + closing;
    assert(text == a11);
    lemma_field(a1, l1, decimal(version as nat), bare);
    lemma_field(a2, l2, hex_text(public), quoted);
    lemma_field(a3, l3, hex_text(secret), quoted);
    lemma_field(a4, l4, sha, quoted);
    lemma_field(a5, l5, sig, quoted);
    lemma_field(a6, l6, decimal(4_792_530), bare);
    lemma_field(a7, l7, decimal(13), bare);
    lemma_field(a8, l8, decimal(added), bare);
    lemma_field(a9, l9, fill, bare);
    lemma_field(a10, l10, rows(public, 4), closing);
}

// ---------------------------------------------------------------------------
// Replacing
// ---------------------------------------------------------------------------

/// Whether `from` stands in `s` at position `i`.
pub open spec fn stands_at(s: Seq<char>, from: Seq<char>, i: int) -> bool {
    0 <= i && i + from.len() <= s.len() && s.subrange(i, i + from.len()) == from
}

/// A text in which `from` does not stand stays as it is.
pub proof fn nothing_to_replace(s: Seq<char>, from: Seq<char>, to: Seq<char>, i: int)
    requires
        0 <= i <= s.len(),
        forall|j: int| i <= j ==> !#[trigger] stands_at(s, from, j),
    ensures
        replaced_from(s, from, to, i) == s.skip(i),
    decreases s.len() - i,
{
    if i < s.len() {
        if from.is_prefix_of(s.skip(i)) {
            assert(s.subrange(i, i + from.len()) =~= s.skip(i).subrange(0, from.len() as int));
            assert(stands_at(s, from, i));
        }
        nothing_to_replace(s, from, to, i + 1);
        assert(seq![s[i]] + s.skip(i + 1) =~= s.skip(i));
    } else {
        assert(s.skip(i) =~= Seq::empty());
    }
}

/// The first occurrence of `from` is replaced by `to`, what stands before it is
/// kept, and the rest is treated in the same way.
pub proof fn first_is_replaced(s: Seq<char>, from: Seq<char>, to: Seq<char>, i: int, first: int)
    requires
        from.len() > 0,
        0 <= i <= first,
        stands_at(s, from, first),
        forall|j: int| i <= j < first ==> !#[trigger] stands_at(s, from, j),
    ensures
        replaced_from(s, from, to, i) == s.subrange(i, first) + to + replaced_from(
            s,
            from,
            to,
            first + from.len(),
        ),
    decreases first - i,
{
    assert(from.is_prefix_of(s.skip(i)) <==> stands_at(s, from, i)) by {
        if i + from.len() <= s.len() {
            assert(s.subrange(i, i + from.len()) =~= s.skip(i).subrange(0, from.len() as int));
        }
    }
    let rest = replaced_from(s, from, to, first + from.len());
    if i == first {
        assert(s.subrange(i, first) + to + rest =~= to + rest);
    } else {
        first_is_replaced(s, from, to, i + 1, first);
        assert(seq![s[i]] + (s.subrange(i + 1, first) + to + rest) =~= s.subrange(i, first) + to
            + rest);
    }
}

} // verus!
