//! Numbers as bytes, the lowest byte first.

use vstd::arithmetic::power::{lemma_pow0, lemma_pow_increases, pow};
use vstd::prelude::*;

verus! {

/// The lowest `width` bytes of `n`, the lowest first.
pub open spec fn le_bytes(n: nat, width: nat) -> Seq<u8>
    decreases width,
{
    if width == 0 {
        Seq::empty()
    } else {
        seq![(n % 256) as u8] + le_bytes(n / 256, (width - 1) as nat)
    }
}

/// The number that `s` spells, the lowest byte first.
pub open spec fn le_value(s: Seq<u8>) -> nat
    decreases s.len(),
{
    if s.len() == 0 {
        0
    } else {
        s[0] as nat + 256 * le_value(s.skip(1))
    }
}

/// What `le_bytes` writes has the width asked for, and `le_value` reads it
/// back.
pub proof fn lemma_le_round_trip(n: nat, width: nat)
    requires
        n < pow(256, width),
    ensures
        le_bytes(n, width).len() == width,
        le_value(le_bytes(n, width)) == n,
    decreases width,
{
    if width == 0 {
        lemma_pow0(256);
    } else {
        let less = (width - 1) as nat;
        reveal(pow);
        assert(pow(256, width) == 256 * pow(256, less));
        assert(n / 256 < pow(256, less));
        lemma_le_round_trip(n / 256, less);
        assert(le_bytes(n, width).skip(1) == le_bytes(n / 256, less));
    }
}

/// A number of `width` bytes is below 256 to the power of `width`.
pub proof fn lemma_le_value_bound(s: Seq<u8>)
    ensures
        le_value(s) < pow(256, s.len()),
    decreases s.len(),
{
    if s.len() == 0 {
        lemma_pow0(256);
    } else {
        lemma_le_value_bound(s.skip(1));
        reveal(pow);
        assert(pow(256, s.len()) == 256 * pow(256, s.skip(1).len()));
    }
}

/// The ranges of four and of eight bytes.
pub proof fn lemma_byte_ranges()
    ensures
        pow(256, 4) == 0x1_0000_0000,
        pow(256, 8) == 0x1_0000_0000_0000_0000,
{
    reveal(pow);
    lemma_pow0(256);
    assert(pow(256, 1) == 256);
    assert(pow(256, 2) == 65536);
    assert(pow(256, 3) == 16777216);
    assert(pow(256, 4) == 4294967296);
    assert(pow(256, 5) == 1099511627776);
    assert(pow(256, 6) == 281474976710656);
    assert(pow(256, 7) == 72057594037927936);
}

/// Appends the lowest `width` bytes of `n`.
pub fn push_le(out: &mut Vec<u8>, n: u64, width: usize)
    ensures
        final(out)@ == old(out)@ + le_bytes(n as nat, width as nat),
{
    let ghost start = out@;
    let mut rest: u64 = n;
    let mut left: usize = width;
    assert(start + le_bytes(n as nat, width as nat) == out@ + le_bytes(rest as nat, left as nat));
    while left > 0
        invariant
            start + le_bytes(n as nat, width as nat) == out@ + le_bytes(rest as nat, left as nat),
        decreases left,
    {
        let ghost before = out@;
        let low: u8 = (rest % 256) as u8;
        out.push(low);
        proof {
            assert(before + (seq![low] + le_bytes((rest / 256) as nat, (left - 1) as nat))
                == before.push(low) + le_bytes((rest / 256) as nat, (left - 1) as nat));
        }
        rest = rest / 256;
        left -= 1;
    }
    assert(out@ + le_bytes(rest as nat, 0) == out@);
}

/// Reads the number in the `width` bytes of `d` from `at` on.
pub fn read_le(d: &[u8], at: usize, width: usize) -> (r: u64)
    requires
        width <= 8,
        at + width <= d@.len(),
    ensures
        r == le_value(d@.subrange(at as int, at + width)),
        r < pow(256, width as nat),
{
    let ghost field = d@.subrange(at as int, at + width);
    let len: usize = d.len();
    let mut value: u64 = 0;
    let mut i: usize = width;
    while i > 0
        invariant
            i <= width <= 8,
            len == d@.len(),
            at + width <= d@.len(),
            field == d@.subrange(at as int, at + width),
            value == le_value(field.skip(i as int)),
        decreases i,
    {
        i -= 1;
        proof {
            let part = field.skip(i as int);
            lemma_le_value_bound(part);
            lemma_byte_ranges();
            lemma_pow_increases(256, part.len(), 8);
            assert(part.skip(1) == field.skip(i + 1));
            assert(part[0] == d@[at + i]);
        }
        value = value * 256 + d[at + i] as u64;
    }
    proof {
        assert(field.skip(0) == field);
        lemma_le_value_bound(field);
    }
    value
}

} // verus!
