//! Word-level bit manipulation: reading single bits of a 64-bit word,
//! counting set bits with a branchless two-phase byte-lane summation,
//! and shifting with explicit masking of the bits that would be lost.

use vstd::prelude::*;

verus! {

/// True when bit `i` of `w` is set; bit 0 is the least-significant bit.
pub open spec fn bit64(w: u64, i: u64) -> bool {
    (w >> i) & 1u64 == 1u64
}

/// Number of set bits among the `n` least-significant bits of `w`.
pub open spec fn pcnt(w: u64, n: int) -> int
    decreases n,
{
    if n <= 0 {
        0
    } else {
        pcnt(w, n - 1) + (if bit64(w, (n - 1) as u64) {
            1int
        } else {
            0int
        })
    }
}

/// Number of set bits of `w`.
pub open spec fn popcount64(w: u64) -> int {
    pcnt(w, 64)
}

/// `value` shifted left by `rhs`, after clearing the bits that the shift
/// would push out of the word.
pub open spec fn spec_shl_nopanic(value: u64, rhs: u64) -> u64 {
    (value & (0xffff_ffff_ffff_ffffu64 >> rhs)) << rhs
}

/// Partial sum of the first summation phase: for each of the shift
/// offsets `0 .. k`, the word shifted and masked to one count bit per
/// byte lane.
pub open spec fn phase1_partial(w: u64, k: int) -> int
    decreases k,
{
    if k <= 0 {
        0
    } else {
        phase1_partial(w, k - 1) + ((w >> ((k - 1) as u64)) & 0x0101_0101_0101_0101u64)
    }
}

/// Partial sum of the second summation phase: the first `k` byte lanes
/// of `s` added together.
pub open spec fn phase2_partial(s: u64, k: int) -> int
    decreases k,
{
    if k <= 0 {
        0
    } else {
        phase2_partial(s, k - 1) + ((s >> (((k - 1) * 8) as u64)) & 0xffu64)
    }
}

pub proof fn lemma_and_le(x: u64, y: u64)
    by (bit_vector)
    ensures
        x & y <= y,
{
}

/// The two-phase byte-lane summation computes the population count.
proof fn lemma_swar_bv(v: u64, s1: u64, t: u64)
    by (bit_vector)
    requires
        s1 == ((v >> 0u64) & 0x0101_0101_0101_0101u64) + ((v >> 1u64) & 0x0101_0101_0101_0101u64)
            + ((v >> 2u64) & 0x0101_0101_0101_0101u64) + ((v >> 3u64) & 0x0101_0101_0101_0101u64)
            + ((v >> 4u64) & 0x0101_0101_0101_0101u64) + ((v >> 5u64) & 0x0101_0101_0101_0101u64)
            + ((v >> 6u64) & 0x0101_0101_0101_0101u64) + ((v >> 7u64) & 0x0101_0101_0101_0101u64),
        t == ((s1 >> 0u64) & 0xffu64) + ((s1 >> 8u64) & 0xffu64) + ((s1 >> 16u64) & 0xffu64) + ((
        s1 >> 24u64) & 0xffu64) + ((s1 >> 32u64) & 0xffu64) + ((s1 >> 40u64) & 0xffu64) + ((s1
            >> 48u64) & 0xffu64) + ((s1 >> 56u64) & 0xffu64),
    ensures
        t == pcnt(v, 64),
{
}

proof fn lemma_swar(v: u64, s1: u64, t: u64)
    requires
        s1 == phase1_partial(v, 8),
        t == phase2_partial(s1, 8),
    ensures
        t == popcount64(v),
{
    reveal_with_fuel(phase1_partial, 9);
    reveal_with_fuel(phase2_partial, 9);
    lemma_swar_bv(v, s1, t);
}

/// Counts the set bits of `value` without a branch per bit: the first
/// phase produces, in each byte lane, the number of set bits of that
/// byte; the second phase adds the eight lanes together.
pub fn count_true_u64(value: u64) -> (r: usize)
    ensures
        r == popcount64(value),
{
    let m1: u64 = 0x0101_0101_0101_0101;
    let mut sum: u64 = 0;
    let mut k: usize = 0;
    while k < 8
        invariant
            k <= 8,
            m1 == 0x0101_0101_0101_0101u64,
            sum == phase1_partial(value, k as int),
            sum <= (k as int) * 0x0101_0101_0101_0101,
        decreases 8 - k,
    {
        proof {
            lemma_and_le(value >> (k as u64), 0x0101_0101_0101_0101u64);
            assert(phase1_partial(value, k as int + 1) == phase1_partial(value, k as int) + ((
            value >> (k as u64)) & 0x0101_0101_0101_0101u64));
        }
        sum = sum + ((value >> (k as u64)) & m1);
        k = k + 1;
    }
    let mut total: u64 = 0;
    let mut j: usize = 0;
    while j < 8
        invariant
            j <= 8,
            sum == phase1_partial(value, 8),
            total == phase2_partial(sum, j as int),
            total <= j * 0xff,
        decreases 8 - j,
    {
        proof {
            lemma_and_le(sum >> ((j * 8) as u64), 0xffu64);
        }
        total = total + ((sum >> ((j * 8) as u64)) & 0xff);
        j = j + 1;
    }
    proof {
        lemma_swar(value, sum, total);
        lemma_pcnt_le(value, 64);
    }
    total as usize
}

/// Shifts `value` left by `rhs` bit positions, first masking away the
/// bits that the shift would move out of the word, so that no overflow
/// of the shift can occur.
pub fn shl_nopanic(value: u64, rhs: usize) -> (r: u64)
    requires
        rhs < 64,
    ensures
        r == spec_shl_nopanic(value, rhs as u64),
{
    let mask: u64 = 0xffff_ffff_ffff_ffff >> (rhs as u64);
    (value & mask) << (rhs as u64)
}

pub proof fn lemma_pcnt_le(w: u64, n: int)
    requires
        0 <= n,
    ensures
        0 <= pcnt(w, n) <= n,
    decreases n,
{
    if n > 0 {
        lemma_pcnt_le(w, n - 1);
    }
}

/// All bits below `n` clear means no bit is counted below `n`.
proof fn lemma_pcnt_zero_prefix(w: u64, n: int)
    requires
        0 <= n <= 64,
        forall|i: u64| i < n ==> !bit64(w, i),
    ensures
        pcnt(w, n) == 0,
    decreases n,
{
    if n > 0 {
        lemma_pcnt_zero_prefix(w, n - 1);
        assert(!bit64(w, (n - 1) as u64));
    }
}

/// Counting is preserved under shifting: when the bits of `x` above the
/// offset `sh` agree with the bits of `y` from position zero on, and the
/// bits of `x` below `sh` are clear, both words count the same bits.
proof fn lemma_pcnt_shifted(x: u64, y: u64, sh: u64, n: int)
    requires
        sh < 64,
        0 <= n,
        sh + n <= 64,
        forall|i: u64| i < sh ==> !bit64(x, i),
        forall|i: u64| i < n ==> #[trigger] bit64(x, (sh + i) as u64) == bit64(y, i),
    ensures
        pcnt(x, sh + n) == pcnt(y, n),
    decreases n,
{
    if n == 0 {
        lemma_pcnt_zero_prefix(x, sh as int);
    } else {
        lemma_pcnt_shifted(x, y, sh, n - 1);
        assert(bit64(x, (sh + ((n - 1) as u64)) as u64) == bit64(y, (n - 1) as u64));
        assert((sh + ((n - 1) as u64)) as u64 == (sh + n - 1) as u64);
    }
}

/// How `spec_shl_nopanic` moves each bit.
proof fn lemma_shl_bits(w: u64, sh: u64)
    by (bit_vector)
    requires
        sh < 64,
    ensures
        forall|i: u64|
            i < 64 ==> #[trigger] bit64(spec_shl_nopanic(w, sh), i) == (i >= sh && bit64(
                w,
                (i - sh) as u64,
            )),
{
}

/// Counting the bits of the shifted word counts exactly the low
/// `64 - sh` bits of the original word.
pub proof fn lemma_shl_popcount(w: u64, sh: u64)
    requires
        sh < 64,
    ensures
        popcount64(spec_shl_nopanic(w, sh)) == pcnt(w, 64 - sh),
{
    lemma_shl_bits(w, sh);
    lemma_pcnt_shifted(spec_shl_nopanic(w, sh), w, sh, 64 - sh);
}

pub proof fn lemma_and_bits(a: u64, b: u64)
    by (bit_vector)
    ensures
        forall|i: u64| i < 64 ==> #[trigger] bit64(a & b, i) == (bit64(a, i) && bit64(b, i)),
{
}

pub proof fn lemma_or_bits(a: u64, b: u64)
    by (bit_vector)
    ensures
        forall|i: u64| i < 64 ==> #[trigger] bit64(a | b, i) == (bit64(a, i) || bit64(b, i)),
{
}

pub proof fn lemma_xor_bits(a: u64, b: u64)
    by (bit_vector)
    ensures
        forall|i: u64| i < 64 ==> #[trigger] bit64(a ^ b, i) == (bit64(a, i) != bit64(b, i)),
{
}

pub proof fn lemma_not_bits(a: u64)
    by (bit_vector)
    ensures
        forall|i: u64| i < 64 ==> #[trigger] bit64(!a, i) == !bit64(a, i),
{
}

pub proof fn lemma_zero_bits()
    by (bit_vector)
    ensures
        forall|i: u64| i < 64 ==> !bit64(0u64, i),
{
}

/// How writing one bit changes a word: the addressed bit takes the new
/// value and every other bit keeps its old one.
pub proof fn lemma_set_bit(nw: u64, w: u64, idx: u64, b: bool)
    by (bit_vector)
    requires
        idx < 64,
        nw == if b {
            w | (1u64 << idx)
        } else {
            w & !(1u64 << idx)
        },
    ensures
        bit64(nw, idx) == b,
        forall|i: u64| i < 64 && i != idx ==> #[trigger] bit64(nw, i) == bit64(w, i),
{
}

/// Masking a word to its low `r` bits keeps those bits and clears the
/// rest.
pub proof fn lemma_mask_bits(w: u64, r: u64)
    by (bit_vector)
    requires
        0 < r < 64,
    ensures
        forall|i: u64|
            i < 64 ==> #[trigger] bit64(w & (0xffff_ffff_ffff_ffffu64 >> ((64 - r) as u64)), i) == (
            i < r && bit64(w, i)),
{
}

} // verus!
