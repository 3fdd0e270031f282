//! The mathematical model of a bit vector: a sequence of booleans, with
//! the spec-level functions that the public contracts are stated over.

use vstd::prelude::*;

verus! {

/// Number of `true` values in `s`.
pub open spec fn count_ones(s: Seq<bool>) -> nat
    decreases s.len(),
{
    if s.len() == 0 {
        0
    } else {
        count_ones(s.drop_last()) + (if s.last() {
            1nat
        } else {
            0nat
        })
    }
}

/// Pointwise conjunction of two equally long sequences.
pub open spec fn seq_and(a: Seq<bool>, b: Seq<bool>) -> Seq<bool> {
    Seq::new(a.len(), |i: int| a[i] && b[i])
}

/// Pointwise disjunction of two equally long sequences.
pub open spec fn seq_or(a: Seq<bool>, b: Seq<bool>) -> Seq<bool> {
    Seq::new(a.len(), |i: int| a[i] || b[i])
}

/// Pointwise exclusive or of two equally long sequences.
pub open spec fn seq_xor(a: Seq<bool>, b: Seq<bool>) -> Seq<bool> {
    Seq::new(a.len(), |i: int| a[i] != b[i])
}

/// Pointwise negation of a sequence.
pub open spec fn seq_not(a: Seq<bool>) -> Seq<bool> {
    Seq::new(a.len(), |i: int| !a[i])
}

/// The sequence after a resize to length `n`: positions below the old
/// length keep their value, newly grown positions are `false`.
pub open spec fn resize_spec(s: Seq<bool>, n: nat) -> Seq<bool> {
    Seq::new(n as nat, |i: int| i < s.len() && s[i])
}

/// The character a single bit is rendered as.
pub open spec fn digit_char(b: bool) -> char {
    if b {
        '1'
    } else {
        '0'
    }
}

/// The comma-and-space separated list of digits for `s`, without the
/// enclosing brackets.
pub open spec fn render_items(s: Seq<bool>) -> Seq<char>
    decreases s.len(),
{
    if s.len() == 0 {
        Seq::empty()
    } else if s.len() == 1 {
        seq![digit_char(s[0])]
    } else {
        render_items(s.drop_last()) + seq![',', ' '] + seq![digit_char(s.last())]
    }
}

/// The full textual form of `s`: the digit list enclosed in brackets.
pub open spec fn render(s: Seq<bool>) -> Seq<char> {
    seq!['['] + render_items(s) + seq![']']
}

pub proof fn lemma_count_ones_le(s: Seq<bool>)
    ensures
        count_ones(s) <= s.len(),
    decreases s.len(),
{
    if s.len() > 0 {
        lemma_count_ones_le(s.drop_last());
    }
}

/// Counting distributes over concatenation.
pub proof fn lemma_count_ones_concat(a: Seq<bool>, b: Seq<bool>)
    ensures
        count_ones(a + b) == count_ones(a) + count_ones(b),
    decreases b.len(),
{
    if b.len() == 0 {
        assert(a + b =~= a);
    } else {
        lemma_count_ones_concat(a, b.drop_last());
        assert((a + b).drop_last() =~= a + b.drop_last());
        assert((a + b).last() == b.last());
    }
}

} // verus!
