//! A dynamically-sized bit vector: a compact sequence of boolean values
//! packed into 64-bit words, with growth and shrink operations, indexed
//! access, boolean set algebra, population counting, construction from
//! boolean slices, sequential iteration and textual rendering.
//!
//! Bits stored physically beyond the logical length are not kept at any
//! fixed value: they are don't-care bits, and every operation that
//! aggregates whole words masks them off at the point of use.

pub mod laws;
pub mod model;
pub mod word;

use crate::model::count_ones;
use crate::model::render;
use crate::model::render_items;
use crate::model::resize_spec;
use crate::model::seq_and;
use crate::model::seq_not;
use crate::model::seq_or;
use crate::model::seq_xor;
use crate::word::bit64;
use crate::word::pcnt;
use crate::word::popcount64;
use vstd::prelude::*;
use vstd::string::StringExecFns;

verus! {

/// Number of 64-bit words needed to store `n` bits.
pub open spec fn word_count(n: nat) -> nat {
    (n + 63) / 64
}

/// A dense sequence of booleans packed into 64-bit words. Bit `i` lives
/// in word `i / 64` at position `i % 64`, least-significant bit first.
#[derive(Clone, Debug)]
pub struct BitVec {
    len: usize,
    vec: Vec<u64>,
}

/// A forward-only cursor over a `BitVec` it has taken ownership of,
/// yielding one boolean per logical position in ascending order.
pub struct BitVecIter {
    index: usize,
    inf_bit: BitVec,
}

impl BitVec {
    /// The logical contents: one boolean per position below the length.
    pub closed spec fn view(&self) -> Seq<bool> {
        Seq::new(self.len as nat, |i: int| bit64(self.vec@[i / 64], (i % 64) as u64))
    }

    /// The storage holds exactly as many words as the length needs.
    pub closed spec fn wf(&self) -> bool {
        self.vec@.len() == word_count(self.len as nat)
    }

    /// Constructs an empty bit vector: no positions, no storage words.
    pub fn new() -> (r: BitVec)
        ensures
            r.wf(),
            r@ == Seq::<bool>::empty(),
    {
        let r = BitVec { len: 0, vec: Vec::new() };
        proof {
            assert(r@ =~= Seq::<bool>::empty());
        }
        r
    }

    /// Number of logically valid bit positions.
    pub fn len(&self) -> (r: usize)
        ensures
            r == self@.len(),
    {
        self.len
    }

    /// Reads the bit at `index`. Calling it at or beyond the length is a
    /// contract violation, ruled out by the precondition.
    pub fn get(&self, index: usize) -> (r: bool)
        requires
            self.wf(),
            index < self@.len(),
        ensures
            r == self@[index as int],
    {
        let global_index: usize = index / 64;
        let local_index: u64 = (index % 64) as u64;
        let w: u64 = self.vec[global_index];
        (w >> local_index) & 1 == 1
    }

    /// Writes `value` at `index`, leaving every other position as it
    /// was. Calling it at or beyond the length is a contract violation,
    /// ruled out by the precondition.
    pub fn set(&mut self, index: usize, value: bool)
        requires
            old(self).wf(),
            index < old(self)@.len(),
        ensures
            final(self).wf(),
            final(self)@ == old(self)@.update(index as int, value),
    {
        let global_index: usize = index / 64;
        let local_index: u64 = (index % 64) as u64;
        let w: u64 = self.vec[global_index];
        let nw: u64 = if value {
            w | (1u64 << local_index)
        } else {
            w & !(1u64 << local_index)
        };
        proof {
            crate::word::lemma_set_bit(nw, w, local_index, value);
        }
        self.vec.set(global_index, nw);
        proof {
            assert(self@ =~= old(self)@.update(index as int, value));
        }
    }

    /// Appends `value` at the end, allocating one fresh zero word
    /// whenever the old length was an exact multiple of the word width.
    pub fn push(&mut self, value: bool)
        requires
            old(self).wf(),
            old(self)@.len() < usize::MAX,
        ensures
            final(self).wf(),
            final(self)@ == old(self)@.push(value),
    {
        if self.len % 64 == 0 {
            self.vec.push(0);
        }
        self.len = self.len + 1;
        proof {
            assert(self.wf());
            assert forall|i: int| 0 <= i < old(self)@.len() implies self@[i] == old(self)@[i] by {
                assert(i / 64 < old(self).vec@.len());
            }
        }
        self.set(self.len - 1, value);
        proof {
            assert(self@ =~= old(self)@.push(value));
        }
    }

    /// Resizes the vector to exactly `len` bits. Positions below the
    /// old length keep their value; newly grown positions read as zero.
    /// To that end the don't-care bits of the current final word are
    /// masked off before the storage is grown or shrunk, so that stale
    /// values can never reappear. Resizing a never-grown vector is
    /// allowed: with no storage word there is nothing to mask.
    #[verifier::loop_isolation(false)]
    pub fn resize(&mut self, len: usize)
        requires
            old(self).wf(),
        ensures
            final(self).wf(),
            final(self)@ == resize_spec(old(self)@, len as nat),
    {
        if self.vec.len() > 0 {
            let r: u64 = (self.len % 64) as u64;
            if r != 0 {
                let max_index: usize = self.vec.len() - 1;
                let w: u64 = self.vec[max_index];
                let mask: u64 = 0xffff_ffff_ffff_ffff >> (64 - r);
                proof {
                    crate::word::lemma_mask_bits(w, r);
                }
                self.vec.set(max_index, w & mask);
                proof {
                    assert(forall|t: u64|
                        t < 64 ==> #[trigger] bit64(self.vec@[max_index as int], t) == (t < r
                            && bit64(w, t)));
                }
            }
        }
        let ghost masked = *self;
        proof {
            assert forall|i: int| 0 <= i < masked@.len() implies masked@[i] == old(self)@[i] by {
                assert(0 <= i / 64 < masked.vec@.len());
                assert(i % 64 < 64);
                if i / 64 == masked.vec@.len() - 1 && old(self).len % 64 != 0 {
                    assert(i % 64 < old(self).len % 64);
                }
            }
            assert forall|i: int|
                masked@.len() <= i < masked.vec@.len() * 64 implies !(#[trigger] bit64(
                masked.vec@[i / 64],
                (i % 64) as u64,
            )) by {
                assert(old(self).len % 64 != 0);
                assert(i / 64 == masked.vec@.len() - 1);
                assert(i % 64 >= old(self).len % 64);
            }
        }
        let words: usize = len / 64 + (if len % 64 == 0 {
            0
        } else {
            1
        });
        self.vec.truncate(words);
        let ghost base = self.vec@;
        proof {
            assert(base.len() == if words <= masked.vec@.len() {
                words as int
            } else {
                masked.vec@.len() as int
            });
            assert(forall|j: int| 0 <= j < base.len() ==> base[j] == masked.vec@[j]);
        }
        while self.vec.len() < words
            invariant
                base.len() <= self.vec@.len() <= words,
                forall|j: int| 0 <= j < base.len() ==> self.vec@[j] == base[j],
                forall|j: int| base.len() <= j < self.vec@.len() ==> self.vec@[j] == 0u64,
                self.len == masked.len,
            decreases words - self.vec.len(),
        {
            self.vec.push(0);
        }
        self.len = len;
        proof {
            crate::word::lemma_zero_bits();
            assert(self.vec@.len() == words);
            assert forall|i: int| 0 <= i < len implies self@[i] == (i < old(self)@.len() && old(
                self,
            )@[i]) by {
                assert(0 <= i / 64 < words);
                assert(0 <= i % 64 < 64);
                if i / 64 < base.len() {
                    assert(self.vec@[i / 64] == base[i / 64]);
                    assert(base[i / 64] == masked.vec@[i / 64]);
                    assert(self.vec@[i / 64] == masked.vec@[i / 64]);
                    if i < masked@.len() {
                        assert(self@[i] == masked@[i]);
                    } else {
                        assert(i < masked.vec@.len() * 64);
                        assert(!bit64(masked.vec@[i / 64], (i % 64) as u64));
                    }
                } else {
                    assert(self.vec@[i / 64] == 0u64);
                    assert(i >= masked@.len());
                }
            }
            assert(self@ =~= resize_spec(old(self)@, len as nat));
        }
    }

    /// Removes and returns the final bit, or nothing when the vector is
    /// empty; the trailing word is given back exactly when the length
    /// crosses back onto a multiple of the word width.
    pub fn pop(&mut self) -> (r: Option<bool>)
        requires
            old(self).wf(),
        ensures
            final(self).wf(),
            old(self)@.len() == 0 ==> r is None && final(self)@ == old(self)@,
            old(self)@.len() > 0 ==> r == Some(old(self)@.last()) && final(self)@ == old(
                self,
            )@.drop_last(),
    {
        if self.len == 0 {
            None
        } else {
            let value = self.get(self.len - 1);
            self.len = self.len - 1;
            if self.len % 64 == 0 {
                self.vec.pop();
            }
            proof {
                assert(self@ =~= old(self)@.drop_last());
            }
            Some(value)
        }
    }

    /// Counts the bits equal to `true` over all valid positions. Whole
    /// interior words are counted directly; the final word is first
    /// shifted left so that its don't-care tail bits fall out.
    #[verifier::loop_isolation(false)]
    pub fn count_true(&self) -> (r: usize)
        requires
            self.wf(),
        ensures
            r == count_ones(self@),
    {
        if self.vec.len() == 0 {
            proof {
                assert(self@ =~= Seq::<bool>::empty());
            }
            return 0;
        }
        let words: usize = self.vec.len();
        let mut count: usize = 0;
        let mut i: usize = 0;
        proof {
            crate::model::lemma_count_ones_le(self@);
        }
        while i < words - 1
            invariant
                i <= words - 1,
                count == count_ones(self@.take(64 * i)),
                count <= 64 * i,
            decreases words - 1 - i,
        {
            let w: u64 = self.vec[i];
            proof {
                assert(64 * (words as int) <= self.len + 63);
                assert(64 * (i as int) + 64 <= self@.len());
                lemma_word_slice(self, i as int);
                crate::model::lemma_count_ones_concat(
                    self@.take(64 * (i as int)),
                    self@.subrange(64 * (i as int), 64 * (i as int) + 64),
                );
                assert(self@.take(64 * (i as int)) + self@.subrange(
                    64 * (i as int),
                    64 * (i as int) + 64,
                ) =~= self@.take(64 * (i as int) + 64));
                crate::word::lemma_pcnt_le(w, 64);
            }
            let c: usize = crate::word::count_true_u64(w);
            count = count + c;
            i = i + 1;
        }
        let last: u64 = self.vec[words - 1];
        let r_bits: usize = self.len - (words - 1) * 64;
        let sh: usize = 64 - r_bits;
        let masked: u64 = crate::word::shl_nopanic(last, sh);
        proof {
            crate::word::lemma_shl_popcount(last, sh as u64);
            crate::word::lemma_pcnt_le(last, r_bits as int);
            crate::model::lemma_count_ones_concat(
                self@.take(64 * (words - 1)),
                self@.subrange(64 * (words - 1), self.len as int),
            );
            assert(self@.take(64 * (words - 1)) + self@.subrange(64 * (words - 1), self.len as int)
                =~= self@);
            assert forall|t: int| 0 <= t < r_bits implies self@.subrange(
                64 * (words - 1),
                self.len as int,
            )[t] == #[trigger] bit64(last, t as u64) by {
                assert((64 * ((words - 1) as int) + t) / 64 == (words - 1) as int && (64 * ((words
                    - 1) as int) + t) % 64 == t) by (nonlinear_arith)
                    requires
                        0 <= t < 64,
                        0 <= (words - 1) as int,
                ;
            }
            assert(self@.subrange(64 * (words - 1), self.len as int) =~= Seq::new(
                r_bits as nat,
                |t: int| bit64(last, t as u64),
            ));
            lemma_count_ones_matches_pcnt(last, r_bits as int);
        }
        let c: usize = crate::word::count_true_u64(masked);
        count + c
    }

    /// In-place bitwise conjunction with an equally long operand.
    /// Mismatched lengths are a contract violation, ruled out by the
    /// precondition. Don't-care tail bits take part blindly: they stay
    /// don't-care in the result.
    #[verifier::loop_isolation(false)]
    pub fn bitand_assign(&mut self, rhs: &BitVec)
        requires
            old(self).wf(),
            rhs.wf(),
            old(self)@.len() == rhs@.len(),
        ensures
            final(self).wf(),
            final(self)@ == seq_and(old(self)@, rhs@),
    {
        let n: usize = self.vec.len();
        let mut i: usize = 0;
        while i < n
            invariant
                i <= n,
                self.len == old(self).len,
                self.vec@.len() == n,
                forall|k: int| 0 <= k < i ==> self.vec@[k] == (old(self).vec@[k] & rhs.vec@[k]),
                forall|k: int| i <= k < n ==> self.vec@[k] == old(self).vec@[k],
            decreases n - i,
        {
            let w: u64 = self.vec[i] & rhs.vec[i];
            self.vec.set(i, w);
            i = i + 1;
        }
        proof {
            assert forall|j: int| 0 <= j < self@.len() implies self@[j] == seq_and(
                old(self)@,
                rhs@,
            )[j] by {
                assert(0 <= j / 64 < self.vec@.len());
                crate::word::lemma_and_bits(old(self).vec@[j / 64], rhs.vec@[j / 64]);
                assert(self.vec@[j / 64] == (old(self).vec@[j / 64] & rhs.vec@[j / 64]));
            }
            assert(self@ =~= seq_and(old(self)@, rhs@));
        }
    }

    /// Bitwise conjunction, returning a fresh vector; the operands must
    /// have equal lengths.
    pub fn bitand(self, rhs: &BitVec) -> (r: BitVec)
        requires
            self.wf(),
            rhs.wf(),
            self@.len() == rhs@.len(),
        ensures
            r.wf(),
            r@ == seq_and(self@, rhs@),
    {
        let mut out = self;
        out.bitand_assign(rhs);
        out
    }

    /// In-place bitwise disjunction with an equally long operand.
    /// Mismatched lengths are a contract violation, ruled out by the
    /// precondition.
    #[verifier::loop_isolation(false)]
    pub fn bitor_assign(&mut self, rhs: &BitVec)
        requires
            old(self).wf(),
            rhs.wf(),
            old(self)@.len() == rhs@.len(),
        ensures
            final(self).wf(),
            final(self)@ == seq_or(old(self)@, rhs@),
    {
        let n: usize = self.vec.len();
        let mut i: usize = 0;
        while i < n
            invariant
                i <= n,
                self.len == old(self).len,
                self.vec@.len() == n,
                forall|k: int| 0 <= k < i ==> self.vec@[k] == (old(self).vec@[k] | rhs.vec@[k]),
                forall|k: int| i <= k < n ==> self.vec@[k] == old(self).vec@[k],
            decreases n - i,
        {
            let w: u64 = self.vec[i] | rhs.vec[i];
            self.vec.set(i, w);
            i = i + 1;
        }
        proof {
            assert forall|j: int| 0 <= j < self@.len() implies self@[j] == seq_or(
                old(self)@,
                rhs@,
            )[j] by {
                assert(0 <= j / 64 < self.vec@.len());
                crate::word::lemma_or_bits(old(self).vec@[j / 64], rhs.vec@[j / 64]);
                assert(self.vec@[j / 64] == (old(self).vec@[j / 64] | rhs.vec@[j / 64]));
            }
            assert(self@ =~= seq_or(old(self)@, rhs@));
        }
    }

    /// Bitwise disjunction, returning a fresh vector; the operands must
    /// have equal lengths.
    pub fn bitor(self, rhs: &BitVec) -> (r: BitVec)
        requires
            self.wf(),
            rhs.wf(),
            self@.len() == rhs@.len(),
        ensures
            r.wf(),
            r@ == seq_or(self@, rhs@),
    {
        let mut out = self;
        out.bitor_assign(rhs);
        out
    }

    /// In-place bitwise exclusive or with an equally long operand.
    /// Mismatched lengths are a contract violation, ruled out by the
    /// precondition.
    #[verifier::loop_isolation(false)]
    pub fn bitxor_assign(&mut self, rhs: &BitVec)
        requires
            old(self).wf(),
            rhs.wf(),
            old(self)@.len() == rhs@.len(),
        ensures
            final(self).wf(),
            final(self)@ == seq_xor(old(self)@, rhs@),
    {
        let n: usize = self.vec.len();
        let mut i: usize = 0;
        while i < n
            invariant
                i <= n,
                self.len == old(self).len,
                self.vec@.len() == n,
                forall|k: int| 0 <= k < i ==> self.vec@[k] == (old(self).vec@[k] ^ rhs.vec@[k]),
                forall|k: int| i <= k < n ==> self.vec@[k] == old(self).vec@[k],
            decreases n - i,
        {
            let w: u64 = self.vec[i] ^ rhs.vec[i];
            self.vec.set(i, w);
            i = i + 1;
        }
        proof {
            assert forall|j: int| 0 <= j < self@.len() implies self@[j] == seq_xor(
                old(self)@,
                rhs@,
            )[j] by {
                assert(0 <= j / 64 < self.vec@.len());
                crate::word::lemma_xor_bits(old(self).vec@[j / 64], rhs.vec@[j / 64]);
                assert(self.vec@[j / 64] == (old(self).vec@[j / 64] ^ rhs.vec@[j / 64]));
            }
            assert(self@ =~= seq_xor(old(self)@, rhs@));
        }
    }

    /// Bitwise exclusive or, returning a fresh vector; the operands must
    /// have equal lengths.
    pub fn bitxor(self, rhs: &BitVec) -> (r: BitVec)
        requires
            self.wf(),
            rhs.wf(),
            self@.len() == rhs@.len(),
        ensures
            r.wf(),
            r@ == seq_xor(self@, rhs@),
    {
        let mut out = self;
        out.bitxor_assign(rhs);
        out
    }

    /// Builds a vector by appending each element of the slice in order;
    /// behaves exactly like repeated `push` calls.
    #[verifier::loop_isolation(false)]
    pub fn from_bools(values: &[bool]) -> (r: BitVec)
        ensures
            r.wf(),
            r@ == values@,
    {
        let mut inf_bit = BitVec::new();
        let n: usize = values.len();
        let mut i: usize = 0;
        while i < n
            invariant
                i <= n,
                inf_bit.wf(),
                inf_bit@ == values@.take(i as int),
            decreases n - i,
        {
            let b: bool = *vstd::slice::slice_index_get(values, i);
            inf_bit.push(b);
            proof {
                assert(inf_bit@ =~= values@.take(i + 1));
            }
            i = i + 1;
        }
        proof {
            assert(values@.take(n as int) =~= values@);
        }
        inf_bit
    }

    /// The fixed-size form of construction, delegating to the
    /// variable-length one.
    pub fn from_array<const N: usize>(values: &[bool; N]) -> (r: BitVec)
        ensures
            r.wf(),
            r@ == values@,
    {
        BitVec::from_bools(values.as_slice())
    }

    /// Renders the vector as `[b0, b1, ...]` with each bit written as
    /// `1` or `0`, comma-and-space separated; the brackets are present
    /// even for an empty vector.
    #[verifier::loop_isolation(false)]
    pub fn display(&self) -> (r: String)
        requires
            self.wf(),
        ensures
            r@ == render(self@),
    {
        let mut out: String = String::new();
        out.append("[");
        proof {
            reveal_strlit("[");
        }
        let n: usize = self.len;
        let mut i: usize = 0;
        while i < n
            invariant
                i <= n,
                n == self@.len(),
                out@ == seq!['['] + render_items(self@.take(i as int)),
            decreases n - i,
        {
            if i != 0 {
                out.append(", ");
            }
            if self.get(i) {
                out.append("1");
            } else {
                out.append("0");
            }
            proof {
                reveal_strlit(", ");
                reveal_strlit("1");
                reveal_strlit("0");
                let s = self@;
                if i == 0 {
                    assert(s.take(1int)[0] == s[0]);
                } else {
                    assert(s.take(i + 1).drop_last() =~= s.take(i as int));
                    assert(s.take(i + 1).last() == s[i as int]);
                }
                assert(out@ =~= seq!['['] + render_items(s.take(i + 1)));
            }
            i = i + 1;
        }
        out.append("]");
        proof {
            reveal_strlit("]");
            assert(self@.take(n as int) =~= self@);
            assert(out@ =~= render(self@));
        }
        out
    }

    /// Converts the vector into a forward cursor over its bits,
    /// transferring ownership: no handle to the vector remains.
    pub fn into_iter(self) -> (r: BitVecIter)
        requires
            self.wf(),
        ensures
            r.wf(),
            r.elements() == self@,
            r.cursor() == 0,
    {
        BitVecIter { inf_bit: self, index: 0 }
    }

    /// Flips every bit, consuming the operand. Don't-care tail bits are
    /// flipped too, which is safe: they remain don't-care.
    #[verifier::loop_isolation(false)]
    pub fn not(self) -> (r: BitVec)
        requires
            self.wf(),
        ensures
            r.wf(),
            r@ == seq_not(self@),
    {
        let mut out = self;
        let ghost orig = out;
        let n: usize = out.vec.len();
        let mut i: usize = 0;
        while i < n
            invariant
                i <= n,
                out.len == orig.len,
                out.vec@.len() == n,
                forall|k: int| 0 <= k < i ==> out.vec@[k] == !orig.vec@[k],
                forall|k: int| i <= k < n ==> out.vec@[k] == orig.vec@[k],
            decreases n - i,
        {
            let w: u64 = !out.vec[i];
            out.vec.set(i, w);
            i = i + 1;
        }
        proof {
            assert forall|j: int| 0 <= j < out@.len() implies out@[j] == seq_not(orig@)[j] by {
                assert(0 <= j / 64 < out.vec@.len());
                crate::word::lemma_not_bits(orig.vec@[j / 64]);
                assert(out.vec@[j / 64] == !orig.vec@[j / 64]);
            }
            assert(out@ =~= seq_not(orig@));
        }
        out
    }
}

impl BitVecIter {
    /// The bits the cursor walks over.
    pub closed spec fn elements(&self) -> Seq<bool> {
        self.inf_bit@
    }

    /// The position of the next bit to yield.
    pub closed spec fn cursor(&self) -> nat {
        self.index as nat
    }

    pub closed spec fn wf(&self) -> bool {
        self.inf_bit.wf() && self.index <= self.inf_bit@.len()
    }

    /// Yields the bit at the cursor and advances, or nothing once every
    /// position has been yielded; afterwards it yields nothing forever.
    pub fn next(&mut self) -> (r: Option<bool>)
        requires
            old(self).wf(),
        ensures
            final(self).wf(),
            final(self).elements() == old(self).elements(),
            old(self).cursor() == old(self).elements().len() ==> r is None && final(self).cursor()
                == old(self).cursor(),
            old(self).cursor() < old(self).elements().len() ==> r == Some(
                old(self).elements()[old(self).cursor() as int],
            ) && final(self).cursor() == old(self).cursor() + 1,
    {
        if self.inf_bit.len() == self.index {
            None
        } else {
            self.index = self.index + 1;
            Some(self.inf_bit.get(self.index - 1))
        }
    }
}

/// The 64 bits of word `j` of a well-formed vector, all of them valid
/// positions, count the same as that word.
proof fn lemma_word_slice(v: &BitVec, j: int)
    requires
        v.wf(),
        0 <= j,
        64 * j + 64 <= v@.len(),
    ensures
        v@.subrange(64 * j, 64 * j + 64) =~= Seq::new(64, |t: int| bit64(v.vec@[j], t as u64)),
        count_ones(v@.subrange(64 * j, 64 * j + 64)) == popcount64(v.vec@[j]),
{
    assert forall|t: int| 0 <= t < 64 implies v@.subrange(64 * j, 64 * j + 64)[t] == #[trigger] bit64(
        v.vec@[j],
        t as u64,
    ) by {
        assert((64 * j + t) / 64 == j && (64 * j + t) % 64 == t) by (nonlinear_arith)
            requires
                0 <= t < 64,
                0 <= j,
        ;
    }
    assert(v@.subrange(64 * j, 64 * j + 64) == Seq::new(64, |t: int| bit64(v.vec@[j], t as u64)));
    lemma_count_ones_matches_pcnt(v.vec@[j], 64);
    assert(count_ones(v@.subrange(64 * j, 64 * j + 64)) == pcnt(v.vec@[j], 64));
}

/// Counting `true` values over the bit sequence of a word agrees with
/// counting its set bits.
proof fn lemma_count_ones_matches_pcnt(w: u64, n: int)
    requires
        0 <= n <= 64,
    ensures
        count_ones(Seq::new(n as nat, |t: int| bit64(w, t as u64))) == pcnt(w, n),
    decreases n,
{
    let s = Seq::new(n as nat, |t: int| bit64(w, t as u64));
    if n > 0 {
        lemma_count_ones_matches_pcnt(w, n - 1);
        assert(s.drop_last() =~= Seq::new((n - 1) as nat, |t: int| bit64(w, t as u64)));
        assert(s.last() == bit64(w, (n - 1) as u64));
    }
}

} // verus!
