//! General properties of the bit-vector operations, stated over the
//! sequence model that the public contracts use, and proved once for
//! all inputs.

use crate::model::resize_spec;
use crate::model::seq_and;
use crate::model::seq_not;
use crate::model::seq_or;
use crate::model::seq_xor;
use vstd::prelude::*;

verus! {

/// Stack discipline: appending a value and then removing the last
/// element restores the original sequence and hands back exactly the
/// appended value, with the length returning to its original value.
pub proof fn lemma_push_pop(s: Seq<bool>, v: bool)
    ensures
        s.push(v).len() == s.len() + 1,
        s.push(v).last() == v,
        s.push(v).drop_last() == s,
{
    assert(s.push(v).drop_last() =~= s);
}

/// Stack discipline over a whole run of appends: after the values of
/// `vs` up to `k` have been appended in order, the contents are
/// `s + vs.take(k)`; a removal then returns `vs[k - 1]`, the most
/// recently appended value, and leaves `s + vs.take(k - 1)`, so that
/// the removals walk back through `vs` in reverse order until the
/// original contents, and with them the original length, are restored.
pub proof fn lemma_push_seq_pop_seq(s: Seq<bool>, vs: Seq<bool>, k: int)
    requires
        0 <= k <= vs.len(),
    ensures
        (s + vs.take(k)).len() == s.len() + k,
        k > 0 ==> (s + vs.take(k)).last() == vs[k - 1],
        k > 0 ==> (s + vs.take(k)).drop_last() == s + vs.take(k - 1),
        s + vs.take(0) == s,
{
    if k > 0 {
        assert((s + vs.take(k)).drop_last() =~= s + vs.take(k - 1));
    }
    assert(s + vs.take(0) =~= s);
}

/// Writing a value at a valid index makes it readable there and leaves
/// every other position unchanged.
pub proof fn lemma_set_get(s: Seq<bool>, i: int, v: bool)
    requires
        0 <= i < s.len(),
    ensures
        s.update(i, v).len() == s.len(),
        s.update(i, v)[i] == v,
        forall|j: int| 0 <= j < s.len() && j != i ==> s.update(i, v)[j] == s[j],
{
}

/// Conjunction of a sequence with itself changes nothing.
pub proof fn lemma_and_idempotent(a: Seq<bool>)
    ensures
        seq_and(a, a) == a,
{
    assert(seq_and(a, a) =~= a);
}

/// Disjunction of a sequence with its negation is all true.
pub proof fn lemma_or_not_all_true(a: Seq<bool>)
    ensures
        seq_or(a, seq_not(a)) == Seq::new(a.len(), |i: int| true),
{
    assert(seq_or(a, seq_not(a)) =~= Seq::new(a.len(), |i: int| true));
}

/// Exclusive or of a sequence with itself is all false.
pub proof fn lemma_xor_self_all_false(a: Seq<bool>)
    ensures
        seq_xor(a, a) == Seq::new(a.len(), |i: int| false),
{
    assert(seq_xor(a, a) =~= Seq::new(a.len(), |i: int| false));
}

/// De Morgan's laws hold element for element on equally long operands.
pub proof fn lemma_de_morgan(a: Seq<bool>, b: Seq<bool>)
    requires
        a.len() == b.len(),
    ensures
        seq_not(seq_and(a, b)) == seq_or(seq_not(a), seq_not(b)),
        seq_not(seq_or(a, b)) == seq_and(seq_not(a), seq_not(b)),
{
    assert(seq_not(seq_and(a, b)) =~= seq_or(seq_not(a), seq_not(b)));
    assert(seq_not(seq_or(a, b)) =~= seq_and(seq_not(a), seq_not(b)));
}

/// Resizing below the current length and then back up keeps the
/// surviving prefix and zero-fills the re-grown region: the values that
/// were shed do not reappear.
pub proof fn lemma_resize_shrink_grow(s: Seq<bool>, m: nat, n: nat)
    requires
        m <= s.len(),
    ensures
        resize_spec(resize_spec(s, m), n).len() == n,
        forall|i: int| 0 <= i < n && i < m ==> resize_spec(resize_spec(s, m), n)[i] == s[i],
        forall|i: int| m <= i < n ==> resize_spec(resize_spec(s, m), n)[i] == false,
{
}

} // verus!
