//! The laws of the protocol: properties that hold across operations, proved
//! once and for all over the cursor model.

use vstd::prelude::*;

use crate::cursor::hint_ok;
use crate::cursor::peeks;
use crate::cursor::StreamingIterator;
use crate::model::filtered;
use crate::model::is_subseq_of;
use crate::model::lemma_subseq_widen;

verus! {

/// Two-phase idempotence: two `get` calls on the same cursor without an
/// intervening `advance` return equal results — `get` reads the current
/// position and never moves it.
pub proof fn lemma_peek_idempotent<C: StreamingIterator>(
    c: C,
    r1: Option<&C::Item>,
    r2: Option<&C::Item>,
)
    requires
        peeks(c, r1),
        peeks(c, r2),
    ensures
        r1 == r2,
{
}

/// Filter soundness: every element of a filtered sequence satisfies the
/// predicate, and the filtered sequence is an order-preserving subsequence
/// of the original.  `Filter`'s upcoming elements are exactly
/// `filtered(inner.upcoming(), p)`.
pub proof fn lemma_filtered_sound<T>(s: Seq<T>, p: spec_fn(T) -> bool)
    ensures
        forall|i: int| 0 <= i < filtered(s, p).len() ==> p(#[trigger] filtered(s, p)[i]),
        is_subseq_of(filtered(s, p), s),
    decreases s.len(),
{
    if s.len() == 0 {
    } else {
        lemma_filtered_sound(s.skip(1), p);
        if p(s[0]) {
            assert forall|i: int| 0 <= i < filtered(s, p).len() implies p(
                #[trigger] filtered(s, p)[i],
            ) by {
                if i > 0 {
                    assert(filtered(s, p)[i] == filtered(s.skip(1), p)[i - 1]);
                }
            }
            assert(filtered(s, p).skip(1) =~= filtered(s.skip(1), p));
        } else {
            lemma_subseq_widen(filtered(s, p), s);
        }
    }
}

/// Map homomorphism: the sequence a mapped cursor yields is, element by
/// element, the transform applied to the sequence the inner cursor yields.
/// `Mapped`'s upcoming elements are exactly `inner.upcoming().map_values(g)`.
pub proof fn lemma_mapped_pointwise<T, B>(s: Seq<T>, g: spec_fn(T) -> B)
    ensures
        s.map_values(g).len() == s.len(),
        forall|i: int| 0 <= i < s.len() ==> #[trigger] s.map_values(g)[i] == g(s[i]),
{
}

/// Take/skip complementarity: for any position `k` within a sequence, the
/// first `k` elements followed by the rest reproduce the whole sequence.
/// `Take`'s upcoming elements are `inner.upcoming().take(k)` and `Skip`'s are
/// `inner.upcoming().skip(k)`, so two traversals of equivalent sources, one
/// capped at `k` and one passing over `k`, together yield the source.
pub proof fn lemma_take_skip_complement<T>(s: Seq<T>, k: int)
    requires
        0 <= k <= s.len(),
    ensures
        s.take(k) + s.skip(k) == s,
{
    assert(s.take(k) + s.skip(k) =~= s);
}

/// Count and size estimate are consistent: a sound size estimate brackets
/// the exact remaining count that `count` returns.
pub proof fn lemma_count_within_size_hint<C: StreamingIterator>(
    c: C,
    h: (usize, Option<usize>),
    n: usize,
)
    requires
        hint_ok(c, h),
        n == c.upcoming().len(),
    ensures
        h.0 <= n,
        h.1 matches Some(u) ==> n <= u,
{
}

} // verus!
