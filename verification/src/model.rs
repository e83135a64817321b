//! The mathematical model shared by the adaptors: closures regarded as
//! functions of their argument, and the sequence transformations the adaptors
//! perform.

use vstd::prelude::*;

verus! {

/// The closure `f` may be called on every element.
pub open spec fn callable<T, B, F: Fn(&T) -> B>(f: F) -> bool {
    forall|x: &T| #[trigger] call_requires(f, (x,))
}

/// The predicate `f` can answer `true` on `x`.
pub open spec fn accepts<T, F: Fn(&T) -> bool>(f: F, x: T) -> bool {
    call_ensures(f, (&x,), true)
}

/// The predicate `f` may be called on every element, and answers as a
/// function of its argument: whatever it returns on `x` equals `accepts(f, x)`.
pub open spec fn pred_total<T, F: Fn(&T) -> bool>(f: F) -> bool {
    &&& callable(f)
    &&& forall|x: &T, b: bool| #[trigger] call_ensures(f, (x,), b) ==> b == accepts(f, *x)
}

/// The value the transform `f` maps `x` to.
pub open spec fn image<T, B, F: Fn(&T) -> B>(f: F, x: T) -> B {
    choose|y: B| call_ensures(f, (&x,), y)
}

/// The transform `f` may be called on every element, and transforms it as a
/// function of its argument: whatever it returns on `x` equals `image(f, x)`.
pub open spec fn fn_total<T, B, F: Fn(&T) -> B>(f: F) -> bool {
    &&& callable(f)
    &&& forall|x: &T, y: B| #[trigger] call_ensures(f, (x,), y) ==> y == image(f, *x)
}

/// The predicate `f`, regarded as a function on elements.
pub open spec fn pred_of<T, F: Fn(&T) -> bool>(f: F) -> spec_fn(T) -> bool {
    |x: T| accepts(f, x)
}

/// The transform `f`, regarded as a function on elements.
pub open spec fn fn_of<T, B, F: Fn(&T) -> B>(f: F) -> spec_fn(T) -> B {
    |x: T| image(f, x)
}

/// The elements of `s` that satisfy `p`, in order.
pub open spec fn filtered<T>(s: Seq<T>, p: spec_fn(T) -> bool) -> Seq<T>
    decreases s.len(),
{
    if s.len() == 0 {
        Seq::empty()
    } else if p(s[0]) {
        seq![s[0]] + filtered(s.skip(1), p)
    } else {
        filtered(s.skip(1), p)
    }
}

/// The successful results of `g` on the elements of `s`, in order.
pub open spec fn collected<T, B>(s: Seq<T>, g: spec_fn(T) -> Option<B>) -> Seq<B>
    decreases s.len(),
{
    if s.len() == 0 {
        Seq::empty()
    } else {
        match g(s[0]) {
            Some(y) => seq![y] + collected(s.skip(1), g),
            None => collected(s.skip(1), g),
        }
    }
}

/// What is left of `s` after dropping its longest prefix of elements
/// satisfying `p`.
pub open spec fn dropped_while<T>(s: Seq<T>, p: spec_fn(T) -> bool) -> Seq<T>
    decreases s.len(),
{
    if s.len() == 0 {
        Seq::empty()
    } else if p(s[0]) {
        dropped_while(s.skip(1), p)
    } else {
        s
    }
}

/// Dropping a prefix never lengthens a sequence.
pub proof fn lemma_dropped_while_len<T>(s: Seq<T>, p: spec_fn(T) -> bool)
    ensures
        dropped_while(s, p).len() <= s.len(),
    decreases s.len(),
{
    if s.len() > 0 && p(s[0]) {
        lemma_dropped_while_len(s.skip(1), p);
    }
}

/// The index of the first element of `s` satisfying `p`, or `s.len()` when no
/// element does.
pub open spec fn first_match<T>(s: Seq<T>, p: spec_fn(T) -> bool) -> int
    decreases s.len(),
{
    if s.len() == 0 {
        0
    } else if p(s[0]) {
        0
    } else {
        1 + first_match(s.skip(1), p)
    }
}

/// `a` appears inside `b` in order, possibly with gaps.
pub open spec fn is_subseq_of<T>(a: Seq<T>, b: Seq<T>) -> bool
    decreases a.len(), b.len(),
{
    if a.len() == 0 {
        true
    } else if b.len() == 0 {
        false
    } else if a[0] == b[0] {
        is_subseq_of(a.skip(1), b.skip(1))
    } else {
        is_subseq_of(a, b.skip(1))
    }
}

/// `first_match` deserves its name: no earlier element satisfies `p`, the
/// element found (when there is one) does, and a match is found whenever one
/// exists.
pub proof fn lemma_first_match<T>(s: Seq<T>, p: spec_fn(T) -> bool)
    ensures
        0 <= first_match(s, p) <= s.len(),
        forall|j: int| 0 <= j < first_match(s, p) ==> !p(s[j]),
        first_match(s, p) < s.len() ==> p(s[first_match(s, p)]),
        (exists|i: int| 0 <= i < s.len() && p(s[i])) ==> first_match(s, p) < s.len(),
    decreases s.len(),
{
    if s.len() == 0 {
    } else if p(s[0]) {
    } else {
        let t = s.skip(1);
        lemma_first_match(t, p);
        assert forall|j: int| 0 <= j < first_match(s, p) implies !p(s[j]) by {
            if j > 0 {
                assert(t[j - 1] == s[j]);
            }
        }
        if exists|i: int| 0 <= i < s.len() && p(s[i]) {
            let i = choose|i: int| 0 <= i < s.len() && p(s[i]);
            assert(t[i - 1] == s[i]);
        }
    }
}

/// A subsequence of the tail of `b` is also a subsequence of `b` itself.
pub proof fn lemma_subseq_widen<T>(a: Seq<T>, b: Seq<T>)
    requires
        b.len() > 0,
        is_subseq_of(a, b.skip(1)),
    ensures
        is_subseq_of(a, b),
    decreases a.len() + b.len(),
{
    if a.len() == 0 {
    } else if a[0] == b[0] {
        lemma_subseq_tail(a, b.skip(1));
    } else {
    }
}

/// Dropping the first element of a subsequence leaves a subsequence.
pub proof fn lemma_subseq_tail<T>(a: Seq<T>, b: Seq<T>)
    requires
        a.len() > 0,
        is_subseq_of(a, b),
    ensures
        is_subseq_of(a.skip(1), b),
    decreases a.len() + b.len(),
{
    if a[0] == b[0] {
        if a.len() > 1 {
            lemma_subseq_widen(a.skip(1), b);
        }
    } else {
        lemma_subseq_tail(a, b.skip(1));
        lemma_subseq_widen(a.skip(1), b);
    }
}

/// Filtering never lengthens a sequence.
pub proof fn lemma_filtered_len<T>(s: Seq<T>, p: spec_fn(T) -> bool)
    ensures
        filtered(s, p).len() <= s.len(),
    decreases s.len(),
{
    if s.len() > 0 {
        lemma_filtered_len(s.skip(1), p);
    }
}

/// Collecting the successes of a partial transform never lengthens a sequence.
pub proof fn lemma_collected_len<T, B>(s: Seq<T>, g: spec_fn(T) -> Option<B>)
    ensures
        collected(s, g).len() <= s.len(),
    decreases s.len(),
{
    if s.len() > 0 {
        lemma_collected_len(s.skip(1), g);
    }
}

} // verus!
