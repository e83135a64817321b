//! The core two-phase cursor protocol.

use vstd::prelude::*;

use crate::bridge::cloned_model;
use crate::bridge::owned_model;
use crate::bridge::Cloned;
use crate::bridge::Owned;
use crate::fused::fuse_model;
use crate::fused::Fuse;
use crate::model::accepts;
use crate::model::first_match;
use crate::model::lemma_first_match;
use crate::model::pred_of;
use crate::model::pred_total;
use crate::transform::filter_map_model;
use crate::transform::filter_model;
use crate::transform::mapped_model;
use crate::transform::Filter;
use crate::transform::FilterMap;
use crate::transform::Mapped;
use crate::window::skip_model;
use crate::window::skip_while_model;
use crate::window::take_model;
use crate::window::Skip;
use crate::window::SkipWhile;
use crate::window::Take;

verus! {

/// Relates the result of a `get` call to the cursor's model: the call hands
/// back a reference to the current element exactly when the cursor rests on
/// one, and nothing otherwise.
pub open spec fn peeks<C: StreamingIterator>(c: C, r: Option<&C::Item>) -> bool {
    match r {
        Some(x) => c.current() == Some(*x),
        None => c.current() is None,
    }
}

/// A size estimate is sound for a cursor when its lower bound does not exceed
/// the number of elements still ahead, and its upper bound, if given, is not
/// exceeded by that number.
pub open spec fn hint_ok<C: StreamingIterator>(c: C, h: (usize, Option<usize>)) -> bool {
    &&& h.0 <= c.upcoming().len()
    &&& (h.1 matches Some(u) ==> c.upcoming().len() <= u)
}

/// An interface for dealing with streaming iterators.
///
/// A cursor starts just before its first element.  `advance` moves it one
/// logical position forward; `get` reads the element at the current position,
/// or reports that there is none.  All other operations derive from these two.
///
/// Each cursor carries a ghost model: `upcoming()` is the sequence of elements
/// it has yet to move onto, and `current()` is the element it presently rests
/// on.  A *well-behaved* cursor is one whose model is faithful; in particular
/// it stays exhausted once its elements run out.  Cursors that resume after
/// reporting exhaustion (see `Fuse` for the cure) are not well behaved, and
/// the protocol promises nothing about their traversal beyond memory safety
/// and the honesty of each individual `get`.
pub trait StreamingIterator: Sized {
    /// The type of the elements being iterated over.
    type Item;

    /// The elements still ahead of the cursor, in the order they will appear.
    spec fn upcoming(&self) -> Seq<Self::Item>;

    /// The element at the cursor's current position, if it rests on one.
    spec fn current(&self) -> Option<Self::Item>;

    /// The cursor's machinery can be operated: every closure it owns may be
    /// called on any element.  This is what `advance` needs to run at all.
    spec fn wf(&self) -> bool;

    /// The cursor's model is faithful: `advance` pops the head of `upcoming`
    /// onto `current`, an exhausted cursor stays exhausted, and any closures
    /// the cursor owns behave as functions of their argument.
    spec fn well_behaved(&self) -> bool;

    /// A well-behaved cursor can always be operated.
    proof fn well_behaved_implies_wf(&self)
        requires
            self.well_behaved(),
        ensures
            self.wf(),
    ;

    /// Advances the iterator to the next element.
    ///
    /// Iterators start just before the first element, so this should be called
    /// before `get`.  On a well-behaved cursor, advancing moves the head of
    /// `upcoming` onto `current`; once `upcoming` is empty, further advances
    /// leave the cursor exhausted.
    fn advance(&mut self)
        requires
            old(self).wf(),
        ensures
            final(self).wf(),
            old(self).well_behaved() ==> {
                &&& final(self).well_behaved()
                &&& if old(self).upcoming().len() > 0 {
                    final(self).current() == Some(old(self).upcoming()[0])
                        && final(self).upcoming() == old(self).upcoming().skip(1)
                } else {
                    final(self).current() is None && final(self).upcoming().len() == 0
                }
            },
    ;

    /// Returns a reference to the current element of the iterator, or `None`
    /// if the cursor is before the first element or past the last one.
    ///
    /// `get` never moves the cursor: repeated calls without an intervening
    /// `advance` read the same position.
    fn get(&self) -> (r: Option<&Self::Item>)
        ensures
            match r {
                Some(x) => self.current() == Some(*x),
                None => self.current() is None,
            },
    ;

    /// Advances the iterator and returns the next value.
    ///
    /// The default implementation simply calls `advance` followed by `get`.
    fn next(&mut self) -> (r: Option<&Self::Item>)
        requires
            old(self).wf(),
        ensures
            final(self).wf(),
            match r {
                Some(x) => final(self).current() == Some(*x),
                None => final(self).current() is None,
            },
            old(self).well_behaved() ==> {
                &&& final(self).well_behaved()
                &&& if old(self).upcoming().len() > 0 {
                    final(self).current() == Some(old(self).upcoming()[0])
                        && final(self).upcoming() == old(self).upcoming().skip(1)
                } else {
                    final(self).current() is None && final(self).upcoming().len() == 0
                }
            },
    {
        self.advance();
        self.get()
    }

    /// Returns the bounds on the remaining length of the iterator.
    ///
    /// The estimate is advisory: it need not be exact, but on a well-behaved
    /// cursor it must bracket the true remaining count.
    fn size_hint(&self) -> (h: (usize, Option<usize>))
        ensures
            self.well_behaved() ==> h.0 <= self.upcoming().len() && (h.1 matches Some(u)
                ==> self.upcoming().len() <= u),
    {
        (0, None)
    }

    /// Determines if all elements of the iterator satisfy a predicate,
    /// stopping at the first that does not.
    fn all<F: Fn(&Self::Item) -> bool>(&mut self, f: F) -> (b: bool)
        requires
            old(self).well_behaved(),
            pred_total(f),
        ensures
            final(self).well_behaved(),
            b <==> (forall|t: int|
                0 <= t < old(self).upcoming().len() ==> accepts(
                    f,
                    #[trigger] old(self).upcoming()[t],
                )),
    {
        let ghost s = old(self).upcoming();
        let ghost mut j: int = 0;
        proof {
            assert(s.skip(0) =~= s);
        }
        loop
            invariant_except_break
                self.upcoming() == s.skip(j),
            invariant
                s == old(self).upcoming(),
                self.well_behaved(),
                pred_total(f),
                0 <= j <= s.len(),
                forall|t: int| 0 <= t < j ==> accepts(f, #[trigger] s[t]),
            ensures
                self.well_behaved(),
                j == s.len(),
                forall|t: int| 0 <= t < j ==> accepts(f, #[trigger] s[t]),
            decreases self.upcoming().len(),
        {
            proof {
                self.well_behaved_implies_wf();
            }
            match self.next() {
                Some(i) => {
                    proof {
                        assert(s.skip(j)[0] == s[j]);
                    }
                    if !(f(i)) {
                        proof {
                            assert(!accepts(f, s[j]));
                        }
                        return false;
                    }
                    proof {
                        assert(s.skip(j).skip(1) =~= s.skip(j + 1));
                        j = j + 1;
                    }
                }
                None => {
                    break;
                }
            }
        }
        true
    }

    /// Determines if any element of the iterator satisfies a predicate,
    /// stopping at the first that does.
    fn any<F: Fn(&Self::Item) -> bool>(&mut self, f: F) -> (b: bool)
        requires
            old(self).well_behaved(),
            pred_total(f),
        ensures
            final(self).well_behaved(),
            b <==> (exists|t: int|
                0 <= t < old(self).upcoming().len() && accepts(
                    f,
                    #[trigger] old(self).upcoming()[t],
                )),
    {
        let ghost s = old(self).upcoming();
        let ghost mut j: int = 0;
        proof {
            assert(s.skip(0) =~= s);
        }
        loop
            invariant_except_break
                self.upcoming() == s.skip(j),
            invariant
                s == old(self).upcoming(),
                self.well_behaved(),
                pred_total(f),
                0 <= j <= s.len(),
                forall|t: int| 0 <= t < j ==> !accepts(f, #[trigger] s[t]),
            ensures
                self.well_behaved(),
                j == s.len(),
                forall|t: int| 0 <= t < j ==> !accepts(f, #[trigger] s[t]),
            decreases self.upcoming().len(),
        {
            proof {
                self.well_behaved_implies_wf();
            }
            match self.next() {
                Some(i) => {
                    proof {
                        assert(s.skip(j)[0] == s[j]);
                    }
                    if f(i) {
                        proof {
                            assert(accepts(f, s[j]));
                        }
                        return true;
                    }
                    proof {
                        assert(s.skip(j).skip(1) =~= s.skip(j + 1));
                        j = j + 1;
                    }
                }
                None => {
                    break;
                }
            }
        }
        false
    }

    /// Returns the first element of the iterator that satisfies the
    /// predicate.
    ///
    /// On success the cursor is left resting on the matching element, so a
    /// subsequent `get` repeats it; on failure the cursor is exhausted.
    fn find<F: Fn(&Self::Item) -> bool>(&mut self, f: F) -> (r: Option<&Self::Item>)
        requires
            old(self).well_behaved(),
            pred_total(f),
        ensures
            final(self).well_behaved(),
            match r {
                Some(x) => final(self).current() == Some(*x),
                None => final(self).current() is None,
            },
            ({
                let s = old(self).upcoming();
                let k = first_match(s, pred_of(f));
                if k < s.len() {
                    final(self).current() == Some(s[k]) && final(self).upcoming() == s.skip(k + 1)
                } else {
                    final(self).current() is None && final(self).upcoming().len() == 0
                }
            }),
    {
        let ghost s = old(self).upcoming();
        let ghost k = first_match(s, pred_of(f));
        let ghost mut j: int = 0;
        proof {
            lemma_first_match(s, pred_of(f));
            assert(s.skip(0) =~= s);
        }
        loop
            invariant_except_break
                self.upcoming() == s.skip(j),
            invariant
                s == old(self).upcoming(),
                self.well_behaved(),
                pred_total(f),
                0 <= j <= s.len(),
                k == first_match(s, pred_of(f)),
                0 <= k <= s.len(),
                k < s.len() ==> pred_of(f)(s[k]),
                forall|t: int| 0 <= t < k ==> !pred_of(f)(#[trigger] s[t]),
                (exists|i: int| 0 <= i < s.len() && pred_of(f)(s[i])) ==> k < s.len(),
                forall|t: int| 0 <= t < j ==> !accepts(f, #[trigger] s[t]),
            ensures
                self.well_behaved(),
                if k < s.len() {
                    self.current() == Some(s[k]) && self.upcoming() == s.skip(k + 1)
                } else {
                    self.current() is None && self.upcoming().len() == 0
                },
            decreases self.upcoming().len(),
        {
            proof {
                self.well_behaved_implies_wf();
            }
            match self.next() {
                Some(i) => {
                    proof {
                        assert(s.skip(j)[0] == s[j]);
                    }
                    if f(i) {
                        proof {
                            assert(accepts(f, s[j]));
                            assert(pred_of(f)(s[j]));
                            assert(k == j);
                            assert(s.skip(j).skip(1) =~= s.skip(j + 1));
                        }
                        break;
                    }
                    proof {
                        assert(!pred_of(f)(s[j]));
                        assert(s.skip(j).skip(1) =~= s.skip(j + 1));
                        j = j + 1;
                    }
                }
                None => {
                    proof {
                        assert(j == s.len());
                    }
                    break;
                }
            }
        }
        self.get()
    }

    /// Consumes the first `n` elements of the iterator, returning the next
    /// one.
    ///
    /// Exhaustion at or before the requested position yields nothing.
    fn nth(&mut self, n: usize) -> (r: Option<&Self::Item>)
        requires
            old(self).wf(),
        ensures
            final(self).wf(),
            match r {
                Some(x) => final(self).current() == Some(*x),
                None => final(self).current() is None,
            },
            old(self).well_behaved() ==> {
                &&& final(self).well_behaved()
                &&& if old(self).upcoming().len() > n {
                    final(self).current() == Some(old(self).upcoming()[n as int])
                        && final(self).upcoming() == old(self).upcoming().skip(n as int + 1)
                } else {
                    final(self).current() is None && final(self).upcoming().len() == 0
                }
            },
    {
        let ghost s = old(self).upcoming();
        let mut idx: usize = 0;
        proof {
            assert(s.skip(0) =~= s);
        }
        while idx < n
            invariant
                s == old(self).upcoming(),
                idx <= n,
                self.wf(),
                old(self).well_behaved() ==> {
                    &&& self.well_behaved()
                    &&& idx <= s.len()
                    &&& self.upcoming() == s.skip(idx as int)
                },
            decreases n - idx,
        {
            self.advance();
            proof {
                if old(self).well_behaved() && idx < s.len() {
                    assert(s.skip(idx as int).skip(1) =~= s.skip(idx as int + 1));
                }
            }
            if self.get().is_none() {
                return None;
            }
            proof {
                if old(self).well_behaved() {
                    assert(idx < s.len());
                }
            }
            idx = idx + 1;
        }
        let r = self.next();
        proof {
            if old(self).well_behaved() && s.len() > n {
                assert(s.skip(n as int)[0] == s[n as int]);
                assert(s.skip(n as int).skip(1) =~= s.skip(n as int + 1));
            }
        }
        r
    }

    /// Returns the index of the first element of the iterator matching a
    /// predicate, consuming the cursor up to and including the match.
    fn position<F: Fn(&Self::Item) -> bool>(&mut self, f: F) -> (r: Option<usize>)
        requires
            old(self).well_behaved(),
            pred_total(f),
            old(self).upcoming().len() <= usize::MAX,
        ensures
            final(self).well_behaved(),
            ({
                let s = old(self).upcoming();
                let k = first_match(s, pred_of(f));
                if k < s.len() {
                    r == Some(k as usize) && final(self).current() == Some(s[k])
                        && final(self).upcoming() == s.skip(k + 1)
                } else {
                    r is None && final(self).current() is None && final(self).upcoming().len() == 0
                }
            }),
    {
        let ghost s = old(self).upcoming();
        let ghost k = first_match(s, pred_of(f));
        let mut idx: usize = 0;
        proof {
            lemma_first_match(s, pred_of(f));
            assert(s.skip(0) =~= s);
        }
        loop
            invariant_except_break
                self.upcoming() == s.skip(idx as int),
            invariant
                s == old(self).upcoming(),
                self.well_behaved(),
                pred_total(f),
                0 <= idx <= s.len(),
                s.len() <= usize::MAX,
                k == first_match(s, pred_of(f)),
                0 <= k <= s.len(),
                k < s.len() ==> pred_of(f)(s[k]),
                forall|t: int| 0 <= t < k ==> !pred_of(f)(#[trigger] s[t]),
                forall|t: int| 0 <= t < idx ==> !accepts(f, #[trigger] s[t]),
            ensures
                self.well_behaved(),
                k == s.len(),
                self.current() is None,
                self.upcoming().len() == 0,
            decreases self.upcoming().len(),
        {
            proof {
                self.well_behaved_implies_wf();
            }
            match self.next() {
                Some(i) => {
                    proof {
                        assert(s.skip(idx as int)[0] == s[idx as int]);
                    }
                    if f(i) {
                        proof {
                            assert(accepts(f, s[idx as int]));
                            assert(pred_of(f)(s[idx as int]));
                            assert(k == idx);
                            assert(s.skip(idx as int).skip(1) =~= s.skip(idx as int + 1));
                        }
                        return Some(idx);
                    }
                    proof {
                        assert(!pred_of(f)(s[idx as int]));
                        assert(s.skip(idx as int).skip(1) =~= s.skip(idx as int + 1));
                    }
                    idx = idx + 1;
                }
                None => {
                    proof {
                        assert(idx == s.len());
                    }
                    break;
                }
            }
        }
        None
    }

    /// Creates an iterator which uses a closure to determine if an element
    /// should be yielded.
    ///
    /// The new cursor yields, in order, exactly those elements of this one
    /// that the predicate accepts; [`lemma_filter_model`] spells the model
    /// out.  (The model cannot be spelled out here: a trait's own contracts
    /// may not mention an implementation of that trait.)
    fn filter<F: Fn(&Self::Item) -> bool>(self, f: F) -> (r: Filter<Self, F>)
        ensures
            r == filter_model(self, f),
    {
        Filter::new(self, f)
    }

    /// Creates an iterator which transforms elements of this iterator by
    /// passing them to a closure.
    ///
    /// The new cursor yields the transform's results on the elements of
    /// this one, in order; [`lemma_mapped_model`] spells the model out.
    fn map<B, F: Fn(&Self::Item) -> B>(self, f: F) -> (r: Mapped<Self, B, F>)
        ensures
            r == mapped_model::<Self, B, F>(self, f),
    {
        Mapped::new(self, f)
    }

    /// Creates an iterator which both filters and maps by applying a closure
    /// to elements.
    ///
    /// The new cursor yields the successful results of the transform on the
    /// elements of this one, in order; [`lemma_filter_map_model`] spells the
    /// model out.
    fn filter_map<B, F: Fn(&Self::Item) -> Option<B>>(self, f: F) -> (r: FilterMap<Self, B, F>)
        ensures
            r == filter_map_model::<Self, B, F>(self, f),
    {
        FilterMap::new(self, f)
    }

    /// Borrows an iterator, rather than consuming it.
    ///
    /// This is useful to allow the application of iterator adaptors while
    /// still retaining ownership of the original adaptor.
    fn by_ref(&mut self) -> (r: &mut Self)
        ensures
            *r == *old(self),
            *final(self) == *final(r),
    {
        self
    }

    /// Produces a normal, value-producing iterator by cloning the elements
    /// of this iterator.
    ///
    /// The new iterator produces clones of the elements of this cursor;
    /// [`lemma_cloned_model`] spells the model out.
    fn cloned(self) -> (r: Cloned<Self>) where Self::Item: Clone
        ensures
            r == cloned_model(self),
    {
        Cloned::new(self)
    }

    /// Produces a normal, value-producing iterator with owned duplicates of
    /// the elements of this iterator.
    ///
    /// The new iterator produces owned duplicates of the elements of this
    /// cursor; [`lemma_owned_model`] spells the model out.
    fn owned(self) -> (r: Owned<Self>) where Self::Item: Clone
        ensures
            r == owned_model(self),
    {
        Owned::new(self)
    }

    /// Creates an iterator which is "well behaved" at the beginning and end
    /// of iteration.
    ///
    /// Peeking before the first advance, and advancing after exhaustion, are
    /// unspecified for a raw cursor; the fused cursor reports nothing in both
    /// situations.  [`lemma_fuse_model`] spells the model out.
    fn fuse(self) -> (r: Fuse<Self>)
        ensures
            r == fuse_model(self),
    {
        Fuse::new(self)
    }

    /// Creates an iterator which skips the first `n` elements.
    ///
    /// The new cursor yields the elements of this one beyond the first `n`;
    /// [`lemma_skip_model`] spells the model out.
    fn skip(self, n: usize) -> (r: Skip<Self>)
        ensures
            r == skip_model(self, n),
    {
        Skip::new(self, n)
    }

    /// Creates an iterator that skips initial elements matching a predicate.
    ///
    /// The new cursor yields the elements of this one from the first that
    /// the predicate rejects onward; [`lemma_skip_while_model`] spells the
    /// model out.
    fn skip_while<F: Fn(&Self::Item) -> bool>(self, f: F) -> (r: SkipWhile<Self, F>)
        ensures
            r == skip_while_model(self, f),
    {
        SkipWhile::new(self, f)
    }

    /// Creates an iterator which only returns the first `n` elements.
    ///
    /// The new cursor yields at most the first `n` elements of this one;
    /// [`lemma_take_model`] spells the model out.
    fn take(self, n: usize) -> (r: Take<Self>)
        ensures
            r == take_model(self, n),
    {
        Take::new(self, n)
    }

    /// Consumes the iterator, counting the number of remaining elements and
    /// returning it.
    fn count(self) -> (n: usize)
        requires
            self.well_behaved(),
            self.upcoming().len() <= usize::MAX,
        ensures
            n == self.upcoming().len(),
    {
        let ghost total = self.upcoming().len();
        let mut it = self;
        let mut n: usize = 0;
        loop
            invariant
                it.well_behaved(),
                n + it.upcoming().len() == total,
                total <= usize::MAX,
            ensures
                n == total,
            decreases it.upcoming().len(),
        {
            proof {
                it.well_behaved_implies_wf();
            }
            match it.next() {
                Some(_) => {
                    n = n + 1;
                }
                None => {
                    break;
                }
            }
        }
        n
    }
}

} // verus!
