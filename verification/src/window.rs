//! Windowing adaptors: bounding the traversal range of a streaming iterator.

use vstd::prelude::*;

use crate::cursor::StreamingIterator;
use crate::model::accepts;
use crate::model::callable;
use crate::model::dropped_while;
use crate::model::lemma_dropped_while_len;
use crate::model::pred_of;
use crate::model::pred_total;

verus! {

/// A streaming iterator which skips a number of elements of a streaming
/// iterator, consuming them on the first advance.
#[derive(Clone)]
pub struct Skip<I> {
    pub(crate) it: I,
    pub(crate) n: usize,
}

/// The cursor that skipping builds: `it.skip(n)` returns exactly this value.
/// [`lemma_skip_model`] says what its model is.
pub closed spec fn skip_model<I>(it: I, n: usize) -> Skip<I> {
    Skip { it, n }
}

impl<I> Skip<I> {
    /// Packages a cursor with a count of elements to pass over; `it.skip(n)`
    /// makes the same cursor.
    pub fn new(it: I, n: usize) -> (r: Self)
        ensures
            r == skip_model(it, n),
    {
        Skip { it, n }
    }
}

/// The model of a freshly built skipping cursor: its upcoming elements are
/// those of the inner cursor beyond the first `n`; skipping more elements
/// than remain leaves nothing.  Its current position is the inner cursor's,
/// and it is well behaved exactly when the inner cursor is.
pub proof fn lemma_skip_model<I>(it: I, n: usize) where I: StreamingIterator
    ensures
        skip_model(it, n).current() == it.current(),
        skip_model(it, n).upcoming() == (if n <= it.upcoming().len() {
            it.upcoming().skip(n as int)
        } else {
            Seq::<I::Item>::empty()
        }),
        (skip_model(it, n).well_behaved() <==> it.well_behaved()),
        (skip_model(it, n).wf() <==> it.wf()),
{
}

impl<I> StreamingIterator for Skip<I> where I: StreamingIterator {
    type Item = I::Item;

    closed spec fn upcoming(&self) -> Seq<I::Item> {
        if self.n <= self.it.upcoming().len() {
            self.it.upcoming().skip(self.n as int)
        } else {
            Seq::empty()
        }
    }

    closed spec fn current(&self) -> Option<I::Item> {
        self.it.current()
    }

    closed spec fn wf(&self) -> bool {
        self.it.wf()
    }

    closed spec fn well_behaved(&self) -> bool {
        self.it.well_behaved()
    }

    proof fn well_behaved_implies_wf(&self) {
        self.it.well_behaved_implies_wf();
    }

    fn advance(&mut self) {
        let ghost s = self.it.upcoming();
        self.it.nth(self.n);
        proof {
            if old(self).well_behaved() {
                if s.len() > self.n {
                    assert(s.skip(self.n as int)[0] == s[self.n as int]);
                    assert(self.it.upcoming().skip(0) =~= self.it.upcoming());
                    assert(s.skip(self.n as int).skip(1) =~= s.skip(self.n as int + 1));
                } else {
                    assert(self.it.upcoming().skip(0) =~= self.it.upcoming());
                }
            }
        }
        self.n = 0;
    }

    fn get(&self) -> (r: Option<&I::Item>) {
        self.it.get()
    }

    fn size_hint(&self) -> (h: (usize, Option<usize>)) {
        let hint = self.it.size_hint();
        let lo = if hint.0 > self.n {
            hint.0 - self.n
        } else {
            0
        };
        let hi = match hint.1 {
            Some(u) => Some(
                if u > self.n {
                    u - self.n
                } else {
                    0
                },
            ),
            None => None,
        };
        (lo, hi)
    }
}

/// A streaming iterator which skips initial elements of a streaming iterator
/// that match a predicate, consuming them on the first advance.
pub struct SkipWhile<I, F> {
    pub(crate) it: I,
    pub(crate) f: F,
    pub(crate) done: bool,
}

/// The cursor that prefix-skipping builds: `it.skip_while(f)` returns
/// exactly this value.  [`lemma_skip_while_model`] says what its model is.
pub closed spec fn skip_while_model<I, F>(it: I, f: F) -> SkipWhile<I, F> {
    SkipWhile { it, f, done: false }
}

impl<I, F> SkipWhile<I, F> {
    /// Packages a cursor with a predicate describing the prefix to pass
    /// over; `it.skip_while(f)` makes the same cursor.
    pub fn new(it: I, f: F) -> (r: Self)
        ensures
            r == skip_while_model(it, f),
    {
        SkipWhile { it, f, done: false }
    }
}

/// The model of a freshly built prefix-skipping cursor: its upcoming
/// elements are those of the inner cursor from the first element the
/// predicate rejects onward.  Its current position is the inner cursor's,
/// and it is well behaved when the inner cursor is and the predicate answers
/// as a function of its argument.
pub proof fn lemma_skip_while_model<I, F>(it: I, f: F) where
    I: StreamingIterator,
    F: Fn(&I::Item) -> bool,

    ensures
        skip_while_model(it, f).current() == it.current(),
        skip_while_model(it, f).upcoming() == dropped_while(it.upcoming(), pred_of(f)),
        (skip_while_model(it, f).well_behaved() <==> it.well_behaved() && pred_total(f)),
        (skip_while_model(it, f).wf() <==> it.well_behaved() && callable(f)),
{
}

impl<I, F> StreamingIterator for SkipWhile<I, F> where
    I: StreamingIterator,
    F: Fn(&I::Item) -> bool,
 {
    type Item = I::Item;

    closed spec fn upcoming(&self) -> Seq<I::Item> {
        if self.done {
            self.it.upcoming()
        } else {
            dropped_while(self.it.upcoming(), pred_of(self.f))
        }
    }

    closed spec fn current(&self) -> Option<I::Item> {
        self.it.current()
    }

    closed spec fn wf(&self) -> bool {
        self.it.well_behaved() && callable(self.f)
    }

    closed spec fn well_behaved(&self) -> bool {
        self.it.well_behaved() && pred_total(self.f)
    }

    proof fn well_behaved_implies_wf(&self) {
    }

    fn advance(&mut self) {
        if !self.done {
            loop
                invariant_except_break
                    pred_total(old(self).f) ==> dropped_while(
                        self.it.upcoming(),
                        pred_of(self.f),
                    ) == dropped_while(old(self).it.upcoming(), pred_of(old(self).f)),
                invariant
                    self.it.well_behaved(),
                    callable(self.f),
                    self.f == old(self).f,
                    self.done == old(self).done,
                ensures
                    self.it.well_behaved(),
                    callable(self.f),
                    self.f == old(self).f,
                    self.done == old(self).done,
                    pred_total(old(self).f) ==> {
                        let u0 = dropped_while(old(self).it.upcoming(), pred_of(old(self).f));
                        if u0.len() > 0 {
                            self.it.current() == Some(u0[0]) && self.it.upcoming() == u0.skip(1)
                        } else {
                            self.it.current() is None && self.it.upcoming().len() == 0
                        }
                    },
                decreases self.it.upcoming().len(),
            {
                let ghost pre = self.it.upcoming();
                proof {
                    self.it.well_behaved_implies_wf();
                }
                match self.it.next() {
                    Some(i) => {
                        let discard = (self.f)(i);
                        proof {
                            if pred_total(self.f) {
                                assert(pre.len() > 0 && *i == pre[0]);
                                if discard {
                                    assert(accepts(self.f, pre[0]));
                                } else {
                                    assert(!accepts(self.f, pre[0]));
                                    assert(dropped_while(pre, pred_of(self.f)) == pre);
                                }
                            }
                        }
                        if !discard {
                            break;
                        }
                    }
                    None => {
                        break;
                    }
                }
            }
            self.done = true;
        } else {
            proof {
                self.it.well_behaved_implies_wf();
            }
            self.it.advance();
        }
    }

    fn get(&self) -> (r: Option<&I::Item>) {
        self.it.get()
    }

    fn size_hint(&self) -> (h: (usize, Option<usize>))
        ensures
            h.0 == 0,
    {
        let hint = self.it.size_hint();
        proof {
            if self.well_behaved() && !self.done {
                lemma_dropped_while_len(self.it.upcoming(), pred_of(self.f));
            }
        }
        (0, hint.1)
    }
}

/// A streaming iterator which only yields a limited number of elements of a
/// streaming iterator, never advancing the inner cursor past them.
#[derive(Clone)]
pub struct Take<I> {
    pub(crate) it: I,
    pub(crate) n: usize,
    pub(crate) done: bool,
}

/// The cursor that capping builds: `it.take(n)` returns exactly this value.
/// [`lemma_take_model`] says what its model is.
pub closed spec fn take_model<I>(it: I, n: usize) -> Take<I> {
    Take { it, n, done: false }
}

impl<I> Take<I> {
    /// The number of elements the cursor is still allowed to yield.
    pub closed spec fn limit(&self) -> usize {
        self.n
    }

    /// Packages a cursor with a cap on the number of elements to yield;
    /// `it.take(n)` makes the same cursor.
    pub fn new(it: I, n: usize) -> (r: Self)
        ensures
            r == take_model(it, n),
    {
        Take { it, n, done: false }
    }
}

/// The model of a freshly built capping cursor: its upcoming elements are
/// the first `n` of the inner cursor's; asking for more than remain yields
/// exactly what remains.  Its current position is the inner cursor's, and it
/// is well behaved exactly when the inner cursor is.
pub proof fn lemma_take_model<I>(it: I, n: usize) where I: StreamingIterator
    ensures
        take_model(it, n).current() == it.current(),
        take_model(it, n).limit() == n,
        take_model(it, n).upcoming() == (if n <= it.upcoming().len() {
            it.upcoming().take(n as int)
        } else {
            it.upcoming()
        }),
        (take_model(it, n).well_behaved() <==> it.well_behaved()),
        (take_model(it, n).wf() <==> it.wf()),
{
}

impl<I> StreamingIterator for Take<I> where I: StreamingIterator {
    type Item = I::Item;

    closed spec fn upcoming(&self) -> Seq<I::Item> {
        if self.done {
            Seq::empty()
        } else if self.n <= self.it.upcoming().len() {
            self.it.upcoming().take(self.n as int)
        } else {
            self.it.upcoming()
        }
    }

    closed spec fn current(&self) -> Option<I::Item> {
        if self.done {
            None
        } else {
            self.it.current()
        }
    }

    closed spec fn wf(&self) -> bool {
        self.it.wf()
    }

    closed spec fn well_behaved(&self) -> bool {
        self.it.well_behaved() && (self.done ==> self.n == 0)
    }

    proof fn well_behaved_implies_wf(&self) {
        self.it.well_behaved_implies_wf();
    }

    fn advance(&mut self) {
        if self.n != 0 {
            let ghost pre = self.it.upcoming();
            self.it.advance();
            self.n = self.n - 1;
            proof {
                if old(self).well_behaved() && pre.len() > 0 {
                    if old(self).n <= pre.len() {
                        assert(pre.take(old(self).n as int).skip(1) =~= pre.skip(1).take(
                            old(self).n as int - 1,
                        ));
                        assert(pre.take(old(self).n as int)[0] == pre[0]);
                    }
                }
            }
        } else {
            self.done = true;
        }
    }

    fn get(&self) -> (r: Option<&I::Item>) {
        if self.done {
            None
        } else {
            self.it.get()
        }
    }

    fn size_hint(&self) -> (h: (usize, Option<usize>))
        ensures
            h.1 == Some(self.limit()),
    {
        let hint = self.it.size_hint();
        let lo = if hint.0 < self.n {
            hint.0
        } else {
            self.n
        };
        (lo, Some(self.n))
    }
}

} // verus!
