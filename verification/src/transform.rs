//! Transform adaptors: filtering and mapping the elements of a streaming
//! iterator.

use vstd::prelude::*;

use crate::cursor::StreamingIterator;
use crate::model::accepts;
use crate::model::callable;
use crate::model::collected;
use crate::model::filtered;
use crate::model::fn_of;
use crate::model::fn_total;
use crate::model::image;
use crate::model::lemma_collected_len;
use crate::model::lemma_filtered_len;
use crate::model::pred_of;
use crate::model::pred_total;

verus! {

/// A streaming iterator which filters the elements of a streaming iterator
/// with a predicate.
pub struct Filter<I, F> {
    pub(crate) it: I,
    pub(crate) f: F,
}

/// The cursor that filtering builds: `it.filter(f)` returns exactly this
/// value.  [`lemma_filter_model`] says what its model is.
pub closed spec fn filter_model<I, F>(it: I, f: F) -> Filter<I, F> {
    Filter { it, f }
}

impl<I, F> Filter<I, F> {
    /// Packages a cursor with a predicate; `it.filter(f)` makes the same
    /// cursor.
    pub fn new(it: I, f: F) -> (r: Self)
        ensures
            r == filter_model(it, f),
    {
        Filter { it, f }
    }
}

/// The model of a freshly built filtering cursor: its upcoming elements are
/// exactly those upcoming elements of the inner cursor that the predicate
/// accepts, in order, and its current position is the inner cursor's.  It is
/// well behaved when the inner cursor is and the predicate answers as a
/// function of its argument.
pub proof fn lemma_filter_model<I, F>(it: I, f: F) where
    I: StreamingIterator,
    F: Fn(&I::Item) -> bool,

    ensures
        filter_model(it, f).current() == it.current(),
        filter_model(it, f).upcoming() == filtered(it.upcoming(), pred_of(f)),
        (filter_model(it, f).well_behaved() <==> it.well_behaved() && pred_total(f)),
        (filter_model(it, f).wf() <==> it.well_behaved() && callable(f)),
{
}

impl<I, F> StreamingIterator for Filter<I, F> where
    I: StreamingIterator,
    F: Fn(&I::Item) -> bool,
 {
    type Item = I::Item;

    closed spec fn upcoming(&self) -> Seq<I::Item> {
        filtered(self.it.upcoming(), pred_of(self.f))
    }

    closed spec fn current(&self) -> Option<I::Item> {
        self.it.current()
    }

    closed spec fn wf(&self) -> bool {
        self.it.well_behaved() && callable(self.f)
    }

    closed spec fn well_behaved(&self) -> bool {
        self.it.well_behaved() && pred_total(self.f)
    }

    proof fn well_behaved_implies_wf(&self) {
    }

    fn advance(&mut self) {
        loop
            invariant_except_break
                pred_total(old(self).f) ==> filtered(self.it.upcoming(), pred_of(self.f))
                    == filtered(old(self).it.upcoming(), pred_of(old(self).f)),
            invariant
                self.it.well_behaved(),
                callable(self.f),
                self.f == old(self).f,
            ensures
                self.it.well_behaved(),
                callable(self.f),
                self.f == old(self).f,
                pred_total(old(self).f) ==> {
                    let u0 = filtered(old(self).it.upcoming(), pred_of(old(self).f));
                    if u0.len() > 0 {
                        self.it.current() == Some(u0[0]) && filtered(
                            self.it.upcoming(),
                            pred_of(self.f),
                        ) == u0.skip(1)
                    } else {
                        self.it.current() is None && filtered(
                            self.it.upcoming(),
                            pred_of(self.f),
                        ).len() == 0
                    }
                },
            decreases self.it.upcoming().len(),
        {
            let ghost pre = self.it.upcoming();
            proof {
                self.it.well_behaved_implies_wf();
            }
            match self.it.next() {
                Some(i) => {
                    let keep = (self.f)(i);
                    proof {
                        if pred_total(self.f) {
                            assert(pre.len() > 0 && *i == pre[0]);
                            if keep {
                                assert(accepts(self.f, pre[0]));
                                assert(filtered(pre, pred_of(self.f)) == seq![pre[0]] + filtered(
                                    pre.skip(1),
                                    pred_of(self.f),
                                ));
                                assert((seq![pre[0]] + filtered(pre.skip(1), pred_of(self.f))).skip(
                                    1,
                                ) =~= filtered(pre.skip(1), pred_of(self.f)));
                            } else {
                                assert(!accepts(self.f, pre[0]));
                            }
                        }
                    }
                    if keep {
                        break;
                    }
                }
                None => {
                    break;
                }
            }
        }
    }

    fn get(&self) -> (r: Option<&I::Item>) {
        self.it.get()
    }

    fn size_hint(&self) -> (h: (usize, Option<usize>))
        ensures
            h.0 == 0,
    {
        let hint = self.it.size_hint();
        proof {
            if self.well_behaved() {
                lemma_filtered_len(self.it.upcoming(), pred_of(self.f));
            }
        }
        (0, hint.1)
    }
}

/// A streaming iterator which transforms the elements of a streaming
/// iterator, holding each transformed value in storage of its own.
pub struct Mapped<I, B, F> {
    pub(crate) it: I,
    pub(crate) f: F,
    pub(crate) item: Option<B>,
}

/// The cursor that mapping builds: `it.map(f)` returns exactly this value.
/// [`lemma_mapped_model`] says what its model is.
pub closed spec fn mapped_model<I, B, F>(it: I, f: F) -> Mapped<I, B, F> {
    Mapped { it, f, item: None }
}

impl<I, B, F> Mapped<I, B, F> {
    /// Packages a cursor with a transform; `it.map(f)` makes the same
    /// cursor.
    pub fn new(it: I, f: F) -> (r: Self)
        ensures
            r == mapped_model::<I, B, F>(it, f),
    {
        Mapped { it, f, item: None }
    }
}

/// The model of a freshly built mapping cursor: its upcoming elements are
/// the transform's results on the upcoming elements of the inner cursor, in
/// order, and it starts resting on no element.  It is well behaved when the
/// inner cursor is and the transform maps each element to a single value.
pub proof fn lemma_mapped_model<I, B, F>(it: I, f: F) where
    I: StreamingIterator,
    F: Fn(&I::Item) -> B,

    ensures
        mapped_model::<I, B, F>(it, f).current() is None,
        mapped_model::<I, B, F>(it, f).upcoming() == it.upcoming().map_values(fn_of(f)),
        (mapped_model::<I, B, F>(it, f).well_behaved() <==> it.well_behaved() && fn_total(f)),
        (mapped_model::<I, B, F>(it, f).wf() <==> it.wf() && callable(f)),
{
}

impl<I, B, F> StreamingIterator for Mapped<I, B, F> where
    I: StreamingIterator,
    F: Fn(&I::Item) -> B,
 {
    type Item = B;

    closed spec fn upcoming(&self) -> Seq<B> {
        self.it.upcoming().map_values(fn_of(self.f))
    }

    closed spec fn current(&self) -> Option<B> {
        self.item
    }

    closed spec fn wf(&self) -> bool {
        self.it.wf() && callable(self.f)
    }

    closed spec fn well_behaved(&self) -> bool {
        self.it.well_behaved() && fn_total(self.f)
    }

    proof fn well_behaved_implies_wf(&self) {
        self.it.well_behaved_implies_wf();
    }

    fn advance(&mut self) {
        let ghost pre = self.it.upcoming();
        match self.it.next() {
            Some(i) => {
                let y = (self.f)(i);
                proof {
                    if old(self).well_behaved() {
                        assert(pre.len() > 0 && *i == pre[0]);
                        assert(y == image(self.f, pre[0]));
                        assert(pre.map_values(fn_of(self.f)).skip(1) =~= pre.skip(1).map_values(
                            fn_of(self.f),
                        ));
                    }
                }
                self.item = Some(y);
            }
            None => {
                self.item = None;
            }
        }
    }

    fn get(&self) -> (r: Option<&B>) {
        self.item.as_ref()
    }

    fn size_hint(&self) -> (h: (usize, Option<usize>)) {
        self.it.size_hint()
    }
}

/// An iterator which both filters and maps elements of a streaming iterator
/// with a closure, keeping each successful result in storage of its own.
pub struct FilterMap<I, B, F> {
    pub(crate) it: I,
    pub(crate) f: F,
    pub(crate) item: Option<B>,
}

/// The cursor that filtering-and-mapping builds: `it.filter_map(f)` returns
/// exactly this value.  [`lemma_filter_map_model`] says what its model is.
pub closed spec fn filter_map_model<I, B, F>(it: I, f: F) -> FilterMap<I, B, F> {
    FilterMap { it, f, item: None }
}

impl<I, B, F> FilterMap<I, B, F> {
    /// Packages a cursor with a partial transform; `it.filter_map(f)` makes
    /// the same cursor.
    pub fn new(it: I, f: F) -> (r: Self)
        ensures
            r == filter_map_model::<I, B, F>(it, f),
    {
        FilterMap { it, f, item: None }
    }
}

/// The model of a freshly built filtering-and-mapping cursor: its upcoming
/// elements are the successful results of the partial transform on the
/// upcoming elements of the inner cursor, in order, and it starts resting on
/// no element.  It is well behaved when the inner cursor is and the
/// transform maps each element to a single result.
pub proof fn lemma_filter_map_model<I, B, F>(it: I, f: F) where
    I: StreamingIterator,
    F: Fn(&I::Item) -> Option<B>,

    ensures
        filter_map_model::<I, B, F>(it, f).current() is None,
        filter_map_model::<I, B, F>(it, f).upcoming() == collected(it.upcoming(), fn_of(f)),
        (filter_map_model::<I, B, F>(it, f).well_behaved() <==> it.well_behaved() && fn_total(f)),
        (filter_map_model::<I, B, F>(it, f).wf() <==> it.well_behaved() && callable(f)),
{
}

impl<I, B, F> StreamingIterator for FilterMap<I, B, F> where
    I: StreamingIterator,
    F: Fn(&I::Item) -> Option<B>,
 {
    type Item = B;

    closed spec fn upcoming(&self) -> Seq<B> {
        collected(self.it.upcoming(), fn_of(self.f))
    }

    closed spec fn current(&self) -> Option<B> {
        self.item
    }

    closed spec fn wf(&self) -> bool {
        self.it.well_behaved() && callable(self.f)
    }

    closed spec fn well_behaved(&self) -> bool {
        self.it.well_behaved() && fn_total(self.f)
    }

    proof fn well_behaved_implies_wf(&self) {
    }

    fn advance(&mut self) {
        loop
            invariant_except_break
                fn_total(old(self).f) ==> collected(self.it.upcoming(), fn_of(self.f))
                    == collected(old(self).it.upcoming(), fn_of(old(self).f)),
            invariant
                self.it.well_behaved(),
                callable(self.f),
                self.f == old(self).f,
            ensures
                self.it.well_behaved(),
                callable(self.f),
                self.f == old(self).f,
                fn_total(old(self).f) ==> {
                    let u0 = collected(old(self).it.upcoming(), fn_of(old(self).f));
                    if u0.len() > 0 {
                        self.item == Some(u0[0]) && collected(self.it.upcoming(), fn_of(self.f))
                            == u0.skip(1)
                    } else {
                        self.item is None && collected(self.it.upcoming(), fn_of(self.f)).len()
                            == 0
                    }
                },
            decreases self.it.upcoming().len(),
        {
            let ghost pre = self.it.upcoming();
            proof {
                self.it.well_behaved_implies_wf();
            }
            match self.it.next() {
                Some(i) => {
                    let y = (self.f)(i);
                    proof {
                        if fn_total(self.f) {
                            assert(pre.len() > 0 && *i == pre[0]);
                            assert(y == image(self.f, pre[0]));
                            assert(fn_of(self.f)(pre[0]) == y);
                            if y is Some {
                                assert(collected(pre, fn_of(self.f)) == seq![y->0] + collected(
                                    pre.skip(1),
                                    fn_of(self.f),
                                ));
                                assert((seq![y->0] + collected(pre.skip(1), fn_of(self.f))).skip(1)
                                    =~= collected(pre.skip(1), fn_of(self.f)));
                            }
                        }
                    }
                    match y {
                        Some(v) => {
                            self.item = Some(v);
                            break;
                        }
                        None => {
                        }
                    }
                }
                None => {
                    self.item = None;
                    break;
                }
            }
        }
    }

    fn get(&self) -> (r: Option<&B>) {
        self.item.as_ref()
    }

    fn size_hint(&self) -> (h: (usize, Option<usize>))
        ensures
            h.0 == 0,
    {
        let hint = self.it.size_hint();
        proof {
            if self.well_behaved() {
                lemma_collected_len(self.it.upcoming(), fn_of(self.f));
            }
        }
        (0, hint.1)
    }
}

} // verus!
