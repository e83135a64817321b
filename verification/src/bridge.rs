//! Bridges between value-producing sequences and streaming cursors.

use vstd::prelude::*;

use vstd::pervasive::cloned;

use crate::cursor::StreamingIterator;

verus! {

/// A streaming iterator which yields the elements of a vector, in order, as
/// borrowed views into storage it owns.
#[derive(Clone)]
pub struct Convert<T> {
    pub(crate) items: Vec<T>,
    pub(crate) taken: usize,
    pub(crate) fin: bool,
}

/// Turns a finite sequence of values into a streaming iterator over them.
///
/// The cursor starts just before the first element, so `get` reports nothing
/// until the first `advance`.
pub fn convert<T>(items: Vec<T>) -> (it: Convert<T>)
    ensures
        it.well_behaved(),
        it.upcoming() == items@,
        it.current() is None,
{
    Convert { items, taken: 0, fin: false }
}

impl<T> StreamingIterator for Convert<T> {
    type Item = T;

    closed spec fn upcoming(&self) -> Seq<T> {
        if self.fin || self.taken > self.items@.len() {
            Seq::empty()
        } else {
            self.items@.skip(self.taken as int)
        }
    }

    closed spec fn current(&self) -> Option<T> {
        if !self.fin && 1 <= self.taken <= self.items@.len() {
            Some(self.items@[self.taken - 1])
        } else {
            None
        }
    }

    closed spec fn wf(&self) -> bool {
        true
    }

    closed spec fn well_behaved(&self) -> bool {
        &&& self.taken <= self.items@.len()
        &&& (self.fin ==> self.taken == self.items@.len())
    }

    proof fn well_behaved_implies_wf(&self) {
    }

    fn advance(&mut self) {
        if !self.fin && self.taken < self.items.len() {
            self.taken = self.taken + 1;
            proof {
                assert(self.items@.skip(self.taken as int) =~= old(
                    self,
                ).items@.skip(old(self).taken as int).skip(1));
            }
        } else {
            self.fin = true;
        }
    }

    fn get(&self) -> (r: Option<&T>) {
        if !self.fin && 1 <= self.taken && self.taken <= self.items.len() {
            Some(&self.items[self.taken - 1])
        } else {
            None
        }
    }

    fn size_hint(&self) -> (h: (usize, Option<usize>))
        ensures
            self.well_behaved() ==> h.0 == self.upcoming().len() && h.1 == Some(h.0),
    {
        if self.fin || self.taken > self.items.len() {
            (0, Some(0))
        } else {
            let rem = self.items.len() - self.taken;
            (rem, Some(rem))
        }
    }

    fn count(self) -> (n: usize) {
        if self.fin || self.taken > self.items.len() {
            0
        } else {
            self.items.len() - self.taken
        }
    }
}

/// A normal, value-producing iterator which converts the elements of a
/// streaming iterator into owned values by cloning them.
#[derive(Clone)]
pub struct Cloned<I>(pub(crate) I);

/// The iterator that cloning builds: `it.cloned()` returns exactly this
/// value.  [`lemma_cloned_model`] says what its model is.
pub closed spec fn cloned_model<I>(it: I) -> Cloned<I> {
    Cloned(it)
}

/// The model of a freshly built cloning iterator: it will produce clones of
/// the upcoming elements of the cursor underneath, and it is well behaved
/// exactly when that cursor is.
pub proof fn lemma_cloned_model<I>(it: I) where I: StreamingIterator, I::Item: Clone
    ensures
        cloned_model(it).upcoming() == it.upcoming(),
        (cloned_model(it).well_behaved() <==> it.well_behaved()),
        (cloned_model(it).wf() <==> it.wf()),
{
}

impl<I> Cloned<I> {
    /// Packages a cursor as a value-producing iterator over clones of its
    /// elements; `it.cloned()` makes the same iterator.
    pub fn new(it: I) -> (r: Self)
        ensures
            r == cloned_model(it),
    {
        Cloned(it)
    }
}

impl<I> Cloned<I> where I: StreamingIterator, I::Item: Clone {
    /// The elements the inner cursor has yet to yield.
    pub closed spec fn upcoming(&self) -> Seq<I::Item> {
        self.0.upcoming()
    }

    /// The inner cursor can be operated.
    pub closed spec fn wf(&self) -> bool {
        self.0.wf()
    }

    /// The inner cursor's model is faithful.
    pub closed spec fn well_behaved(&self) -> bool {
        self.0.well_behaved()
    }

    /// Advances the inner cursor and hands back a clone of the element it
    /// lands on, or nothing once the cursor is exhausted.
    pub fn next(&mut self) -> (r: Option<I::Item>)
        requires
            old(self).wf(),
        ensures
            final(self).wf(),
            old(self).well_behaved() ==> {
                &&& final(self).well_behaved()
                &&& if old(self).upcoming().len() > 0 {
                    (r matches Some(v) && cloned(old(self).upcoming()[0], v))
                        && final(self).upcoming() == old(self).upcoming().skip(1)
                } else {
                    r is None && final(self).upcoming().len() == 0
                }
            },
    {
        match self.0.next() {
            Some(i) => Some(i.clone()),
            None => None,
        }
    }

    /// Returns the bounds on the remaining length of the iterator, as the
    /// inner cursor reports them.
    pub fn size_hint(&self) -> (h: (usize, Option<usize>))
        ensures
            self.well_behaved() ==> h.0 <= self.upcoming().len() && (h.1 matches Some(u)
                ==> self.upcoming().len() <= u),
    {
        self.0.size_hint()
    }
}

/// A normal, value-producing iterator which converts the elements of a
/// streaming iterator into owned duplicates.
///
/// Every element here is an ordinary sized value, so duplication is cloning;
/// the type exists beside [`Cloned`] to mark the places where a caller asks
/// for an owned conversion rather than a plain copy.
#[derive(Clone)]
pub struct Owned<I>(pub(crate) I);

/// The iterator that owned duplication builds: `it.owned()` returns exactly
/// this value.  [`lemma_owned_model`] says what its model is.
pub closed spec fn owned_model<I>(it: I) -> Owned<I> {
    Owned(it)
}

/// The model of a freshly built duplicating iterator: it will produce owned
/// duplicates of the upcoming elements of the cursor underneath, and it is
/// well behaved exactly when that cursor is.
pub proof fn lemma_owned_model<I>(it: I) where I: StreamingIterator, I::Item: Clone
    ensures
        owned_model(it).upcoming() == it.upcoming(),
        (owned_model(it).well_behaved() <==> it.well_behaved()),
        (owned_model(it).wf() <==> it.wf()),
{
}

impl<I> Owned<I> {
    /// Packages a cursor as a value-producing iterator over owned duplicates
    /// of its elements; `it.owned()` makes the same iterator.
    pub fn new(it: I) -> (r: Self)
        ensures
            r == owned_model(it),
    {
        Owned(it)
    }
}

impl<I> Owned<I> where I: StreamingIterator, I::Item: Clone {
    /// The elements the inner cursor has yet to yield.
    pub closed spec fn upcoming(&self) -> Seq<I::Item> {
        self.0.upcoming()
    }

    /// The inner cursor can be operated.
    pub closed spec fn wf(&self) -> bool {
        self.0.wf()
    }

    /// The inner cursor's model is faithful.
    pub closed spec fn well_behaved(&self) -> bool {
        self.0.well_behaved()
    }

    /// Advances the inner cursor and hands back an owned duplicate of the
    /// element it lands on, or nothing once the cursor is exhausted.
    pub fn next(&mut self) -> (r: Option<I::Item>)
        requires
            old(self).wf(),
        ensures
            final(self).wf(),
            old(self).well_behaved() ==> {
                &&& final(self).well_behaved()
                &&& if old(self).upcoming().len() > 0 {
                    (r matches Some(v) && cloned(old(self).upcoming()[0], v))
                        && final(self).upcoming() == old(self).upcoming().skip(1)
                } else {
                    r is None && final(self).upcoming().len() == 0
                }
            },
    {
        match self.0.next() {
            Some(i) => Some(i.clone()),
            None => None,
        }
    }

    /// Returns the bounds on the remaining length of the iterator, as the
    /// inner cursor reports them.
    pub fn size_hint(&self) -> (h: (usize, Option<usize>))
        ensures
            self.well_behaved() ==> h.0 <= self.upcoming().len() && (h.1 matches Some(u)
                ==> self.upcoming().len() <= u),
    {
        self.0.size_hint()
    }
}

} // verus!
