//! The fuse adaptor: making any cursor well defined before and after
//! iteration.

use vstd::prelude::*;

use crate::cursor::StreamingIterator;

verus! {

/// The phase of a fused cursor: before the first advance, on the elements,
/// or permanently finished.
#[derive(Clone, Copy)]
pub(crate) enum FuseState {
    Start,
    Middle,
    End,
}

/// A streaming iterator which is well-defined before and after iteration.
///
/// Peeking before the first advance, and advancing any number of times after
/// the first report of exhaustion, are unspecified for a raw cursor.  A fused
/// cursor reports nothing in both situations: once it has reported
/// exhaustion, it is *ended*, and an ended cursor never moves nor yields
/// again — whatever the cursor underneath would do.
#[derive(Clone)]
pub struct Fuse<I> {
    pub(crate) it: I,
    pub(crate) state: FuseState,
}

/// The cursor that fusing builds: `it.fuse()` returns exactly this value.
/// [`lemma_fuse_model`] says what its model is.
pub closed spec fn fuse_model<I>(it: I) -> Fuse<I> {
    Fuse { it, state: FuseState::Start }
}

impl<I> Fuse<I> {
    /// The cursor has reported exhaustion and is trapped: every later
    /// `advance` leaves it unchanged and every later `get` reports nothing.
    pub closed spec fn ended(&self) -> bool {
        self.state is End
    }

    /// Fuses a cursor; `it.fuse()` makes the same cursor.
    pub fn new(it: I) -> (r: Self)
        ensures
            r == fuse_model(it),
    {
        Fuse { it, state: FuseState::Start }
    }
}

/// The model of a freshly fused cursor: it starts unended and resting on no
/// element, with the same upcoming elements as the cursor underneath, and it
/// is well behaved exactly when that cursor is.
pub proof fn lemma_fuse_model<I>(it: I) where I: StreamingIterator
    ensures
        fuse_model(it).current() is None,
        !fuse_model(it).ended(),
        fuse_model(it).upcoming() == it.upcoming(),
        (fuse_model(it).well_behaved() <==> it.well_behaved()),
        (fuse_model(it).wf() <==> it.wf()),
{
}

impl<I> StreamingIterator for Fuse<I> where I: StreamingIterator {
    type Item = I::Item;

    closed spec fn upcoming(&self) -> Seq<I::Item> {
        match self.state {
            FuseState::End => Seq::empty(),
            _ => self.it.upcoming(),
        }
    }

    closed spec fn current(&self) -> Option<I::Item> {
        match self.state {
            FuseState::Middle => self.it.current(),
            _ => None,
        }
    }

    closed spec fn wf(&self) -> bool {
        self.it.wf()
    }

    closed spec fn well_behaved(&self) -> bool {
        self.it.well_behaved() && (self.state is End ==> self.it.upcoming().len() == 0)
    }

    proof fn well_behaved_implies_wf(&self) {
        self.it.well_behaved_implies_wf();
    }

    fn advance(&mut self)
        ensures
            old(self).ended() ==> *final(self) == *old(self),
            (final(self).ended() <==> final(self).current() is None),
    {
        match self.state {
            FuseState::Start => {
                self.it.advance();
                self.state = match self.it.get() {
                    Some(_) => FuseState::Middle,
                    None => FuseState::End,
                };
            }
            FuseState::Middle => {
                self.it.advance();
                if self.it.get().is_none() {
                    self.state = FuseState::End;
                }
            }
            FuseState::End => {
            }
        }
    }

    fn get(&self) -> (r: Option<&I::Item>)
        ensures
            self.ended() ==> r is None,
    {
        match self.state {
            FuseState::Start | FuseState::End => None,
            FuseState::Middle => self.it.get(),
        }
    }

    fn size_hint(&self) -> (h: (usize, Option<usize>)) {
        self.it.size_hint()
    }

    fn count(self) -> (n: usize) {
        match self.state {
            FuseState::Start | FuseState::Middle => self.it.count(),
            FuseState::End => 0,
        }
    }
}

/// A cursor that yields three elements, reports a gap, and then resumes,
/// repeating every four steps.
///
/// It is *not* well behaved: after reporting exhaustion it starts yielding
/// again, so nothing is promised about its traversal as a whole.  Wrapping it
/// in [`Fuse`] yields a cursor that stops for good at the first gap.
pub struct Flicker(pub u32);

impl StreamingIterator for Flicker {
    type Item = u32;

    open spec fn upcoming(&self) -> Seq<u32> {
        Seq::empty()
    }

    open spec fn current(&self) -> Option<u32> {
        if self.0 % 4 == 3 {
            None
        } else {
            Some(self.0)
        }
    }

    open spec fn wf(&self) -> bool {
        true
    }

    open spec fn well_behaved(&self) -> bool {
        false
    }

    proof fn well_behaved_implies_wf(&self) {
    }

    fn advance(&mut self) {
        self.0 = self.0.wrapping_add(1);
    }

    fn get(&self) -> (r: Option<&u32>) {
        if self.0 % 4 == 3 {
            None
        } else {
            Some(&self.0)
        }
    }
}

} // verus!
