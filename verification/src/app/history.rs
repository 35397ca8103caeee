//! The undo stack: before every change, what it takes to go back to the
//! state before it.

use vstd::prelude::*;

verus! {

/// Snapshots of what `:w` would do, before each change and after each undo.
pub struct History<T> {
    undo: Vec<T>,
    redo: Vec<T>,
}

impl<T> View for History<T> {
    type V = (Seq<T>, Seq<T>);

    /// The states an undo goes back through, latest last, and the ones a
    /// redo goes forward through, latest last.
    closed spec fn view(&self) -> (Seq<T>, Seq<T>) {
        (self.undo@, self.redo@)
    }
}

/// What a checkpoint of `now` leaves: it can be undone to, and nothing can
/// be redone any more.
pub open spec fn spec_checkpoint<T>(h: (Seq<T>, Seq<T>), now: T) -> (Seq<T>, Seq<T>) {
    (h.0.push(now), Seq::empty())
}

/// What an undo from `now` leaves and hands back: the latest checkpoint, with
/// `now` kept for a redo; or nothing, when there is nothing to undo.
pub open spec fn spec_undo<T>(h: (Seq<T>, Seq<T>), now: T) -> ((Seq<T>, Seq<T>), Option<T>) {
    if h.0.len() == 0 {
        (h, None)
    } else {
        ((h.0.drop_last(), h.1.push(now)), Some(h.0.last()))
    }
}

/// What a redo from `now` leaves and hands back: the latest undone state,
/// with `now` kept for an undo; or nothing, when nothing was undone.
pub open spec fn spec_redo<T>(h: (Seq<T>, Seq<T>), now: T) -> ((Seq<T>, Seq<T>), Option<T>) {
    if h.1.len() == 0 {
        (h, None)
    } else {
        ((h.0.push(now), h.1.drop_last()), Some(h.1.last()))
    }
}

impl<T> History<T> {
    pub fn new() -> (h: History<T>)
        ensures
            h@.0.len() == 0,
            h@.1.len() == 0,
    {
        History { undo: Vec::new(), redo: Vec::new() }
    }

    /// Called before anything that changes what `:w` would do, with the
    /// state as it is before the change.
    pub fn checkpoint(&mut self, now: T)
        ensures
            final(self)@ == spec_checkpoint(old(self)@, now),
    {
        self.undo.push(now);
        self.redo = Vec::new();
        assert(self.redo@ =~= Seq::<T>::empty());
    }

    /// Back one change from `now`: the state to go back to, if there is one.
    pub fn undo(&mut self, now: T) -> (r: Option<T>)
        ensures
            (final(self)@, r) == spec_undo(old(self)@, now),
    {
        match self.undo.pop() {
            Some(previous) => {
                self.redo.push(now);
                Some(previous)
            },
            None => None,
        }
    }

    /// Forward one undone change from `now`: the state to go to, if there
    /// is one.
    pub fn redo(&mut self, now: T) -> (r: Option<T>)
        ensures
            (final(self)@, r) == spec_redo(old(self)@, now),
    {
        match self.redo.pop() {
            Some(next) => {
                self.undo.push(now);
                Some(next)
            },
            None => None,
        }
    }

    /// Whether anything can be undone.
    pub fn can_undo(&self) -> (b: bool)
        ensures
            b == (self@.0.len() > 0),
    {
        self.undo.len() > 0
    }
}

/// An undo right after a checkpoint gives back the state the checkpoint
/// was taken in, whatever came after it.
pub proof fn law_undo_takes_back_the_last_change<T>(h: (Seq<T>, Seq<T>), before: T, after: T)
    ensures
        spec_undo(spec_checkpoint(h, before), after).1 == Some(before),
        spec_undo(spec_checkpoint(h, before), after).0.0 == h.0,
{
    assert(h.0.push(before).drop_last() =~= h.0);
}

/// A redo right after an undo comes back to the state the undo left, and
/// leaves the history as it was before both.
pub proof fn law_redo_undoes_an_undo<T>(h: (Seq<T>, Seq<T>), now: T)
    requires
        h.0.len() > 0,
    ensures
        ({
            let (h1, back) = spec_undo(h, now);
            let (h2, forth) = spec_redo(h1, back->0);
            forth == Some(now) && h2 == h
        }),
{
    let (h1, back) = spec_undo(h, now);
    assert(h1.1.drop_last() =~= h.1);
    assert(h1.0.push(back->0) =~= h.0);
}

/// After a checkpoint there is nothing to redo: a new change forgets the
/// changes that were undone before it.
pub proof fn law_a_change_forgets_the_redo<T>(h: (Seq<T>, Seq<T>), now: T, later: T)
    ensures
        spec_redo(spec_checkpoint(h, now), later).1 is None,
{
}

} // verus!
