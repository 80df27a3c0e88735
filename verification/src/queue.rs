//! The event queue: an insertion-ordered buffer, append-only while the
//! session runs and drained exactly once at finalization.

use vstd::prelude::*;

use crate::data::BenchData;
use crate::data::BenchDataV;
use crate::data::views_of;

verus! {

/// An insertion-ordered buffer of events.
pub struct EventQueue {
    items: Vec<BenchData>,
}

impl View for EventQueue {
    type V = Seq<BenchDataV>;

    closed spec fn view(&self) -> Seq<BenchDataV> {
        views_of(self.items@)
    }
}

impl EventQueue {
    /// An empty queue.
    pub fn new() -> (r: EventQueue)
        ensures
            r@ == Seq::<BenchDataV>::empty(),
    {
        let r = EventQueue { items: Vec::new() };
        proof {
            assert(r@ =~= Seq::<BenchDataV>::empty());
        }
        r
    }

    /// Appends one event at the end, keeping every earlier event in place.
    pub fn push(&mut self, e: BenchData)
        ensures
            final(self)@ == old(self)@.push(e@),
    {
        self.items.push(e);
        proof {
            assert(final(self)@ =~= old(self)@.push(e@));
        }
    }

    /// Atomically swaps the full contents out, leaving the queue empty, and
    /// returns every queued event in insertion order.
    pub fn drain(&mut self) -> (r: Vec<BenchData>)
        ensures
            views_of(r@) == old(self)@,
            final(self)@ == Seq::<BenchDataV>::empty(),
    {
        let mut taken: Vec<BenchData> = Vec::new();
        core::mem::swap(&mut taken, &mut self.items);
        proof {
            assert(final(self)@ =~= Seq::<BenchDataV>::empty());
        }
        taken
    }
}

/// The queue contents after pushing the events of `evs` one by one onto a
/// queue holding `q`.
pub open spec fn after_pushes(q: Seq<BenchDataV>, evs: Seq<BenchDataV>) -> Seq<BenchDataV>
    decreases evs.len(),
{
    if evs.len() == 0 {
        q
    } else {
        after_pushes(q.push(evs[0]), evs.drop_first())
    }
}

/// Pushing a batch of events appends it, in order, after what was queued.
pub proof fn lemma_after_pushes(q: Seq<BenchDataV>, evs: Seq<BenchDataV>)
    ensures
        after_pushes(q, evs) == q + evs,
    decreases evs.len(),
{
    if evs.len() == 0 {
        assert(after_pushes(q, evs) =~= q + evs);
    } else {
        lemma_after_pushes(q.push(evs[0]), evs.drop_first());
        assert(q.push(evs[0]) + evs.drop_first() =~= q + evs);
    }
}

/// A drain leaves the queue empty, so pushing `evs` and draining again
/// yields exactly `evs`, in push order, with no loss.
pub proof fn lemma_drain_push_drain(evs: Seq<BenchDataV>)
    ensures
        after_pushes(Seq::<BenchDataV>::empty(), evs) == evs,
{
    lemma_after_pushes(Seq::<BenchDataV>::empty(), evs);
    assert(Seq::<BenchDataV>::empty() + evs =~= evs);
}

} // verus!
