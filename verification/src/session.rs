//! The session lifecycle: an explicit handle created by `begin`, fed by
//! producers while active, and finalized exactly once by `end`, which drains
//! the queue and hands the full ordered event list out for rendering.

use vstd::prelude::*;

use crate::data::BenchData;
use crate::data::BenchDataV;
use crate::data::views_of;
use crate::data::wf_event;
use crate::fixed::Fixed;
use crate::id::IdBorrow;
use crate::id::IdStorage;
use crate::id::mark;
use crate::id::min_free;
use crate::queue::EventQueue;
use crate::writer::Writer;

verus! {

/// The session state model: the queued event models, the allocator's slot
/// table, and whether the session has been finalized.
pub struct SessionV {
    pub events: Seq<BenchDataV>,
    pub slots: Seq<bool>,
    pub finalized: bool,
}

/// A process-wide instrumentation session, owned by whoever called `begin`.
pub struct Session {
    queue: EventQueue,
    ids: IdStorage,
    finalized: bool,
}

impl View for Session {
    type V = SessionV;

    closed spec fn view(&self) -> SessionV {
        SessionV { events: self.queue@, slots: self.ids@, finalized: self.finalized }
    }
}

impl Session {
    /// Every queued counter snapshot is well formed.
    pub open spec fn wf(self) -> bool {
        forall|i: int| 0 <= i < self@.events.len() ==> wf_event(#[trigger] self@.events[i])
    }
}

/// Starts a session: an empty queue, an empty identifier table, not yet
/// finalized.
pub fn begin() -> (s: Session)
    ensures
        s@.events == Seq::<BenchDataV>::empty(),
        s@.slots == Seq::<bool>::empty(),
        !s@.finalized,
        s.wf(),
{
    Session { queue: EventQueue::new(), ids: IdStorage::new(), finalized: false }
}

/// Appends one event to an active session's queue.
pub fn submit(s: &mut Session, e: BenchData)
    requires
        !old(s)@.finalized,
        wf_event(e@),
    ensures
        final(s)@.events == old(s)@.events.push(e@),
        final(s)@.slots == old(s)@.slots,
        !final(s)@.finalized,
        old(s).wf() ==> final(s).wf(),
{
    s.queue.push(e);
}

/// Queues a point-in-time log annotation.
pub fn _log(s: &mut Session, log: String, ts: u64, tid: usize)
    requires
        !old(s)@.finalized,
    ensures
        final(s)@.events == old(s)@.events.push(
            BenchDataV::Log { log: log@, ts: ts, tid: tid },
        ),
        final(s)@.slots == old(s)@.slots,
        !final(s)@.finalized,
        old(s).wf() ==> final(s).wf(),
{
    submit(s, BenchData::Log { log, ts, tid });
}

/// Queues a completed timed interval.
pub fn bench(s: &mut Session, name: String, ts: u64, dur: u64, tid: usize)
    requires
        !old(s)@.finalized,
    ensures
        final(s)@.events == old(s)@.events.push(
            BenchDataV::Bench { name: name@, ts: ts, dur: dur, tid: tid },
        ),
        final(s)@.slots == old(s)@.slots,
        !final(s)@.finalized,
        old(s).wf() ==> final(s).wf(),
{
    submit(s, BenchData::Bench { name, ts, dur, tid });
}

/// Queues a counter snapshot; its field names must be distinct.
pub fn _count(s: &mut Session, name: String, data: Vec<(String, Fixed)>, ts: u64, tid: usize)
    requires
        !old(s)@.finalized,
        forall|i: int, j: int| 0 <= i < j < data@.len() ==> data@[i].0@ != data@[j].0@,
    ensures
        final(s)@.events == old(s)@.events.push(
            BenchDataV::Count {
                name: name@,
                ts: ts,
                tid: tid,
                data: data@.map_values(|p: (String, Fixed)| (p.0@, p.1)),
            },
        ),
        final(s)@.slots == old(s)@.slots,
        !final(s)@.finalized,
        old(s).wf() ==> final(s).wf(),
{
    let e = BenchData::Count { name, ts, tid, data };
    proof {
        assert(wf_event(e@));
    }
    submit(s, e);
}

/// Issues an identifier lease for a new execution context from the
/// session's allocator.
pub fn gen_id(s: &mut Session) -> (b: IdBorrow)
    ensures
        b@ == min_free(old(s)@.slots),
        final(s)@.slots == mark(old(s)@.slots, min_free(old(s)@.slots)),
        final(s)@.events == old(s)@.events,
        final(s)@.finalized == old(s)@.finalized,
        old(s).wf() ==> final(s).wf(),
{
    s.ids.gen()
}

/// The identifier a lease holds; the same value every time it is asked.
pub fn get_id(b: &IdBorrow) -> (r: usize)
    ensures
        r == b@,
{
    b.id()
}

/// Returns an identifier lease, freeing its slot for reuse.
pub fn release_id(s: &mut Session, b: IdBorrow)
    requires
        b@ < old(s)@.slots.len(),
    ensures
        final(s)@.slots == old(s)@.slots.update(b@ as int, false),
        final(s)@.events == old(s)@.events,
        final(s)@.finalized == old(s)@.finalized,
        old(s).wf() ==> final(s).wf(),
{
    s.ids.release(b);
}

/// What finalization does to a session state: the first call drains the
/// queue and surrenders the full event list; any later call changes nothing
/// and surrenders nothing.
pub open spec fn end_spec(st: SessionV) -> (SessionV, Option<Seq<BenchDataV>>) {
    if st.finalized {
        (st, None)
    } else {
        (SessionV { events: Seq::<BenchDataV>::empty(), slots: st.slots, finalized: true }, Some(
            st.events,
        ))
    }
}

/// Finalizes the session. The first call drains the queue and returns the
/// full ordered event list for the writers; a repeated call is a no-op that
/// returns nothing, so rendering and file writing happen exactly once.
pub fn end(s: &mut Session) -> (r: Option<Vec<BenchData>>)
    ensures
        final(s)@ == end_spec(old(s)@).0,
        r is Some == end_spec(old(s)@).1 is Some,
        r is Some ==> views_of(r.unwrap()@) == end_spec(old(s)@).1.unwrap(),
        final(s)@.finalized,
        old(s).wf() ==> final(s).wf(),
{
    if s.finalized {
        None
    } else {
        s.finalized = true;
        let drained = s.queue.drain();
        Some(drained)
    }
}

/// Finalizes the session and runs every registered writer once, in
/// registration order, each over the identical full drained event list.
/// On a session already finalized, no writer runs and nothing is returned,
/// so each artifact is rendered (and written out) exactly once.
pub fn end_with(s: &mut Session, writers: &Vec<Box<dyn Writer>>) -> (r: Option<Vec<String>>)
    ensures
        final(s)@ == end_spec(old(s)@).0,
        (r is Some) == !old(s)@.finalized,
        r is Some ==> r.unwrap()@.len() == writers@.len(),
        r is Some ==> forall|i: int|
            0 <= i < writers@.len() ==> r.unwrap()@[i]@ == writers@[i].spec_render(
                old(s)@.events,
            ),
{
    match end(s) {
        Option::None => Option::None,
        Option::Some(data) => {
            let mut outs: Vec<String> = Vec::new();
            let n = writers.len();
            let mut i: usize = 0;
            while i < n
                invariant
                    i <= n,
                    n == writers@.len(),
                    views_of(data@) == old(s)@.events,
                    outs@.len() == i,
                    forall|j: int|
                        0 <= j < i ==> outs@[j]@ == writers@[j].spec_render(old(s)@.events),
                decreases n - i,
            {
                let rendered = writers[i].end(&data);
                outs.push(rendered);
                i = i + 1;
            }
            Option::Some(outs)
        },
    }
}

/// Finalization is terminal and happens at most once: after any `end`, a
/// further `end` surrenders no events and leaves the state as it was.
pub proof fn lemma_end_at_most_once(st: SessionV)
    ensures
        end_spec(end_spec(st).0).1 is None,
        end_spec(end_spec(st).0).0 == end_spec(st).0,
{
}

} // verus!
