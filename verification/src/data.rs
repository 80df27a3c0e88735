//! The event data model: a tagged union recorded once and immutable
//! thereafter, carrying a session-relative timestamp in microseconds and the
//! identifier of the execution context that produced it.

use vstd::prelude::*;

use crate::fixed::Fixed;

verus! {

/// One recorded event.
#[derive(Clone, Debug, PartialEq)]
pub enum BenchData {
    /// A point-in-time annotation.
    Log { log: String, ts: u64, tid: usize },
    /// A completed timed interval: `ts` is the start, `dur` the elapsed
    /// time, both in microseconds.
    Bench { name: String, ts: u64, dur: u64, tid: usize },
    /// A simultaneous snapshot of named numeric fields under one counter
    /// group.
    Count { name: String, ts: u64, tid: usize, data: Vec<(String, Fixed)> },
}

/// The mathematical model of one event.
pub enum BenchDataV {
    Log { log: Seq<char>, ts: u64, tid: usize },
    Bench { name: Seq<char>, ts: u64, dur: u64, tid: usize },
    Count { name: Seq<char>, ts: u64, tid: usize, data: Seq<(Seq<char>, Fixed)> },
}

impl View for BenchData {
    type V = BenchDataV;

    open spec fn view(&self) -> BenchDataV {
        match self {
            BenchData::Log { log, ts, tid } => BenchDataV::Log { log: log@, ts: *ts, tid: *tid },
            BenchData::Bench { name, ts, dur, tid } => BenchDataV::Bench {
                name: name@,
                ts: *ts,
                dur: *dur,
                tid: *tid,
            },
            BenchData::Count { name, ts, tid, data } => BenchDataV::Count {
                name: name@,
                ts: *ts,
                tid: *tid,
                data: data@.map_values(|p: (String, Fixed)| (p.0@, p.1)),
            },
        }
    }
}

/// The models of a sequence of events.
pub open spec fn views_of(s: Seq<BenchData>) -> Seq<BenchDataV> {
    s.map_values(|d: BenchData| d@)
}

/// A counter snapshot is well formed when no field name repeats within it;
/// the other variants carry no such obligation.
pub open spec fn wf_event(e: BenchDataV) -> bool {
    match e {
        BenchDataV::Count { data, .. } => forall|i: int, j: int|
            0 <= i < j < data.len() ==> data[i].0 != data[j].0,
        _ => true,
    }
}

} // verus!
