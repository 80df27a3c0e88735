//! The queue keeps push order and drains exactly once; the session's
//! finalization is idempotent.

use gbench::BenchData;
use gbench::ChromeTracing;
use gbench::CsvWriter;
use gbench::EventQueue;
use gbench::Session;
use gbench::Writer;
use gbench::_log;
use gbench::begin;
use gbench::bench;
use gbench::end;
use gbench::end_with;
use gbench::submit;

fn log_event(text: &str, ts: u64, tid: usize) -> BenchData {
    BenchData::Log { log: String::from(text), ts, tid }
}

#[test]
fn queue_drain_push_drain_yields_pushed_events() {
    let mut q = EventQueue::new();
    q.push(log_event("warmup", 0, 0));
    let first = q.drain();
    assert_eq!(first.len(), 1);
    // After a drain the queue is empty; the next pushes are all a second
    // drain returns, in push order, with no loss.
    let a = log_event("a", 1, 0);
    let b = log_event("b", 2, 1);
    let c = log_event("c", 3, 0);
    q.push(a.clone());
    q.push(b.clone());
    q.push(c.clone());
    let second = q.drain();
    assert_eq!(second, vec![a, b, c]);
    assert_eq!(q.drain().len(), 0);
}

#[test]
fn session_collects_in_submission_order() {
    let mut s: Session = begin();
    _log(&mut s, String::from("first"), 5, 0);
    bench(&mut s, String::from("work"), 5, 10, 1);
    submit(&mut s, log_event("last", 20, 0));
    let drained = end(&mut s).unwrap();
    assert_eq!(drained.len(), 3);
    assert_eq!(drained[0], log_event("first", 5, 0));
    assert_eq!(
        drained[1],
        BenchData::Bench { name: String::from("work"), ts: 5, dur: 10, tid: 1 }
    );
    assert_eq!(drained[2], log_event("last", 20, 0));
}

#[test]
fn end_twice_hands_out_events_once() {
    let mut s: Session = begin();
    _log(&mut s, String::from("only"), 0, 0);
    let first = end(&mut s);
    assert!(first.is_some());
    assert_eq!(first.unwrap().len(), 1);
    let second = end(&mut s);
    assert!(second.is_none());
}

#[test]
fn end_with_renders_each_writer_once_and_only_once() {
    let mut s: Session = begin();
    _log(&mut s, String::from("x"), 0, 0);
    let writers: Vec<Box<dyn Writer>> =
        vec![Box::new(ChromeTracing("target/bench")), Box::new(CsvWriter("target/bench"))];
    let outs = end_with(&mut s, &writers).unwrap();
    assert_eq!(outs.len(), 2);
    assert_eq!(
        outs[0],
        "{\"otherData\":{},\"traceEvents\":[{\"cat\":\"log\",\"name\":\"x\",\"ph\":\"I\",\"pid\":0,\"tid\":0,\"ts\":0}]}"
    );
    assert_eq!(outs[1], "ts\n");
    // The handle is finalized: a second call runs no writer at all.
    assert!(end_with(&mut s, &writers).is_none());
}

#[test]
fn writer_file_names_carry_the_suffix() {
    let chrome = ChromeTracing("target/bench");
    let csv = CsvWriter("out");
    assert_eq!(chrome.file_name(1234), "target/bench/bench-1234.json");
    assert_eq!(csv.file_name(0), "out/graph-0.csv");
}
