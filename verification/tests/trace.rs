//! The trace encoder emits the Chrome trace-event schema exactly.

use gbench::BenchData;
use gbench::Fixed;
use gbench::trace_render;

#[test]
fn empty_list_renders_empty_document() {
    let data: Vec<BenchData> = Vec::new();
    assert_eq!(trace_render(&data), "{\"otherData\":{},\"traceEvents\":[]}");
}

#[test]
fn log_then_span_renders_two_records() {
    let data = vec![
        BenchData::Log { log: String::from("start"), ts: 0, tid: 0 },
        BenchData::Bench { name: String::from("work"), ts: 0, dur: 500, tid: 0 },
    ];
    let expected = "{\"otherData\":{},\"traceEvents\":[{\"cat\":\"log\",\"name\":\"start\",\"ph\":\"I\",\"pid\":0,\"tid\":0,\"ts\":0},{\"cat\":\"function\",\"dur\":500,\"name\":\"work\",\"ph\":\"X\",\"pid\":0,\"tid\":0,\"ts\":0}]}";
    assert_eq!(trace_render(&data), expected);
}

#[test]
fn counter_record_holds_its_args_in_field_order() {
    let data = vec![BenchData::Count {
        name: String::from("mem"),
        ts: 7,
        tid: 3,
        data: vec![
            (String::from("used"), Fixed::from_int(2)),
            (String::from("free"), Fixed::new(false, 1500)),
        ],
    }];
    let expected = "{\"otherData\":{},\"traceEvents\":[{\"cat\":\"count\",\"name\":\"mem\",\"ph\":\"C\",\"pid\":0,\"tid\":3,\"ts\":7,\"args\":{\"used\":2,\"free\":1.5}}]}";
    assert_eq!(trace_render(&data), expected);
}

#[test]
fn counter_with_no_fields_renders_empty_args() {
    let data = vec![BenchData::Count {
        name: String::from("quiet"),
        ts: 1,
        tid: 0,
        data: Vec::new(),
    }];
    let expected = "{\"otherData\":{},\"traceEvents\":[{\"cat\":\"count\",\"name\":\"quiet\",\"ph\":\"C\",\"pid\":0,\"tid\":0,\"ts\":1,\"args\":{}}]}";
    assert_eq!(trace_render(&data), expected);
}

#[test]
fn records_keep_queue_order_not_timestamp_order() {
    let data = vec![
        BenchData::Log { log: String::from("late"), ts: 90, tid: 1 },
        BenchData::Log { log: String::from("early"), ts: 10, tid: 2 },
    ];
    let expected = "{\"otherData\":{},\"traceEvents\":[{\"cat\":\"log\",\"name\":\"late\",\"ph\":\"I\",\"pid\":0,\"tid\":1,\"ts\":90},{\"cat\":\"log\",\"name\":\"early\",\"ph\":\"I\",\"pid\":0,\"tid\":2,\"ts\":10}]}";
    assert_eq!(trace_render(&data), expected);
}
