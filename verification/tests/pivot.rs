//! The pivot encoder builds the sorted column set, one row per reading,
//! with carry-forward of earlier values and blank never-written cells.

use gbench::BenchData;
use gbench::Fixed;
use gbench::csv_render;

fn counter(group: &str, fields: Vec<(&str, Fixed)>, ts: u64) -> BenchData {
    BenchData::Count {
        name: String::from(group),
        ts,
        tid: 0,
        data: fields.into_iter().map(|(n, v)| (String::from(n), v)).collect(),
    }
}

#[test]
fn no_counters_yield_header_only() {
    let data = vec![BenchData::Log { log: String::from("hi"), ts: 0, tid: 0 }];
    assert_eq!(csv_render(&data), "ts\n");
}

#[test]
fn carry_forward_fills_earlier_columns() {
    let data = vec![
        counter("A", vec![("x", Fixed::from_int(1))], 0),
        counter("A", vec![("y", Fixed::from_int(2))], 1),
    ];
    assert_eq!(csv_render(&data), "ts;A : x;A : y\n0;1;\n1;1;2\n");
}

#[test]
fn columns_sort_lexicographically_regardless_of_arrival() {
    let data = vec![
        counter("b", vec![("n", Fixed::from_int(3))], 0),
        counter("a", vec![("m", Fixed::from_int(4))], 2),
    ];
    assert_eq!(csv_render(&data), "ts;a : m;b : n\n0;;3\n2;4;3\n");
}

#[test]
fn one_event_with_two_fields_emits_two_rows() {
    let data = vec![counter(
        "g",
        vec![("u", Fixed::from_int(1)), ("v", Fixed::from_int(2))],
        5,
    )];
    assert_eq!(csv_render(&data), "ts;g : u;g : v\n5;1;\n5;1;2\n");
}

#[test]
fn repeated_key_overwrites_its_column() {
    let data = vec![
        counter("g", vec![("u", Fixed::from_int(1))], 0),
        counter("g", vec![("u", Fixed::from_int(9))], 3),
    ];
    assert_eq!(csv_render(&data), "ts;g : u\n0;1\n3;9\n");
}

#[test]
fn values_use_comma_as_decimal_separator() {
    let data = vec![
        counter("g", vec![("u", Fixed::new(false, 1500))], 0),
        counter("g", vec![("v", Fixed::new(true, 50))], 1),
        counter("g", vec![("w", Fixed::new(false, 1050))], 2),
    ];
    assert_eq!(
        csv_render(&data),
        "ts;g : u;g : v;g : w\n0;1,5;;\n1;1,5;-0,05;\n2;1,5;-0,05;1,05\n"
    );
}

#[test]
fn counter_with_no_fields_contributes_nothing() {
    let data = vec![
        counter("g", vec![], 0),
        counter("g", vec![("u", Fixed::from_int(7))], 1),
    ];
    assert_eq!(csv_render(&data), "ts;g : u\n1;7\n");
}
