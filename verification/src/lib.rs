//! An in-process instrumentation engine: producers submit timing, logging and
//! counter events into a session-owned queue; at finalization the accumulated
//! events are rendered into a Chrome trace JSON document and a pivoted CSV
//! table of counters.

mod csv;
mod data;
mod fixed;
mod id;
mod json;
mod queue;
mod session;
mod text;
mod writer;

pub use csv::col_key;
pub use csv::columns_of;
pub use csv::csv_chars;
pub use csv::csv_render;
pub use csv::lemma_columns_of_props;
pub use csv::lemma_pivot_shape;
pub use csv::lemma_row_count;
pub use csv::row_list;
pub use csv::rows_chars;
pub use csv::strictly_sorted;
pub use csv::triples;
pub use data::BenchData;
pub use data::BenchDataV;
pub use data::views_of;
pub use data::wf_event;
pub use fixed::Fixed;
pub use fixed::fixed_chars;
pub use fixed::frac_chars;
pub use fixed::push_fixed;
pub use id::IdBorrow;
pub use id::IdStorage;
pub use id::lemma_id_below_live_count;
pub use id::lemma_issue_fresh_minimal;
pub use id::lemma_release_reuses;
pub use id::lemma_two_leases_distinct;
pub use id::live;
pub use id::live_count;
pub use id::mark;
pub use id::min_free;
pub use json::JsonVal;
pub use json::document_val;
pub use json::hex_digit;
pub use json::is_json_escape_head;
pub use json::is_json_hex;
pub use json::jser;
pub use json::json_escape_char;
pub use json::json_escaped;
pub use json::json_literal_body_ok;
pub use json::lemma_escaped_identity;
pub use json::lemma_escaped_ok;
pub use json::json_safe;
pub use json::json_string;
pub use json::lemma_trace_document_empty;
pub use json::record_val;
pub use json::trace_document;
pub use json::trace_record;
pub use json::trace_render;
pub use queue::EventQueue;
pub use queue::after_pushes;
pub use queue::lemma_after_pushes;
pub use queue::lemma_drain_push_drain;
pub use session::Session;
pub use session::SessionV;
pub use session::_count;
pub use session::_log;
pub use session::begin;
pub use session::bench;
pub use session::end;
pub use session::end_spec;
pub use session::end_with;
pub use session::gen_id;
pub use session::get_id;
pub use session::lemma_end_at_most_once;
pub use session::release_id;
pub use session::submit;
pub use text::dec_chars;
pub use text::lex_lt;
pub use text::push_dec_u64;
pub use text::str_lt;
pub use writer::ChromeTracing;
pub use writer::CsvWriter;
pub use writer::Writer;
