//! The writer abstraction: the capability to consume the final event list
//! and render one artifact, implemented by the trace encoder and the pivot
//! encoder. A writer is stateless with respect to the session; every
//! registered writer receives the identical event list.

use vstd::prelude::*;

use crate::csv::csv_chars;
use crate::csv::csv_render;
use crate::data::BenchData;
use crate::data::BenchDataV;
use crate::data::views_of;
use crate::json::trace_document;
use crate::json::trace_render;
use crate::text::dec_chars;
use crate::text::push_dec_u64;

verus! {

/// Consumes a borrowed view of the final event list and produces an
/// artifact's text; the artifact's file name carries a collision-resistant
/// suffix supplied by the caller.
pub trait Writer {
    /// The exact text this writer renders for a drained event list.
    spec fn spec_render(&self, evs: Seq<BenchDataV>) -> Seq<char>;

    /// The output file name, given wall-clock milliseconds since the epoch
    /// as the collision-resistant suffix.
    spec fn spec_file_name(&self, millis: u64) -> Seq<char>;

    /// Renders the artifact text for the drained event list.
    fn end(&self, data: &Vec<BenchData>) -> (r: String)
        ensures
            r@ == self.spec_render(views_of(data@)),
    ;

    /// Builds the output file name from the given suffix.
    fn file_name(&self, millis: u64) -> (r: String)
        ensures
            r@ == self.spec_file_name(millis),
    ;
}

/// The trace encoder: renders the Chrome trace JSON document. The field is
/// the output folder.
pub struct ChromeTracing(pub &'static str);

impl Writer for ChromeTracing {
    open spec fn spec_render(&self, evs: Seq<BenchDataV>) -> Seq<char> {
        trace_document(evs)
    }

    open spec fn spec_file_name(&self, millis: u64) -> Seq<char> {
        self.0@ + "/bench-"@ + dec_chars(millis as nat) + ".json"@
    }

    fn end(&self, data: &Vec<BenchData>) -> (r: String) {
        trace_render(data)
    }

    fn file_name(&self, millis: u64) -> (r: String) {
        let mut r = String::from_str(self.0);
        r.append("/bench-");
        push_dec_u64(&mut r, millis);
        r.append(".json");
        proof {
            assert(r@ =~= self.spec_file_name(millis));
        }
        r
    }
}

/// The pivot encoder: renders the counters as a `;`-delimited CSV table.
/// The field is the output folder.
pub struct CsvWriter(pub &'static str);

impl Writer for CsvWriter {
    open spec fn spec_render(&self, evs: Seq<BenchDataV>) -> Seq<char> {
        csv_chars(evs)
    }

    open spec fn spec_file_name(&self, millis: u64) -> Seq<char> {
        self.0@ + "/graph-"@ + dec_chars(millis as nat) + ".csv"@
    }

    fn end(&self, data: &Vec<BenchData>) -> (r: String) {
        csv_render(data)
    }

    fn file_name(&self, millis: u64) -> (r: String) {
        let mut r = String::from_str(self.0);
        r.append("/graph-");
        push_dec_u64(&mut r, millis);
        r.append(".csv");
        proof {
            assert(r@ =~= self.spec_file_name(millis));
        }
        r
    }
}

} // verus!
