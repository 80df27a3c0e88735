//! The trace encoder: renders the drained event list as one Chrome
//! trace-event JSON document. The document is specified as the
//! serialization of a JSON value — an object holding an empty metadata
//! object and a `traceEvents` array with one record per event, in queue
//! order — so the output is syntactically valid JSON by construction
//! unconditionally: every character of every event string is escaped as
//! the JSON grammar requires (`json_escaped`, `lemma_escaped_ok`).

use vstd::prelude::*;

use crate::data::BenchData;
use crate::data::BenchDataV;
use crate::data::views_of;
use crate::fixed::Fixed;
use crate::fixed::fixed_chars;
use crate::fixed::push_fixed;
use crate::text::dec_chars;
use crate::text::dec_digit;
use crate::text::digit_str;
use crate::text::push_dec_u64;

verus! {

/// `s` needs no escaping inside a JSON string literal: no quote, no
/// backslash, no control character.
pub open spec fn json_safe(s: Seq<char>) -> bool {
    forall|i: int| 0 <= i < s.len() ==> s[i] != '"' && s[i] != '\\' && (s[i] as u32) >= 0x20
}

/// The character for one hexadecimal digit, lower case.
pub open spec fn hex_digit(d: nat) -> char {
    if d < 10 {
        dec_digit(d)
    } else if d == 10 {
        'a'
    } else if d == 11 {
        'b'
    } else if d == 12 {
        'c'
    } else if d == 13 {
        'd'
    } else if d == 14 {
        'e'
    } else {
        'f'
    }
}

/// What one character contributes to a JSON string literal: quotes and
/// backslashes behind a backslash, control characters as a `\u00..`
/// sequence, everything else as itself.
pub open spec fn json_escape_char(c: char) -> Seq<char> {
    if c == '"' {
        seq!['\\', '"']
    } else if c == '\\' {
        seq!['\\', '\\']
    } else if (c as u32) < 0x20 {
        seq![
            '\\',
            'u',
            '0',
            '0',
            hex_digit(((c as u32) / 16) as nat),
            hex_digit(((c as u32) % 16) as nat),
        ]
    } else {
        seq![c]
    }
}

/// `s` with every character escaped as a JSON string literal requires.
pub open spec fn json_escaped(s: Seq<char>) -> Seq<char>
    decreases s.len(),
{
    if s.len() == 0 {
        Seq::<char>::empty()
    } else {
        json_escaped(s.drop_last()) + json_escape_char(s.last())
    }
}

/// One more character contributes one more escape.
pub proof fn lemma_json_escaped_step(s: Seq<char>, i: int)
    requires
        0 <= i < s.len(),
    ensures
        json_escaped(s.take(i + 1)) == json_escaped(s.take(i)) + json_escape_char(s[i]),
{
    assert(s.take(i + 1).drop_last() =~= s.take(i));
    assert(s.take(i + 1).last() == s[i]);
}

/// Escaping leaves a string that needs no escaping unchanged.
pub proof fn lemma_escaped_identity(s: Seq<char>)
    requires
        json_safe(s),
    ensures
        json_escaped(s) == s,
    decreases s.len(),
{
    if s.len() > 0 {
        assert(json_safe(s.drop_last())) by {
            assert(forall|i: int|
                0 <= i < s.drop_last().len() ==> s.drop_last()[i] == s[i]);
        }
        lemma_escaped_identity(s.drop_last());
        assert(json_escape_char(s.last()) == seq![s.last()]);
        assert(s.drop_last() + seq![s.last()] =~= s);
    }
}

/// The JSON string literal holding `s`, every character escaped; with
/// `lemma_escaped_ok` its body is well formed for any `s`, so the literal
/// is valid JSON.
pub open spec fn json_string(s: Seq<char>) -> Seq<char> {
    "\""@ + json_escaped(s) + "\""@
}

/// `c` may follow a backslash as a one-character escape in a JSON string
/// literal.
pub open spec fn is_json_escape_head(c: char) -> bool {
    c == '"' || c == '\\' || c == '/' || c == 'b' || c == 'f' || c == 'n' || c == 'r' || c == 't'
}

/// `c` is a hexadecimal digit as JSON's `\u` escape accepts it.
pub open spec fn is_json_hex(c: char) -> bool {
    ('0' <= c && c <= '9') || ('a' <= c && c <= 'f') || ('A' <= c && c <= 'F')
}

/// `t` is a well-formed body of a JSON string literal, read as the JSON
/// grammar reads it: safe characters, one-character escapes, and `\u`
/// escapes with four hexadecimal digits.
pub open spec fn json_literal_body_ok(t: Seq<char>) -> bool
    decreases t.len(),
{
    if t.len() == 0 {
        true
    } else if t[0] == '\\' {
        if t.len() >= 2 && is_json_escape_head(t[1]) {
            json_literal_body_ok(t.skip(2))
        } else if t.len() >= 6 && t[1] == 'u' && is_json_hex(t[2]) && is_json_hex(t[3])
            && is_json_hex(t[4]) && is_json_hex(t[5]) {
            json_literal_body_ok(t.skip(6))
        } else {
            false
        }
    } else if t[0] != '"' && (t[0] as u32) >= 0x20 {
        json_literal_body_ok(t.skip(1))
    } else {
        false
    }
}

/// Two well-formed literal bodies concatenate to a well-formed one: no
/// escape sequence spans the boundary.
pub proof fn lemma_body_ok_concat(a: Seq<char>, b: Seq<char>)
    requires
        json_literal_body_ok(a),
        json_literal_body_ok(b),
    ensures
        json_literal_body_ok(a + b),
    decreases a.len(),
{
    if a.len() == 0 {
        assert(a + b =~= b);
    } else if a[0] == '\\' {
        if a.len() >= 2 && is_json_escape_head(a[1]) {
            lemma_body_ok_concat(a.skip(2), b);
            assert((a + b).skip(2) =~= a.skip(2) + b);
        } else {
            lemma_body_ok_concat(a.skip(6), b);
            assert((a + b).skip(6) =~= a.skip(6) + b);
        }
    } else {
        lemma_body_ok_concat(a.skip(1), b);
        assert((a + b).skip(1) =~= a.skip(1) + b);
    }
}

/// A hexadecimal digit character is one the JSON grammar accepts.
pub proof fn lemma_hex_digit_is_hex(d: nat)
    requires
        d < 16,
    ensures
        is_json_hex(hex_digit(d)),
{
}

/// One character's escape is a well-formed literal body.
pub proof fn lemma_escape_char_ok(c: char)
    ensures
        json_literal_body_ok(json_escape_char(c)),
{
    let t = json_escape_char(c);
    assert(json_literal_body_ok(Seq::<char>::empty()));
    if c == '"' || c == '\\' {
        assert(t.skip(2) =~= Seq::<char>::empty());
    } else if (c as u32) < 0x20 {
        lemma_hex_digit_is_hex(((c as u32) / 16) as nat);
        lemma_hex_digit_is_hex(((c as u32) % 16) as nat);
        assert(t.skip(6) =~= Seq::<char>::empty());
    } else {
        assert(t.skip(1) =~= Seq::<char>::empty());
    }
}

/// Escaping is total: whatever the source characters — quotes, backslashes
/// and control characters included — the escaped text is a well-formed
/// JSON string-literal body, so every string the serializer emits is a
/// valid literal, unconditionally.
pub proof fn lemma_escaped_ok(s: Seq<char>)
    ensures
        json_literal_body_ok(json_escaped(s)),
    decreases s.len(),
{
    if s.len() > 0 {
        lemma_escaped_ok(s.drop_last());
        lemma_escape_char_ok(s.last());
        lemma_body_ok_concat(json_escaped(s.drop_last()), json_escape_char(s.last()));
    }
}

/// A JSON value, as far as the trace schema uses one: a string, a whole
/// number, a fixed-point number, an array, or an object with ordered
/// members.
pub enum JsonVal {
    Str(Seq<char>),
    Whole(u64),
    Num(Fixed),
    Arr(Seq<JsonVal>),
    Obj(Seq<(Seq<char>, JsonVal)>),
}

/// Serializes a JSON value: strings quoted, numbers in decimal with `.` as
/// the separator, arrays in brackets and objects in braces, parts
/// comma-joined. Character data enters the output only through
/// `json_string`, which escapes it, so the result is syntactically valid
/// JSON for every value.
pub open spec fn jser(v: JsonVal) -> Seq<char>
    decreases v,
{
    match v {
        JsonVal::Str(s) => json_string(s),
        JsonVal::Whole(n) => dec_chars(n as nat),
        JsonVal::Num(f) => fixed_chars(f, '.'),
        JsonVal::Arr(items) => "["@ + jser_items(items) + "]"@,
        JsonVal::Obj(kvs) => "{"@ + jser_members(kvs) + "}"@,
    }
}

/// The comma-joined elements of a JSON array.
pub open spec fn jser_items(items: Seq<JsonVal>) -> Seq<char>
    decreases items,
{
    if items.len() == 0 {
        Seq::<char>::empty()
    } else if items.len() == 1 {
        jser(items[0])
    } else {
        jser_items(items.drop_last()) + ","@ + jser(items.last())
    }
}

/// The comma-joined `"key":value` members of a JSON object.
pub open spec fn jser_members(kvs: Seq<(Seq<char>, JsonVal)>) -> Seq<char>
    decreases kvs,
{
    if kvs.len() == 0 {
        Seq::<char>::empty()
    } else if kvs.len() == 1 {
        json_string(kvs[0].0) + ":"@ + jser(kvs[0].1)
    } else {
        jser_members(kvs.drop_last()) + ","@ + json_string(kvs.last().0) + ":"@ + jser(
            kvs.last().1,
        )
    }
}

/// One more member extends the serialized object body by one
/// comma-separated `"key":value` part.
pub proof fn lemma_jser_members_step(kvs: Seq<(Seq<char>, JsonVal)>, i: int)
    requires
        0 <= i < kvs.len(),
    ensures
        jser_members(kvs.take(i + 1)) == if i == 0 {
            json_string(kvs[0].0) + ":"@ + jser(kvs[0].1)
        } else {
            jser_members(kvs.take(i)) + ","@ + json_string(kvs[i].0) + ":"@ + jser(kvs[i].1)
        },
{
    assert(kvs.take(i + 1).drop_last() =~= kvs.take(i));
    assert(kvs.take(i + 1).last() == kvs[i]);
}

/// One more element extends the serialized array body by one
/// comma-separated part.
pub proof fn lemma_jser_items_step(items: Seq<JsonVal>, i: int)
    requires
        0 <= i < items.len(),
    ensures
        jser_items(items.take(i + 1)) == if i == 0 {
            jser(items[0])
        } else {
            jser_items(items.take(i)) + ","@ + jser(items[i])
        },
{
    assert(items.take(i + 1).drop_last() =~= items.take(i));
    assert(items.take(i + 1).last() == items[i]);
}

/// One trace record as a JSON value, member for member as the schema lists
/// them: an instant record (phase `I`) for a log, a complete record (phase
/// `X`) for a timed interval, a counter record (phase `C`) whose `args`
/// object holds one member per field in the source event's field order.
pub open spec fn record_val(e: BenchDataV) -> JsonVal {
    match e {
        BenchDataV::Log { log, ts, tid } => JsonVal::Obj(
            seq![
                ("cat"@, JsonVal::Str("log"@)),
                ("name"@, JsonVal::Str(log)),
                ("ph"@, JsonVal::Str("I"@)),
                ("pid"@, JsonVal::Whole(0)),
                ("tid"@, JsonVal::Whole(tid as u64)),
                ("ts"@, JsonVal::Whole(ts)),
            ],
        ),
        BenchDataV::Bench { name, ts, dur, tid } => JsonVal::Obj(
            seq![
                ("cat"@, JsonVal::Str("function"@)),
                ("dur"@, JsonVal::Whole(dur)),
                ("name"@, JsonVal::Str(name)),
                ("ph"@, JsonVal::Str("X"@)),
                ("pid"@, JsonVal::Whole(0)),
                ("tid"@, JsonVal::Whole(tid as u64)),
                ("ts"@, JsonVal::Whole(ts)),
            ],
        ),
        BenchDataV::Count { name, ts, tid, data } => JsonVal::Obj(
            seq![
                ("cat"@, JsonVal::Str("count"@)),
                ("name"@, JsonVal::Str(name)),
                ("ph"@, JsonVal::Str("C"@)),
                ("pid"@, JsonVal::Whole(0)),
                ("tid"@, JsonVal::Whole(tid as u64)),
                ("ts"@, JsonVal::Whole(ts)),
                (
                    "args"@,
                    JsonVal::Obj(
                        data.map_values(|p: (Seq<char>, Fixed)| (p.0, JsonVal::Num(p.1))),
                    ),
                ),
            ],
        ),
    }
}

/// The whole trace document as a JSON value: an object holding the empty
/// `otherData` object and the `traceEvents` array of records.
pub open spec fn document_val(evs: Seq<BenchDataV>) -> JsonVal {
    JsonVal::Obj(
        seq![
            ("otherData"@, JsonVal::Obj(Seq::<(Seq<char>, JsonVal)>::empty())),
            ("traceEvents"@, JsonVal::Arr(evs.map_values(|e: BenchDataV| record_val(e)))),
        ],
    )
}

/// The text of one trace record.
pub open spec fn trace_record(e: BenchDataV) -> Seq<char> {
    jser(record_val(e))
}

/// The whole trace document's text.
pub open spec fn trace_document(evs: Seq<BenchDataV>) -> Seq<char> {
    jser(document_val(evs))
}

/// The empty event list renders as the empty document of the schema.
pub proof fn lemma_trace_document_empty()
    ensures
        trace_document(Seq::<BenchDataV>::empty()) == "{\"otherData\":{},\"traceEvents\":[]}"@,
{
    reveal_strlit("{");
    reveal_strlit("}");
    reveal_strlit(",");
    reveal_strlit(":");
    reveal_strlit("[");
    reveal_strlit("]");
    reveal_strlit("\"");
    reveal_strlit("otherData");
    reveal_strlit("traceEvents");
    reveal_strlit("{\"otherData\":{},\"traceEvents\":[]}");
    let evs = Seq::<BenchDataV>::empty();
    let kvs = document_val(evs)->Obj_0;
    let mk = evs.map_values(|e: BenchDataV| record_val(e));
    assert(json_safe("otherData"@));
    assert(json_safe("traceEvents"@));
    lemma_escaped_identity("otherData"@);
    lemma_escaped_identity("traceEvents"@);
    assert(mk =~= Seq::<JsonVal>::empty());
    assert(jser_items(mk) =~= Seq::<char>::empty());
    assert(jser_members(Seq::<(Seq<char>, JsonVal)>::empty()) =~= Seq::<char>::empty());
    lemma_jser_members_step(kvs, 0);
    lemma_jser_members_step(kvs, 1);
    assert(kvs.take(2) =~= kvs);
    assert(trace_document(evs) =~= "{\"otherData\":{},\"traceEvents\":[]}"@);
}

/// Prefixing a first object member regroups to one member text.
proof fn lemma_first_member_assoc(base: Seq<char>, key: Seq<char>, v: Seq<char>)
    ensures
        base + json_string(key) + ":"@ + v == base + (json_string(key) + ":"@ + v),
{
    assert(base + json_string(key) + ":"@ + v =~= base + (json_string(key) + ":"@ + v));
}

/// Appending one more object member regroups to the longer member text.
proof fn lemma_member_assoc(base: Seq<char>, m: Seq<char>, key: Seq<char>, v: Seq<char>)
    ensures
        base + m + ","@ + json_string(key) + ":"@ + v == base + (m + ","@ + json_string(key)
            + ":"@ + v),
{
    assert(base + m + ","@ + json_string(key) + ":"@ + v =~= base + (m + ","@ + json_string(key)
        + ":"@ + v));
}

/// The same, for a member whose value is an object in braces.
proof fn lemma_obj_member_assoc(base: Seq<char>, m: Seq<char>, key: Seq<char>, inner: Seq<char>)
    ensures
        base + m + ","@ + json_string(key) + ":"@ + "{"@ + inner + "}"@ == base + (m + ","@
            + json_string(key) + ":"@ + ("{"@ + inner + "}"@)),
{
    assert(base + m + ","@ + json_string(key) + ":"@ + "{"@ + inner + "}"@ =~= base + (m + ","@
        + json_string(key) + ":"@ + ("{"@ + inner + "}"@)));
}

/// The same, for a member whose value is an array in brackets.
proof fn lemma_arr_member_assoc(base: Seq<char>, m: Seq<char>, key: Seq<char>, inner: Seq<char>)
    ensures
        base + m + ","@ + json_string(key) + ":"@ + "["@ + inner + "]"@ == base + (m + ","@
            + json_string(key) + ":"@ + ("["@ + inner + "]"@)),
{
    assert(base + m + ","@ + json_string(key) + ":"@ + "["@ + inner + "]"@ =~= base + (m + ","@
        + json_string(key) + ":"@ + ("["@ + inner + "]"@)));
}

/// Appending one more array element regroups to the longer array body.
proof fn lemma_item_assoc(base: Seq<char>, it: Seq<char>, rec: Seq<char>)
    ensures
        base + it + ","@ + rec == base + (it + ","@ + rec),
{
    assert(base + it + ","@ + rec =~= base + (it + ","@ + rec));
}

/// The one-character string for a hexadecimal digit, lower case.
fn hex_digit_str(d: u32) -> (r: &'static str)
    requires
        d < 16,
    ensures
        r@ == seq![hex_digit(d as nat)],
{
    let r: &'static str = if d < 10 {
        digit_str(d as u64)
    } else if d == 10 {
        "a"
    } else if d == 11 {
        "b"
    } else if d == 12 {
        "c"
    } else if d == 13 {
        "d"
    } else if d == 14 {
        "e"
    } else {
        "f"
    };
    proof {
        reveal_strlit("a");
        reveal_strlit("b");
        reveal_strlit("c");
        reveal_strlit("d");
        reveal_strlit("e");
        reveal_strlit("f");
        assert(r@ =~= seq![hex_digit(d as nat)]);
    }
    r
}

/// Appends the JSON string literal holding `s`, escaping every quote,
/// backslash and control character.
fn push_json_string(out: &mut String, s: &str)
    ensures
        final(out)@ == old(out)@ + json_string(s@),
{
    out.append("\"");
    let ghost base = out@;
    let n = s.unicode_len();
    let mut i: usize = 0;
    proof {
        assert(s@.take(0) =~= Seq::<char>::empty());
        assert(base + json_escaped(s@.take(0)) =~= base);
    }
    while i < n
        invariant
            i <= n,
            n == s@.len(),
            out@ == base + json_escaped(s@.take(i as int)),
        decreases n - i,
    {
        let c = s.get_char(i);
        if c == '"' {
            out.append("\\\"");
            proof {
                reveal_strlit("\\\"");
                lemma_json_escaped_step(s@, i as int);
                assert("\\\""@ =~= json_escape_char(s@[i as int]));
                assert(out@ =~= base + json_escaped(s@.take(i + 1)));
            }
        } else if c == '\\' {
            out.append("\\\\");
            proof {
                reveal_strlit("\\\\");
                lemma_json_escaped_step(s@, i as int);
                assert("\\\\"@ =~= json_escape_char(s@[i as int]));
                assert(out@ =~= base + json_escaped(s@.take(i + 1)));
            }
        } else if (c as u32) < 0x20 {
            let u = c as u32;
            out.append("\\u00");
            out.append(hex_digit_str(u / 16));
            out.append(hex_digit_str(u % 16));
            proof {
                reveal_strlit("\\u00");
                lemma_json_escaped_step(s@, i as int);
                assert("\\u00"@ + seq![hex_digit((u / 16) as nat)] + seq![
                    hex_digit((u % 16) as nat),
                ] =~= json_escape_char(s@[i as int]));
                assert(out@ =~= base + json_escaped(s@.take(i + 1)));
            }
        } else {
            let piece = s.substring_char(i, i + 1);
            out.append(piece);
            proof {
                lemma_json_escaped_step(s@, i as int);
                assert(piece@ =~= seq![s@[i as int]]);
                assert(json_escape_char(s@[i as int]) == seq![s@[i as int]]);
                assert(out@ =~= base + json_escaped(s@.take(i + 1)));
            }
        }
        i = i + 1;
    }
    out.append("\"");
    proof {
        assert(s@.take(n as int) =~= s@);
        assert(final(out)@ =~= old(out)@ + json_string(s@));
    }
}

/// Appends one `"key":` member head.
fn push_key(out: &mut String, key: &str)
    ensures
        final(out)@ == old(out)@ + json_string(key@) + ":"@,
{
    push_json_string(out, key);
    out.append(":");
}

/// Appends the instant record of a log annotation.
#[verifier::rlimit(40)]
fn push_log_record(out: &mut String, log: &String, ts: u64, tid: usize)
    ensures
        final(out)@ == old(out)@ + trace_record(BenchDataV::Log { log: log@, ts: ts, tid: tid }),
{
    let ghost e_v = BenchDataV::Log { log: log@, ts: ts, tid: tid };
    let ghost ms = record_val(e_v)->Obj_0;
    out.append("{");
    let ghost base = out@;
    push_key(out, "cat");
    push_json_string(out, "log");
    proof {
        lemma_jser_members_step(ms, 0);
        lemma_first_member_assoc(base, "cat"@, json_string("log"@));
        assert(out@ == base + jser_members(ms.take(1)));
    }
    out.append(",");
    push_key(out, "name");
    push_json_string(out, log.as_str());
    proof {
        lemma_jser_members_step(ms, 1);
        lemma_member_assoc(base, jser_members(ms.take(1)), "name"@, json_string(log@));
        assert(out@ == base + jser_members(ms.take(2)));
    }
    out.append(",");
    push_key(out, "ph");
    push_json_string(out, "I");
    proof {
        lemma_jser_members_step(ms, 2);
        lemma_member_assoc(base, jser_members(ms.take(2)), "ph"@, json_string("I"@));
        assert(out@ == base + jser_members(ms.take(3)));
    }
    out.append(",");
    push_key(out, "pid");
    push_dec_u64(out, 0);
    proof {
        lemma_jser_members_step(ms, 3);
        lemma_member_assoc(base, jser_members(ms.take(3)), "pid"@, dec_chars(0));
        assert(out@ == base + jser_members(ms.take(4)));
    }
    out.append(",");
    push_key(out, "tid");
    push_dec_u64(out, tid as u64);
    proof {
        lemma_jser_members_step(ms, 4);
        lemma_member_assoc(base, jser_members(ms.take(4)), "tid"@, dec_chars((tid as u64) as nat));
        assert(out@ == base + jser_members(ms.take(5)));
    }
    out.append(",");
    push_key(out, "ts");
    push_dec_u64(out, ts);
    proof {
        lemma_jser_members_step(ms, 5);
        lemma_member_assoc(base, jser_members(ms.take(5)), "ts"@, dec_chars(ts as nat));
        assert(out@ == base + jser_members(ms.take(6)));
    }
    out.append("}");
    proof {
        assert(ms.take(6) =~= ms);
        assert(final(out)@ == (old(out)@ + "{"@) + jser_members(ms) + "}"@);
        assert((old(out)@ + "{"@) + jser_members(ms) + "}"@ =~= old(out)@ + ("{"@ + jser_members(
            ms,
        ) + "}"@));
        assert(final(out)@ == old(out)@ + trace_record(e_v));
    }
}

/// Appends the complete record of a timed interval.
#[verifier::rlimit(40)]
fn push_bench_record(out: &mut String, name: &String, ts: u64, dur: u64, tid: usize)
    ensures
        final(out)@ == old(out)@ + trace_record(
            BenchDataV::Bench { name: name@, ts: ts, dur: dur, tid: tid },
        ),
{
    let ghost e_v = BenchDataV::Bench { name: name@, ts: ts, dur: dur, tid: tid };
    let ghost ms = record_val(e_v)->Obj_0;
    out.append("{");
    let ghost base = out@;
    push_key(out, "cat");
    push_json_string(out, "function");
    proof {
        lemma_jser_members_step(ms, 0);
        lemma_first_member_assoc(base, "cat"@, json_string("function"@));
        assert(out@ == base + jser_members(ms.take(1)));
    }
    out.append(",");
    push_key(out, "dur");
    push_dec_u64(out, dur);
    proof {
        lemma_jser_members_step(ms, 1);
        lemma_member_assoc(base, jser_members(ms.take(1)), "dur"@, dec_chars(dur as nat));
        assert(out@ == base + jser_members(ms.take(2)));
    }
    out.append(",");
    push_key(out, "name");
    push_json_string(out, name.as_str());
    proof {
        lemma_jser_members_step(ms, 2);
        lemma_member_assoc(base, jser_members(ms.take(2)), "name"@, json_string(name@));
        assert(out@ == base + jser_members(ms.take(3)));
    }
    out.append(",");
    push_key(out, "ph");
    push_json_string(out, "X");
    proof {
        lemma_jser_members_step(ms, 3);
        lemma_member_assoc(base, jser_members(ms.take(3)), "ph"@, json_string("X"@));
        assert(out@ == base + jser_members(ms.take(4)));
    }
    out.append(",");
    push_key(out, "pid");
    push_dec_u64(out, 0);
    proof {
        lemma_jser_members_step(ms, 4);
        lemma_member_assoc(base, jser_members(ms.take(4)), "pid"@, dec_chars(0));
        assert(out@ == base + jser_members(ms.take(5)));
    }
    out.append(",");
    push_key(out, "tid");
    push_dec_u64(out, tid as u64);
    proof {
        lemma_jser_members_step(ms, 5);
        lemma_member_assoc(base, jser_members(ms.take(5)), "tid"@, dec_chars((tid as u64) as nat));
        assert(out@ == base + jser_members(ms.take(6)));
    }
    out.append(",");
    push_key(out, "ts");
    push_dec_u64(out, ts);
    proof {
        lemma_jser_members_step(ms, 6);
        lemma_member_assoc(base, jser_members(ms.take(6)), "ts"@, dec_chars(ts as nat));
        assert(out@ == base + jser_members(ms.take(7)));
    }
    out.append("}");
    proof {
        assert(ms.take(7) =~= ms);
        assert((old(out)@ + "{"@) + jser_members(ms) + "}"@ =~= old(out)@ + ("{"@ + jser_members(
            ms,
        ) + "}"@));
        assert(final(out)@ == old(out)@ + trace_record(e_v));
    }
}

/// Appends the counter record of a counter snapshot, its `args` object
/// holding one member per field in field order.
#[verifier::rlimit(40)]
fn push_count_record(
    out: &mut String,
    name: &String,
    ts: u64,
    tid: usize,
    data: &Vec<(String, Fixed)>,
)
    ensures
        final(out)@ == old(out)@ + trace_record(
            BenchDataV::Count {
                name: name@,
                ts: ts,
                tid: tid,
                data: data@.map_values(|p: (String, Fixed)| (p.0@, p.1)),
            },
        ),
{
    let ghost dv = data@.map_values(|p: (String, Fixed)| (p.0@, p.1));
    let ghost e_v = BenchDataV::Count { name: name@, ts: ts, tid: tid, data: dv };
    let ghost ms = record_val(e_v)->Obj_0;
    let ghost fk = dv.map_values(|p: (Seq<char>, Fixed)| (p.0, JsonVal::Num(p.1)));
    out.append("{");
    let ghost base = out@;
    push_key(out, "cat");
    push_json_string(out, "count");
    proof {
        lemma_jser_members_step(ms, 0);
        lemma_first_member_assoc(base, "cat"@, json_string("count"@));
        assert(out@ == base + jser_members(ms.take(1)));
    }
    out.append(",");
    push_key(out, "name");
    push_json_string(out, name.as_str());
    proof {
        lemma_jser_members_step(ms, 1);
        lemma_member_assoc(base, jser_members(ms.take(1)), "name"@, json_string(name@));
        assert(out@ == base + jser_members(ms.take(2)));
    }
    out.append(",");
    push_key(out, "ph");
    push_json_string(out, "C");
    proof {
        lemma_jser_members_step(ms, 2);
        lemma_member_assoc(base, jser_members(ms.take(2)), "ph"@, json_string("C"@));
        assert(out@ == base + jser_members(ms.take(3)));
    }
    out.append(",");
    push_key(out, "pid");
    push_dec_u64(out, 0);
    proof {
        lemma_jser_members_step(ms, 3);
        lemma_member_assoc(base, jser_members(ms.take(3)), "pid"@, dec_chars(0));
        assert(out@ == base + jser_members(ms.take(4)));
    }
    out.append(",");
    push_key(out, "tid");
    push_dec_u64(out, tid as u64);
    proof {
        lemma_jser_members_step(ms, 4);
        lemma_member_assoc(base, jser_members(ms.take(4)), "tid"@, dec_chars((tid as u64) as nat));
        assert(out@ == base + jser_members(ms.take(5)));
    }
    out.append(",");
    push_key(out, "ts");
    push_dec_u64(out, ts);
    proof {
        lemma_jser_members_step(ms, 5);
        lemma_member_assoc(base, jser_members(ms.take(5)), "ts"@, dec_chars(ts as nat));
        assert(out@ == base + jser_members(ms.take(6)));
    }
    out.append(",");
    push_key(out, "args");
    out.append("{");
    let ghost abase = out@;
    let m = data.len();
    let mut j: usize = 0;
    proof {
        assert(fk.take(0) =~= Seq::<(Seq<char>, JsonVal)>::empty());
        assert(abase + jser_members(fk.take(0)) =~= abase);
    }
    while j < m
        invariant
            j <= m,
            m == data@.len(),
            m == fk.len(),
            dv == data@.map_values(|p: (String, Fixed)| (p.0@, p.1)),
            fk == dv.map_values(|p: (Seq<char>, Fixed)| (p.0, JsonVal::Num(p.1))),
            out@ == abase + jser_members(fk.take(j as int)),
        decreases m - j,
    {
        let first = j == 0;
        if !first {
            out.append(",");
        }
        let ghost before = out@;
        let p = &data[j];
        push_json_string(out, p.0.as_str());
        out.append(":");
        proof {
            reveal_strlit(".");
        }
        push_fixed(out, p.1, ".");
        proof {
            lemma_jser_members_step(fk, j as int);
            assert(fk[j as int] == (data@[j as int].0@, JsonVal::Num(data@[j as int].1)));
            assert(jser(fk[j as int].1) == fixed_chars(data@[j as int].1, '.'));
            if first {
                lemma_first_member_assoc(
                    abase,
                    data@[j as int].0@,
                    fixed_chars(data@[j as int].1, '.'),
                );
            } else {
                lemma_member_assoc(
                    abase,
                    jser_members(fk.take(j as int)),
                    data@[j as int].0@,
                    fixed_chars(data@[j as int].1, '.'),
                );
            }
            assert(out@ == abase + jser_members(fk.take(j + 1)));
        }
        j = j + 1;
    }
    out.append("}");
    proof {
        assert(fk.take(m as int) =~= fk);
        assert(ms[6].1 == JsonVal::Obj(fk));
        lemma_jser_members_step(ms, 6);
        lemma_obj_member_assoc(base, jser_members(ms.take(6)), "args"@, jser_members(fk));
        assert(out@ == base + jser_members(ms.take(7)));
    }
    out.append("}");
    proof {
        assert(ms.take(7) =~= ms);
        assert((old(out)@ + "{"@) + jser_members(ms) + "}"@ =~= old(out)@ + ("{"@ + jser_members(
            ms,
        ) + "}"@));
        assert(final(out)@ == old(out)@ + trace_record(e_v));
    }
}

/// Appends the trace record of one event.
fn push_trace_record(out: &mut String, e: &BenchData)
    ensures
        final(out)@ == old(out)@ + trace_record(e@),
{
    match e {
        BenchData::Log { log, ts, tid } => {
            push_log_record(out, log, *ts, *tid);
            proof {
                assert(e@ == BenchDataV::Log { log: log@, ts: *ts, tid: *tid });
            }
        },
        BenchData::Bench { name, ts, dur, tid } => {
            push_bench_record(out, name, *ts, *dur, *tid);
            proof {
                assert(e@ == BenchDataV::Bench { name: name@, ts: *ts, dur: *dur, tid: *tid });
            }
        },
        BenchData::Count { name, ts, tid, data } => {
            push_count_record(out, name, *ts, *tid, data);
            proof {
                assert(e@ == BenchDataV::Count {
                    name: name@,
                    ts: *ts,
                    tid: *tid,
                    data: data@.map_values(|p: (String, Fixed)| (p.0@, p.1)),
                });
            }
        },
    }
}

/// Renders the whole trace document for a drained event list.
pub fn trace_render(data: &Vec<BenchData>) -> (r: String)
    ensures
        r@ == trace_document(views_of(data@)),
{
    let ghost evs = views_of(data@);
    let ghost mk = evs.map_values(|e: BenchDataV| record_val(e));
    let ghost kvs = document_val(evs)->Obj_0;
    let mut out = String::from_str("{");
    let ghost base = out@;
    push_key(&mut out, "otherData");
    out.append("{");
    out.append("}");
    proof {
        lemma_jser_members_step(kvs, 0);
        assert(jser_members(Seq::<(Seq<char>, JsonVal)>::empty()) == Seq::<char>::empty());
        assert(jser(kvs[0].1) =~= "{"@ + "}"@);
        assert(out@ =~= base + jser_members(kvs.take(1)));
    }
    out.append(",");
    push_key(&mut out, "traceEvents");
    out.append("[");
    let ghost head = out@;
    let n = data.len();
    let mut i: usize = 0;
    proof {
        assert(mk.take(0) =~= Seq::<JsonVal>::empty());
        assert(head + jser_items(mk.take(0)) =~= head);
    }
    while i < n
        invariant
            i <= n,
            n == data@.len(),
            evs == views_of(data@),
            mk == evs.map_values(|e: BenchDataV| record_val(e)),
            out@ == head + jser_items(mk.take(i as int)),
        decreases n - i,
    {
        let first = i == 0;
        if !first {
            out.append(",");
        }
        push_trace_record(&mut out, &data[i]);
        proof {
            lemma_jser_items_step(mk, i as int);
            assert(evs[i as int] == data@[i as int]@);
            assert(mk[i as int] == record_val(evs[i as int]));
            assert(trace_record(evs[i as int]) == jser(mk[i as int]));
            if !first {
                lemma_item_assoc(head, jser_items(mk.take(i as int)), jser(mk[i as int]));
            }
            assert(out@ == head + jser_items(mk.take(i + 1)));
        }
        i = i + 1;
    }
    out.append("]");
    proof {
        assert(mk.take(n as int) =~= mk);
        lemma_jser_members_step(kvs, 1);
        assert(kvs[1].1 == JsonVal::Arr(mk));
        lemma_arr_member_assoc(base, jser_members(kvs.take(1)), "traceEvents"@, jser_items(mk));
        assert(out@ == base + jser_members(kvs.take(2)));
    }
    out.append("}");
    proof {
        assert(kvs.take(2) =~= kvs);
        assert(base + jser_members(kvs) + "}"@ =~= "{"@ + jser_members(kvs) + "}"@);
        assert(out@ == trace_document(views_of(data@)));
    }
    out
}

} // verus!
