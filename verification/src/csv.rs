//! The pivot encoder: turns the interleaved stream of counter readings into
//! a `;`-delimited table with one column per distinct `group : field` key,
//! sorted lexicographically, and one row per reading, carrying forward the
//! last known value of every other column and leaving never-written cells
//! blank.

use vstd::prelude::*;

use crate::data::BenchData;
use crate::data::BenchDataV;
use crate::data::views_of;
use crate::fixed::Fixed;
use crate::fixed::fixed_chars;
use crate::fixed::push_fixed;
use crate::text::dec_chars;
use crate::text::lex_lt;
use crate::text::lemma_lex_trichotomy;
use crate::text::push_dec_u64;
use crate::text::str_lt;

verus! {

/// The canonical column key of one `(group, field)` pair.
pub open spec fn col_key(group: Seq<char>, field: Seq<char>) -> Seq<char> {
    group + " : "@ + field
}

/// The `(column key, value, timestamp)` readings of one event: one per
/// field of a counter snapshot, none for the other variants.
pub open spec fn event_triples(e: BenchDataV) -> Seq<(Seq<char>, Fixed, u64)> {
    match e {
        BenchDataV::Count { name, ts, tid: _, data } => data.map_values(
            |p: (Seq<char>, Fixed)| (col_key(name, p.0), p.1, ts),
        ),
        _ => Seq::<(Seq<char>, Fixed, u64)>::empty(),
    }
}

/// All readings of an event list, in queue order.
pub open spec fn triples(evs: Seq<BenchDataV>) -> Seq<(Seq<char>, Fixed, u64)>
    decreases evs.len(),
{
    if evs.len() == 0 {
        Seq::<(Seq<char>, Fixed, u64)>::empty()
    } else {
        triples(evs.drop_last()) + event_triples(evs.last())
    }
}

/// Extending the event list extends the readings by that event's readings.
pub proof fn lemma_triples_step(s: Seq<BenchDataV>, i: int)
    requires
        0 <= i < s.len(),
    ensures
        triples(s.take(i + 1)) == triples(s.take(i)) + event_triples(s[i]),
{
    assert(s.take(i + 1).drop_last() =~= s.take(i));
    assert(s.take(i + 1).last() == s[i]);
}

/// Every element strictly precedes every later one; in particular no key
/// repeats.
pub open spec fn strictly_sorted(cols: Seq<Seq<char>>) -> bool {
    forall|i: int, j: int| 0 <= i < j < cols.len() ==> lex_lt(cols[i], cols[j])
}

/// Inserts `k` into a sorted sequence of distinct keys, keeping it sorted
/// and dropping `k` when already present.
pub open spec fn sorted_insert(cols: Seq<Seq<char>>, k: Seq<char>) -> Seq<Seq<char>>
    decreases cols.len(),
{
    if cols.len() == 0 {
        seq![k]
    } else if lex_lt(k, cols[0]) {
        seq![k] + cols
    } else if k == cols[0] {
        cols
    } else {
        seq![cols[0]] + sorted_insert(cols.drop_first(), k)
    }
}

/// `sorted_insert` keeps the keys sorted and distinct, and its contents
/// are the old contents plus `k`.
pub proof fn lemma_sorted_insert_props(cols: Seq<Seq<char>>, k: Seq<char>)
    requires
        strictly_sorted(cols),
    ensures
        strictly_sorted(sorted_insert(cols, k)),
        sorted_insert(cols, k).contains(k),
        forall|x: Seq<char>|
            #![trigger sorted_insert(cols, k).contains(x)]
            #![trigger cols.contains(x)]
            sorted_insert(cols, k).contains(x) <==> (cols.contains(x) || x == k),
    decreases cols.len(),
{
    let r = sorted_insert(cols, k);
    if cols.len() == 0 {
        assert forall|x: Seq<char>| r.contains(x) implies (cols.contains(x) || x == k) by {
            assert(r[0] == k);
        }
        assert(r.contains(k)) by {
            assert(r[0] == k);
        }
    } else if lex_lt(k, cols[0]) {
        assert(r.contains(k)) by {
            assert(r[0] == k);
        }
        assert forall|i: int, j: int| 0 <= i < j < r.len() implies lex_lt(r[i], r[j]) by {
            if i > 0 {
                assert(r[i] == cols[i - 1]);
                assert(r[j] == cols[j - 1]);
            } else {
                assert(r[j] == cols[j - 1]);
                if j > 1 {
                    assert(lex_lt(cols[0], cols[j - 1]));
                    lemma_lex_lt_trans(k, cols[0], cols[j - 1]);
                }
            }
        }
        assert forall|x: Seq<char>| r.contains(x) implies (cols.contains(x) || x == k) by {
            let i = choose|i: int| 0 <= i < r.len() && r[i] == x;
            if i > 0 {
                assert(cols[i - 1] == x);
            }
        }
        assert forall|x: Seq<char>| (cols.contains(x) || x == k) implies r.contains(x) by {
            if x == k {
                assert(r[0] == x);
            } else {
                let i = choose|i: int| 0 <= i < cols.len() && cols[i] == x;
                assert(r[i + 1] == x);
            }
        }
    } else if k == cols[0] {
        assert(r.contains(k)) by {
            assert(r[0] == k);
        }
        assert forall|x: Seq<char>| (cols.contains(x) || x == k) implies r.contains(x) by {
            if x == k {
                assert(r[0] == x);
            }
        }
    } else {
        let tail = cols.drop_first();
        assert forall|i: int, j: int| 0 <= i < j < tail.len() implies lex_lt(tail[i], tail[j]) by {
            assert(lex_lt(cols[i + 1], cols[j + 1]));
        }
        lemma_sorted_insert_props(tail, k);
        let rt = sorted_insert(tail, k);
        assert(r =~= seq![cols[0]] + rt);
        // cols[0] precedes k and every old tail element, so the result is
        // sorted; contents follow from the tail's contents.
        assert(lex_lt(cols[0], k)) by {
            if !lex_lt(cols[0], k) {
                lemma_lex_trichotomy(k, cols[0]);
            }
        }
        assert forall|i: int, j: int| 0 <= i < j < r.len() implies lex_lt(r[i], r[j]) by {
            if i == 0 {
                assert(rt.contains(r[j])) by {
                    assert(r[j] == rt[j - 1]);
                }
                if rt[j - 1] == k {
                    assert(lex_lt(cols[0], k));
                } else {
                    assert(tail.contains(rt[j - 1]));
                    let m = choose|m: int| 0 <= m < tail.len() && tail[m] == rt[j - 1];
                    assert(lex_lt(cols[0], cols[m + 1]));
                }
            } else {
                assert(r[i] == rt[i - 1]);
                assert(r[j] == rt[j - 1]);
            }
        }
        assert(rt.contains(k)) by {
            assert(sorted_insert(tail, k).contains(k));
        }
        let mk = choose|m: int| 0 <= m < rt.len() && rt[m] == k;
        assert(r.contains(k)) by {
            assert(r[mk + 1] == k);
        }
        assert forall|x: Seq<char>| r.contains(x) implies (cols.contains(x) || x == k) by {
            let i = choose|i: int| 0 <= i < r.len() && r[i] == x;
            if i == 0 {
                assert(cols[0] == x);
            } else {
                assert(sorted_insert(tail, k).contains(x)) by {
                    assert(sorted_insert(tail, k)[i - 1] == x);
                }
                if x != k {
                    assert(tail.contains(x));
                    let m = choose|m: int| 0 <= m < tail.len() && tail[m] == x;
                    assert(cols[m + 1] == x);
                }
            }
        }
        assert forall|x: Seq<char>| (cols.contains(x) || x == k) implies r.contains(x) by {
            if x == k {
                assert(r.contains(k));
            } else if cols.contains(x) {
                let i = choose|i: int| 0 <= i < cols.len() && cols[i] == x;
                if i == 0 {
                    assert(r[0] == x);
                } else {
                    assert(tail.contains(x)) by {
                        assert(tail[i - 1] == x);
                    }
                    assert(sorted_insert(tail, k).contains(x));
                    let m = choose|m: int| 0 <= m < rt.len() && rt[m] == x;
                    assert(r[m + 1] == x);
                }
            }
        }
    }
}

/// Lexicographic order is transitive.
pub proof fn lemma_lex_lt_trans(a: Seq<char>, b: Seq<char>, c: Seq<char>)
    requires
        lex_lt(a, b),
        lex_lt(b, c),
    ensures
        lex_lt(a, c),
    decreases a.len(),
{
    if a.len() == 0 {
    } else {
        // b and c are non-empty since something precedes them
        if a[0] == b[0] && b[0] == c[0] {
            lemma_lex_lt_trans(a.drop_first(), b.drop_first(), c.drop_first());
        }
    }
}

/// The distinct column keys of the readings, sorted lexicographically:
/// each reading's key is folded into a sorted, duplicate-free sequence.
pub open spec fn columns_of(ts: Seq<(Seq<char>, Fixed, u64)>) -> Seq<Seq<char>>
    decreases ts.len(),
{
    if ts.len() == 0 {
        Seq::<Seq<char>>::empty()
    } else {
        sorted_insert(columns_of(ts.drop_last()), ts.last().0)
    }
}

/// One more reading folds one more key in.
pub proof fn lemma_columns_step(ts: Seq<(Seq<char>, Fixed, u64)>, i: int)
    requires
        0 <= i < ts.len(),
    ensures
        columns_of(ts.take(i + 1)) == sorted_insert(columns_of(ts.take(i)), ts[i].0),
{
    assert(ts.take(i + 1).drop_last() =~= ts.take(i));
    assert(ts.take(i + 1).last() == ts[i]);
}

/// The column set is exactly the set of keys appearing in the readings,
/// sorted lexicographically with no duplicate.
pub proof fn lemma_columns_of_props(ts: Seq<(Seq<char>, Fixed, u64)>)
    ensures
        strictly_sorted(columns_of(ts)),
        forall|x: Seq<char>|
            columns_of(ts).contains(x) <==> (exists|j: int| 0 <= j < ts.len() && ts[j].0 == x),
    decreases ts.len(),
{
    if ts.len() == 0 {
    } else {
        let pre = ts.drop_last();
        lemma_columns_of_props(pre);
        lemma_sorted_insert_props(columns_of(pre), ts.last().0);
        assert forall|x: Seq<char>| columns_of(ts).contains(x) implies (exists|j: int|
            0 <= j < ts.len() && ts[j].0 == x) by {
            if columns_of(pre).contains(x) {
                let j = choose|j: int| 0 <= j < pre.len() && pre[j].0 == x;
                assert(ts[j].0 == x);
            } else {
                assert(x == ts.last().0);
                assert(ts[ts.len() - 1].0 == x);
            }
        }
        assert forall|x: Seq<char>| (exists|j: int| 0 <= j < ts.len() && ts[j].0 == x) implies
            columns_of(ts).contains(x) by {
            let j = choose|j: int| 0 <= j < ts.len() && ts[j].0 == x;
            if j < ts.len() - 1 {
                assert(exists|m: int| 0 <= m < pre.len() && pre[m].0 == x) by {
                    assert(pre[j].0 == x);
                }
                assert(columns_of(pre).contains(x));
            } else {
                assert(x == ts.last().0);
            }
        }
    }
}

/// The position of key `k` in the column list (its first occurrence).
pub open spec fn col_index(cols: Seq<Seq<char>>, k: Seq<char>) -> int
    decreases cols.len(),
{
    if cols.len() == 0 {
        0
    } else if cols[0] == k {
        0
    } else {
        1 + col_index(cols.drop_first(), k)
    }
}

/// For a key that occurs, `col_index` is its first occurrence.
pub proof fn lemma_col_index_props(cols: Seq<Seq<char>>, k: Seq<char>)
    requires
        cols.contains(k),
    ensures
        0 <= col_index(cols, k) < cols.len(),
        cols[col_index(cols, k)] == k,
        forall|j: int| 0 <= j < col_index(cols, k) ==> cols[j] != k,
    decreases cols.len(),
{
    if cols[0] == k {
    } else {
        let tail = cols.drop_first();
        assert(tail.contains(k)) by {
            let i = choose|i: int| 0 <= i < cols.len() && cols[i] == k;
            assert(tail[i - 1] == k);
        }
        lemma_col_index_props(tail, k);
        assert forall|j: int| 0 <= j < col_index(cols, k) implies cols[j] != k by {
            if j > 0 {
                assert(tail[j - 1] != k);
            }
        }
    }
}

/// One cell: blank while the column has not yet been written, else the
/// value with `,` as the decimal separator, preceded by the delimiter.
pub open spec fn cell_chars(c: Option<Fixed>) -> Seq<char> {
    match c {
        Option::None => Seq::<char>::empty(),
        Option::Some(v) => fixed_chars(v, ','),
    }
}

/// The delimited cells of one row, in column order.
pub open spec fn cells_chars(state: Seq<Option<Fixed>>) -> Seq<char>
    decreases state.len(),
{
    if state.len() == 0 {
        Seq::<char>::empty()
    } else {
        cells_chars(state.drop_last()) + ";"@ + cell_chars(state.last())
    }
}

/// One more column appends one more delimited cell.
pub proof fn lemma_cells_step(state: Seq<Option<Fixed>>, i: int)
    requires
        0 <= i < state.len(),
    ensures
        cells_chars(state.take(i + 1)) == cells_chars(state.take(i)) + ";"@ + cell_chars(state[i]),
{
    assert(state.take(i + 1).drop_last() =~= state.take(i));
    assert(state.take(i + 1).last() == state[i]);
}

/// One data row: the timestamp, then every column's last known value.
pub open spec fn row_chars(ts: u64, state: Seq<Option<Fixed>>) -> Seq<char> {
    dec_chars(ts as nat) + cells_chars(state) + "\n"@
}

/// The rows emitted for the readings of `ts`, one per reading: each
/// reading updates its column in the running row state, then a snapshot of
/// the whole state is emitted.
pub open spec fn row_list(
    ts: Seq<(Seq<char>, Fixed, u64)>,
    cols: Seq<Seq<char>>,
    state: Seq<Option<Fixed>>,
) -> Seq<Seq<char>>
    decreases ts.len(),
{
    if ts.len() == 0 {
        Seq::<Seq<char>>::empty()
    } else {
        let st2 = state.update(col_index(cols, ts[0].0), Option::Some(ts[0].1));
        seq![row_chars(ts[0].2, st2)] + row_list(ts.drop_first(), cols, st2)
    }
}

/// Rows are one-to-one with readings, not de-duplicated by timestamp.
pub proof fn lemma_row_count(
    ts: Seq<(Seq<char>, Fixed, u64)>,
    cols: Seq<Seq<char>>,
    state: Seq<Option<Fixed>>,
)
    ensures
        row_list(ts, cols, state).len() == ts.len(),
    decreases ts.len(),
{
    if ts.len() > 0 {
        let st2 = state.update(col_index(cols, ts[0].0), Option::Some(ts[0].1));
        lemma_row_count(ts.drop_first(), cols, st2);
    }
}

/// The data rows as one text.
pub open spec fn rows_chars(
    ts: Seq<(Seq<char>, Fixed, u64)>,
    cols: Seq<Seq<char>>,
    state: Seq<Option<Fixed>>,
) -> Seq<char>
    decreases ts.len(),
{
    if ts.len() == 0 {
        Seq::<char>::empty()
    } else {
        let st2 = state.update(col_index(cols, ts[0].0), Option::Some(ts[0].1));
        row_chars(ts[0].2, st2) + rows_chars(ts.drop_first(), cols, st2)
    }
}

/// The rows text is the concatenation of the row list.
pub proof fn lemma_rows_flatten(
    ts: Seq<(Seq<char>, Fixed, u64)>,
    cols: Seq<Seq<char>>,
    state: Seq<Option<Fixed>>,
)
    ensures
        rows_chars(ts, cols, state) == row_list(ts, cols, state).flatten(),
    decreases ts.len(),
{
    if ts.len() == 0 {
        assert(row_list(ts, cols, state).flatten() =~= Seq::<char>::empty());
    } else {
        let st2 = state.update(col_index(cols, ts[0].0), Option::Some(ts[0].1));
        lemma_rows_flatten(ts.drop_first(), cols, st2);
        let l = seq![row_chars(ts[0].2, st2)] + row_list(ts.drop_first(), cols, st2);
        assert(l.drop_first() =~= row_list(ts.drop_first(), cols, st2));
        assert(l.first() == row_chars(ts[0].2, st2));
    }
}

/// The header row: `ts`, then each column key behind a delimiter.
pub open spec fn header_chars(cols: Seq<Seq<char>>) -> Seq<char>
    decreases cols.len(),
{
    if cols.len() == 0 {
        "ts"@
    } else {
        header_chars(cols.drop_last()) + ";"@ + cols.last()
    }
}

/// One more column appends one more delimited key to the header.
pub proof fn lemma_header_step(cols: Seq<Seq<char>>, i: int)
    requires
        0 <= i < cols.len(),
    ensures
        header_chars(cols.take(i + 1)) == header_chars(cols.take(i)) + ";"@ + cols[i],
{
    assert(cols.take(i + 1).drop_last() =~= cols.take(i));
    assert(cols.take(i + 1).last() == cols[i]);
}

/// The blank row state: one unwritten cell per column.
pub open spec fn blank_state(n: nat) -> Seq<Option<Fixed>> {
    Seq::new(n, |i: int| Option::<Fixed>::None)
}

/// The whole CSV document of an event list: the header over the sorted
/// distinct column keys, then one row per counter reading. An event list
/// with no counter events yields the header line alone.
pub open spec fn csv_chars(evs: Seq<BenchDataV>) -> Seq<char> {
    let ts = triples(evs);
    let cols = columns_of(ts);
    header_chars(cols) + "\n"@ + rows_chars(ts, cols, blank_state(cols.len()))
}

/// The pivot table's shape: its column set is exactly the set of distinct
/// `group : field` keys over all counter readings, sorted lexicographically
/// with no duplicate, and it has one data row per reading — not one per
/// counter event, and not de-duplicated by timestamp.
pub proof fn lemma_pivot_shape(evs: Seq<BenchDataV>)
    ensures
        strictly_sorted(columns_of(triples(evs))),
        forall|x: Seq<char>|
            columns_of(triples(evs)).contains(x) <==> (exists|j: int|
                0 <= j < triples(evs).len() && triples(evs)[j].0 == x),
        row_list(
            triples(evs),
            columns_of(triples(evs)),
            blank_state(columns_of(triples(evs)).len()),
        ).len() == triples(evs).len(),
{
    lemma_columns_of_props(triples(evs));
    lemma_row_count(
        triples(evs),
        columns_of(triples(evs)),
        blank_state(columns_of(triples(evs)).len()),
    );
}

/// Nothing precedes itself in the lexicographic order.
pub proof fn lemma_lex_irrefl(a: Seq<char>)
    ensures
        !lex_lt(a, a),
    decreases a.len(),
{
    if a.len() > 0 {
        lemma_lex_irrefl(a.drop_first());
    }
}

/// The views of a sequence of owned strings.
pub open spec fn str_views(s: Seq<String>) -> Seq<Seq<char>> {
    s.map_values(|x: String| x@)
}

/// The views of a sequence of owned readings.
pub open spec fn trip_views(s: Seq<(String, Fixed, u64)>) -> Seq<(Seq<char>, Fixed, u64)> {
    s.map_values(|t: (String, Fixed, u64)| (t.0@, t.1, t.2))
}

/// Where `sorted_insert` puts `k`: at the first position whose key does
/// not precede `k` — unchanged when that position already holds `k`.
pub proof fn lemma_sorted_insert_at(cols: Seq<Seq<char>>, k: Seq<char>, idx: int)
    requires
        strictly_sorted(cols),
        0 <= idx <= cols.len(),
        forall|j: int| 0 <= j < idx ==> lex_lt(cols[j], k),
        idx < cols.len() ==> !lex_lt(cols[idx], k),
    ensures
        (idx < cols.len() && cols[idx] == k) ==> sorted_insert(cols, k) == cols,
        !(idx < cols.len() && cols[idx] == k) ==> sorted_insert(cols, k) == cols.take(idx)
            + seq![k] + cols.skip(idx),
    decreases cols.len(),
{
    if cols.len() == 0 {
        assert(sorted_insert(cols, k) =~= cols.take(0) + seq![k] + cols.skip(0));
    } else if idx == 0 {
        if lex_lt(k, cols[0]) {
            assert(sorted_insert(cols, k) =~= cols.take(0) + seq![k] + cols.skip(0));
        } else if k == cols[0] {
        } else {
            lemma_lex_trichotomy(k, cols[0]);
            assert(false);
        }
    } else {
        assert(lex_lt(cols[0], k));
        if lex_lt(k, cols[0]) {
            lemma_lex_lt_trans(k, cols[0], k);
            lemma_lex_irrefl(k);
            assert(false);
        }
        if k == cols[0] {
            lemma_lex_irrefl(k);
            assert(false);
        }
        let tail = cols.drop_first();
        assert forall|i: int, j: int| 0 <= i < j < tail.len() implies lex_lt(tail[i], tail[j]) by {
            assert(lex_lt(cols[i + 1], cols[j + 1]));
        }
        assert forall|j: int| 0 <= j < idx - 1 implies lex_lt(tail[j], k) by {
            assert(lex_lt(cols[j + 1], k));
        }
        lemma_sorted_insert_at(tail, k, idx - 1);
        assert(sorted_insert(cols, k) == seq![cols[0]] + sorted_insert(tail, k));
        if idx < cols.len() && cols[idx] == k {
            assert(tail[idx - 1] == k);
            assert(sorted_insert(cols, k) =~= cols);
        } else {
            assert(sorted_insert(tail, k) == tail.take(idx - 1) + seq![k] + tail.skip(idx - 1));
            assert(sorted_insert(cols, k) =~= cols.take(idx) + seq![k] + cols.skip(idx));
        }
    }
}

/// Builds the canonical column key of one `(group, field)` pair.
fn build_key(group: &String, field: &String) -> (r: String)
    ensures
        r@ == col_key(group@, field@),
{
    let mut r = String::from_str(group.as_str());
    r.append(" : ");
    r.append(field.as_str());
    proof {
        assert(r@ =~= col_key(group@, field@));
    }
    r
}

/// Inserts a key into the sorted, duplicate-free column list, keeping it
/// sorted and dropping the key when already present.
fn insert_col(cols: &mut Vec<String>, k: &String)
    requires
        strictly_sorted(str_views(old(cols)@)),
    ensures
        str_views(final(cols)@) == sorted_insert(str_views(old(cols)@), k@),
        strictly_sorted(str_views(final(cols)@)),
{
    let ghost cv = str_views(cols@);
    let n = cols.len();
    let mut idx: usize = 0;
    while idx < n && str_lt(cols[idx].as_str(), k.as_str())
        invariant
            idx <= n,
            n == cols@.len(),
            cv == str_views(cols@),
            forall|j: int| 0 <= j < idx ==> lex_lt(cv[j], k@),
        decreases n - idx,
    {
        idx = idx + 1;
    }
    proof {
        lemma_sorted_insert_props(cv, k@);
    }
    if idx < n && !str_lt(k.as_str(), cols[idx].as_str()) {
        proof {
            lemma_lex_trichotomy(cv[idx as int], k@);
            lemma_sorted_insert_at(cv, k@, idx as int);
        }
    } else {
        let kk = k.clone();
        cols.insert(idx, kk);
        proof {
            lemma_sorted_insert_at(cv, k@, idx as int);
            assert(str_views(cols@) =~= cv.take(idx as int) + seq![k@] + cv.skip(idx as int));
        }
    }
}

/// Finds the position of a key known to occur in the column list.
fn find_col(cols: &Vec<String>, k: &String) -> (r: usize)
    requires
        str_views(cols@).contains(k@),
    ensures
        r == col_index(str_views(cols@), k@),
        r < cols@.len(),
        str_views(cols@)[r as int] == k@,
{
    let ghost cv = str_views(cols@);
    proof {
        lemma_col_index_props(cv, k@);
    }
    let ghost ci = col_index(cv, k@);
    let n = cols.len();
    let mut i: usize = 0;
    while i < n
        invariant
            n == cols@.len(),
            cv == str_views(cols@),
            ci == col_index(cv, k@),
            0 <= ci < n,
            cv[ci] == k@,
            forall|j: int| 0 <= j < ci ==> cv[j] != k@,
            i <= ci,
        decreases n - i,
    {
        if cols[i].eq(k) {
            proof {
                assert(cv[i as int] == k@);
                assert(i == ci);
            }
            return i;
        }
        proof {
            assert(cv[i as int] != k@);
            assert(i < ci);
        }
        i = i + 1;
    }
    proof {
        assert(false);
    }
    0
}

/// A row state with one unwritten cell per column.
fn blank_row(n: usize) -> (r: Vec<Option<Fixed>>)
    ensures
        r@ == blank_state(n as nat),
{
    let mut v: Vec<Option<Fixed>> = Vec::new();
    let mut i: usize = 0;
    while i < n
        invariant
            i <= n,
            v@ == blank_state(i as nat),
        decreases n - i,
    {
        v.push(Option::None);
        proof {
            assert(v@ =~= blank_state((i + 1) as nat));
        }
        i = i + 1;
    }
    v
}

/// Extracts every counter reading of the event list, in queue order, as an
/// owned `(column key, value, timestamp)` triple.
fn collect_triples(data: &Vec<BenchData>) -> (r: Vec<(String, Fixed, u64)>)
    ensures
        trip_views(r@) == triples(views_of(data@)),
{
    let ghost evs = views_of(data@);
    let mut trs: Vec<(String, Fixed, u64)> = Vec::new();
    let n = data.len();
    let mut i: usize = 0;
    proof {
        assert(evs.take(0) =~= Seq::<BenchDataV>::empty());
        assert(trip_views(trs@) =~= triples(evs.take(0)));
    }
    while i < n
        invariant
            i <= n,
            n == data@.len(),
            evs == views_of(data@),
            trip_views(trs@) == triples(evs.take(i as int)),
        decreases n - i,
    {
        match &data[i] {
            BenchData::Count { name, ts, tid, data: fields } => {
                let ghost et = event_triples(evs[i as int]);
                let ghost nm = name@;
                let ghost tsv = *ts;
                let ghost dv = fields@.map_values(|p: (String, Fixed)| (p.0@, p.1));
                let m = fields.len();
                let mut j: usize = 0;
                proof {
                    assert(data@[i as int] == BenchData::Count {
                        name: *name,
                        ts: *ts,
                        tid: *tid,
                        data: (*fields),
                    });
                    assert(evs[i as int] == data@[i as int]@);
                    assert(et == dv.map_values(
                        |p: (Seq<char>, Fixed)| (col_key(nm, p.0), p.1, tsv),
                    ));
                    assert forall|q: int| 0 <= q < m implies et[q] == (
                        col_key(nm, fields@[q].0@),
                        fields@[q].1,
                        tsv,
                    ) by {
                        assert(dv[q] == (fields@[q].0@, fields@[q].1));
                    }
                    assert(et.take(0) =~= Seq::<(Seq<char>, Fixed, u64)>::empty());
                    assert(trip_views(trs@) + et.take(0) =~= trip_views(trs@));
                }
                while j < m
                    invariant
                        j <= m,
                        i < n,
                        n == data@.len(),
                        evs == views_of(data@),
                        m == fields@.len(),
                        m == et.len(),
                        nm == name@,
                        tsv == *ts,
                        et == event_triples(evs[i as int]),
                        forall|q: int|
                            0 <= q < m ==> et[q] == (
                                col_key(nm, fields@[q].0@),
                                fields@[q].1,
                                tsv,
                            ),
                        trip_views(trs@) == triples(evs.take(i as int)) + et.take(j as int),
                    decreases m - j,
                {
                    let key = build_key(name, &fields[j].0);
                    let ghost prev = trs@;
                    trs.push((key, fields[j].1, *ts));
                    proof {
                        assert(trip_views(trs@) =~= trip_views(prev).push(
                            (key@, fields@[j as int].1, tsv),
                        ));
                        assert(et[j as int] == (key@, fields@[j as int].1, tsv));
                        assert(et.take(j + 1) =~= et.take(j as int).push(et[j as int]));
                        assert(trip_views(trs@) =~= triples(evs.take(i as int)) + et.take(j + 1));
                    }
                    j = j + 1;
                }
                proof {
                    lemma_triples_step(evs, i as int);
                    assert(et.take(m as int) =~= et);
                    assert(trip_views(trs@) =~= triples(evs.take(i + 1)));
                }
            },
            _ => {
                proof {
                    lemma_triples_step(evs, i as int);
                    assert(evs[i as int] == data@[i as int]@);
                    assert(event_triples(evs[i as int]) =~= Seq::<(Seq<char>, Fixed, u64)>::empty());
                    assert(triples(evs.take(i + 1)) =~= triples(evs.take(i as int)));
                }
            },
        }
        i = i + 1;
    }
    proof {
        assert(evs.take(n as int) =~= evs);
    }
    trs
}

/// Renders the whole CSV document for a drained event list.
pub fn csv_render(data: &Vec<BenchData>) -> (r: String)
    ensures
        r@ == csv_chars(views_of(data@)),
{
    let ghost evs = views_of(data@);
    let trs = collect_triples(data);
    let ghost tv = trip_views(trs@);
    let ntr = trs.len();

    // Column discovery: fold every reading's key into a sorted,
    // duplicate-free list.
    let mut cols: Vec<String> = Vec::new();
    let mut i: usize = 0;
    proof {
        assert(tv.take(0) =~= Seq::<(Seq<char>, Fixed, u64)>::empty());
        assert(str_views(cols@) =~= columns_of(tv.take(0)));
    }
    while i < ntr
        invariant
            i <= ntr,
            ntr == trs@.len(),
            tv == trip_views(trs@),
            str_views(cols@) == columns_of(tv.take(i as int)),
            strictly_sorted(str_views(cols@)),
        decreases ntr - i,
    {
        insert_col(&mut cols, &trs[i].0);
        proof {
            lemma_columns_step(tv, i as int);
            assert(tv[i as int].0 == trs@[i as int].0@);
        }
        i = i + 1;
    }
    proof {
        assert(tv.take(ntr as int) =~= tv);
    }
    let ghost cv = str_views(cols@);
    proof {
        lemma_columns_of_props(tv);
    }

    // Header row.
    let mut out = String::from_str("ts");
    let ncols = cols.len();
    let mut c: usize = 0;
    proof {
        assert(cv.take(0) =~= Seq::<Seq<char>>::empty());
        assert(out@ == header_chars(cv.take(0)));
    }
    while c < ncols
        invariant
            c <= ncols,
            ncols == cols@.len(),
            cv == str_views(cols@),
            out@ == header_chars(cv.take(c as int)),
        decreases ncols - c,
    {
        out.append(";");
        out.append(cols[c].as_str());
        proof {
            lemma_header_step(cv, c as int);
            assert(out@ =~= header_chars(cv.take(c + 1)));
        }
        c = c + 1;
    }
    out.append("\n");
    proof {
        assert(cv.take(ncols as int) =~= cv);
    }

    // Data rows: one per reading, carrying the last known value of every
    // column forward.
    let mut state = blank_row(ncols);
    let ghost total = header_chars(cv) + "\n"@ + rows_chars(tv, cv, blank_state(ncols as nat));
    let mut k: usize = 0;
    proof {
        assert(tv.skip(0) =~= tv);
        assert(out@ =~= header_chars(cv) + "\n"@);
    }
    while k < ntr
        invariant
            k <= ntr,
            ntr == trs@.len(),
            tv == trip_views(trs@),
            cv == str_views(cols@),
            ncols == cols@.len(),
            state@.len() == ncols,
            strictly_sorted(cv),
            forall|x: Seq<char>|
                cv.contains(x) <==> (exists|j: int| 0 <= j < tv.len() && tv[j].0 == x),
            out@ + rows_chars(tv.skip(k as int), cv, state@) == total,
        decreases ntr - k,
    {
        proof {
            assert(cv.contains(tv[k as int].0)) by {
                assert(tv[k as int].0 == tv[k as int].0);
            }
        }
        let idx = find_col(&cols, &trs[k].0);
        proof {
            assert(trs@[k as int].0@ == tv[k as int].0);
        }
        let ghost pre = state@;
        state.set(idx, Option::Some(trs[k].1));
        let ghost st2 = state@;
        let ghost rowpre = out@;
        push_dec_u64(&mut out, trs[k].2);
        let mut c2: usize = 0;
        proof {
            assert(st2.take(0) =~= Seq::<Option<Fixed>>::empty());
            assert(out@ =~= rowpre + dec_chars(trs@[k as int].2 as nat) + cells_chars(st2.take(0)));
        }
        while c2 < ncols
            invariant
                c2 <= ncols,
                ncols == state@.len(),
                st2 == state@,
                tv == trip_views(trs@),
                k < trs@.len(),
                ntr == trs@.len(),
                out@ == rowpre + dec_chars(trs@[k as int].2 as nat) + cells_chars(
                    st2.take(c2 as int),
                ),
            decreases ncols - c2,
        {
            out.append(";");
            match state[c2] {
                Option::Some(v) => {
                    proof {
                        reveal_strlit(",");
                    }
                    push_fixed(&mut out, v, ",");
                },
                Option::None => {},
            }
            proof {
                lemma_cells_step(st2, c2 as int);
                assert(out@ =~= rowpre + dec_chars(trs@[k as int].2 as nat) + cells_chars(
                    st2.take(c2 + 1),
                ));
            }
            c2 = c2 + 1;
        }
        out.append("\n");
        proof {
            assert(st2.take(ncols as int) =~= st2);
            assert(out@ =~= rowpre + row_chars(tv[k as int].2, st2));
            assert(tv.skip(k as int)[0] == tv[k as int]);
            assert(tv.skip(k as int).drop_first() =~= tv.skip(k + 1));
            assert(st2 == pre.update(col_index(cv, tv[k as int].0), Option::Some(tv[k as int].1)));
            assert(rows_chars(tv.skip(k as int), cv, pre) == row_chars(tv[k as int].2, st2)
                + rows_chars(tv.skip(k + 1), cv, st2));
            assert(out@ + rows_chars(tv.skip(k + 1), cv, st2) =~= rowpre + rows_chars(
                tv.skip(k as int),
                cv,
                pre,
            ));
        }
        k = k + 1;
    }
    proof {
        assert(tv.skip(ntr as int) =~= Seq::<(Seq<char>, Fixed, u64)>::empty());
        assert(out@ =~= total);
        assert(total =~= csv_chars(evs));
    }
    out
}

} // verus!
