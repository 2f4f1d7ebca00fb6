//! The time-series writer: batches grouped by destination table, a
//! homogeneous column set taken from each batch's first point, chunked
//! parameterized inserts, and the invalidation of stale volatile
//! ranges.
//!
//! Destination state is modelled as a map from natural key to row; a
//! run deletes the volatile (`_n`-suffixed) keys and then upserts the
//! new points, which makes a full recompute idempotent.

use vstd::prelude::*;
use vstd::map::*;
use crate::num::Decimal;
use crate::points::{FieldValue, FvView, TsPoint, PtView, pt_view, fv_view};
use crate::ranges::ends_in_underscore_n;
use crate::text::{dec_text_of, u64_to_text};
use crate::timeutil::{hour_floor, hour_start};
use vstd::string::StringExecFns;

verus! {

// ------------------------------------------------------------------
// The destination model and its laws.
// ------------------------------------------------------------------
/// Remove every volatile (now-anchored) row.
pub open spec fn delete_stale<V>(table: Map<Seq<char>, V>) -> Map<Seq<char>, V> {
    Map::new(
        |k: Seq<char>| table.dom().contains(k) && !ends_in_underscore_n(k),
        |k: Seq<char>| table[k],
    )
}

/// Insert the rows in order; a later row with the same key replaces an
/// earlier one.
pub open spec fn upsert_all<V>(table: Map<Seq<char>, V>, pts: Seq<(Seq<char>, V)>) -> Map<
    Seq<char>,
    V,
>
    decreases pts.len(),
{
    if pts.len() == 0 {
        table
    } else {
        upsert_all(table.insert(pts[0].0, pts[0].1), pts.drop_first())
    }
}

/// One materialization run: delete the stale volatile rows, then write
/// the new points by key.
pub open spec fn materialize_table<V>(table: Map<Seq<char>, V>, pts: Seq<(Seq<char>, V)>) -> Map<
    Seq<char>,
    V,
> {
    upsert_all(delete_stale(table), pts)
}

/// The value of the last point with key `k`.
pub open spec fn last_val_of<V>(pts: Seq<(Seq<char>, V)>, k: Seq<char>) -> V
    recommends
        exists|i: int| 0 <= i < pts.len() && (#[trigger] pts[i].0) == k,
    decreases pts.len(),
{
    if pts.len() > 0 && pts.last().0 == k {
        pts.last().1
    } else if pts.len() > 0 {
        last_val_of(pts.drop_last(), k)
    } else {
        arbitrary()
    }
}

pub open spec fn has_key<V>(pts: Seq<(Seq<char>, V)>, k: Seq<char>) -> bool {
    exists|i: int| 0 <= i < pts.len() && (#[trigger] pts[i].0) == k
}

/// What a key maps to after upserting: the last written value, or what
/// the table already held.
pub proof fn lemma_upsert_all_lookup<V>(table: Map<Seq<char>, V>, pts: Seq<(Seq<char>, V)>, k: Seq<char>)
    ensures
        upsert_all(table, pts).dom().contains(k) <==> (table.dom().contains(k) || has_key(pts, k)),
        has_key(pts, k) ==> upsert_all(table, pts)[k] == last_val_of(pts, k),
        !has_key(pts, k) && table.dom().contains(k) ==> upsert_all(table, pts)[k] == table[k],
    decreases pts.len(),
{
    if pts.len() == 0 {
        assert(!has_key(pts, k));
    } else {
        let t1 = table.insert(pts[0].0, pts[0].1);
        let rest = pts.drop_first();
        lemma_upsert_all_lookup(t1, rest, k);
        assert forall|i: int| 0 <= i < rest.len() implies rest[i] == pts[i + 1] by {}
        if has_key(pts, k) {
            if has_key(rest, k) {
                lemma_last_val_step(pts, k);
            } else {
                let w = choose|i: int| 0 <= i < pts.len() && (#[trigger] pts[i].0) == k;
                if w > 0 {
                    assert(rest[w - 1].0 == k);
                    assert(has_key(rest, k));
                }
                assert(pts[0].0 == k);
                assert(t1[k] == pts[0].1);
                lemma_last_val_only_first(pts, k);
            }
        } else {
            assert(pts[0].0 != k);
            if has_key(rest, k) {
                let w = choose|i: int| 0 <= i < rest.len() && (#[trigger] rest[i].0) == k;
                assert(pts[w + 1].0 == k);
            }
            assert(!has_key(rest, k));
        }
    }
}

/// With an occurrence in the tail, the last value comes from the tail.
proof fn lemma_last_val_step<V>(pts: Seq<(Seq<char>, V)>, k: Seq<char>)
    requires
        pts.len() > 0,
        has_key(pts.drop_first(), k),
    ensures
        last_val_of(pts, k) == last_val_of(pts.drop_first(), k),
    decreases pts.len(),
{
    let rest = pts.drop_first();
    if pts.last().0 == k {
        assert(rest.last() == pts.last());
    } else {
        if rest.len() == 1 {
            let w = choose|i: int| 0 <= i < rest.len() && (#[trigger] rest[i].0) == k;
            assert(rest[0].0 == k);
            assert(rest.last().0 == k);
        } else {
            assert forall|i: int| 0 <= i < rest.drop_last().len() implies rest.drop_last()[i]
                == pts.drop_last().drop_first()[i] by {}
            assert(rest.drop_last() =~= pts.drop_last().drop_first());
            let w = choose|i: int| 0 <= i < rest.len() && (#[trigger] rest[i].0) == k;
            if w < rest.len() - 1 {
                assert(pts.drop_last().drop_first()[w].0 == k);
                assert(has_key(pts.drop_last().drop_first(), k));
                lemma_last_val_step(pts.drop_last(), k);
            } else {
                assert(rest.last().0 == k);
            }
        }
    }
}

/// With the only occurrence at the head, the last value is the head's.
proof fn lemma_last_val_only_first<V>(pts: Seq<(Seq<char>, V)>, k: Seq<char>)
    requires
        pts.len() > 0,
        pts[0].0 == k,
        !has_key(pts.drop_first(), k),
    ensures
        last_val_of(pts, k) == pts[0].1,
    decreases pts.len(),
{
    if pts.len() == 1 {
        assert(pts.last() == pts[0]);
    } else {
        assert(pts.last() == pts.drop_first()[pts.len() - 2]);
        assert(pts.last().0 != k);
        assert(pts.drop_last()[0] == pts[0]);
        assert forall|i: int| 0 <= i < pts.drop_last().drop_first().len() implies pts.drop_last()
            .drop_first()[i] == pts.drop_first()[i] by {}
        if has_key(pts.drop_last().drop_first(), k) {
            let w = choose|i: int|
                0 <= i < pts.drop_last().drop_first().len() && (#[trigger] pts.drop_last()
                    .drop_first()[i].0) == k;
            assert(pts.drop_first()[w].0 == k);
        }
        lemma_last_val_only_first(pts.drop_last(), k);
    }
}

/// Law: after a run, every volatile (`_n`-suffixed) row present came
/// from that run's points; no stale volatile row survives.
pub proof fn lemma_no_stale_volatile_rows<V>(
    table: Map<Seq<char>, V>,
    pts: Seq<(Seq<char>, V)>,
    k: Seq<char>,
)
    requires
        ends_in_underscore_n(k),
        materialize_table(table, pts).dom().contains(k),
    ensures
        has_key(pts, k),
        materialize_table(table, pts)[k] == last_val_of(pts, k),
{
    lemma_upsert_all_lookup(delete_stale(table), pts, k);
    assert(!delete_stale(table).dom().contains(k));
}

/// Law: a full materialization is idempotent.  Running the same points
/// against the result of a run changes nothing.
pub proof fn lemma_materialize_idempotent<V>(table: Map<Seq<char>, V>, pts: Seq<(Seq<char>, V)>)
    ensures
        materialize_table(materialize_table(table, pts), pts) == materialize_table(table, pts),
{
    let m1 = materialize_table(table, pts);
    let m2 = materialize_table(m1, pts);
    assert forall|k: Seq<char>| #[trigger]
        m1.dom().contains(k) implies m2.dom().contains(k) && m2[k] == m1[k] by {
        lemma_upsert_all_lookup(delete_stale(table), pts, k);
        lemma_upsert_all_lookup(delete_stale(m1), pts, k);
    }
    assert forall|k: Seq<char>| #[trigger] m2.dom().contains(k) implies m1.dom().contains(k) by {
        lemma_upsert_all_lookup(delete_stale(table), pts, k);
        lemma_upsert_all_lookup(delete_stale(m1), pts, k);
    }
    assert(m1 =~= m2);
}

// ------------------------------------------------------------------
// Parameterized statements.
// ------------------------------------------------------------------
/// A value bound to a statement placeholder: an instant, text, an exact
/// decimal, a flag, or null.
#[derive(Debug)]
pub enum SqlValue {
    Ts(i64),
    Txt(String),
    Num(Decimal),
    Flag(bool),
    Null,
}

/// What a bound value holds, as mathematical values.
pub enum SvView {
    Ts(int),
    Txt(Seq<char>),
    Num(Decimal),
    Flag(bool),
    Null,
}

pub open spec fn sv_view(v: SqlValue) -> SvView {
    match v {
        SqlValue::Ts(t) => SvView::Ts(t as int),
        SqlValue::Txt(s) => SvView::Txt(s@),
        SqlValue::Num(d) => SvView::Num(d),
        SqlValue::Flag(b) => SvView::Flag(b),
        SqlValue::Null => SvView::Null,
    }
}

/// A statement ready for a relational executor: SQL text with
/// one-based placeholders, and the values to bind.
#[derive(Debug)]
pub struct InsertStatement {
    pub sql: String,
    pub params: Vec<SqlValue>,
}

/// The destination table of a series: the fixed prefix plus its name.
pub fn table_of(series: &str) -> (r: String)
    ensures
        r@ == "t"@ + series@,
{
    let mut r = String::from_str("t");
    r.append(series);
    r
}

/// Delete every volatile quick range: rows whose suffix column ends in
/// `_n`.  (In the `LIKE` pattern the underscore matches any character,
/// but every volatile suffix the engine emits ends in a literal `_n`
/// and no fixed one ends in `n` at all.)
pub fn stale_ranges_delete_sql(table: &str, column: &str) -> (r: String)
    ensures
        r@ == "DELETE FROM \""@ + table@ + "\" WHERE \""@ + column@ + "\" LIKE '%_n'"@,
{
    let mut r = String::from_str("DELETE FROM \"");
    r.append(table);
    r.append("\" WHERE \"");
    r.append(column);
    r.append("\" LIKE '%_n'");
    r
}

/// The column names of a batch, fixed by its first point: the event
/// time, its hour bucket, then one column per tag key and per field key.
pub open spec fn insert_columns(sample: PtView) -> Seq<Seq<char>> {
    seq!["time"@, "time_hour"@] + (match sample.tags {
        Some(t) => t.map_values(|kv: (Seq<char>, Seq<char>)| kv.0),
        None => Seq::empty(),
    }) + (match sample.fields {
        Some(f) => f.map_values(|kv: (Seq<char>, FvView)| kv.0),
        None => Seq::empty(),
    })
}

/// The first value stored under `k`, or the default.
pub open spec fn assoc_tag(s: Seq<(Seq<char>, Seq<char>)>, k: Seq<char>) -> Seq<char>
    decreases s.len(),
{
    if s.len() == 0 {
        Seq::empty()
    } else if s[0].0 == k {
        s[0].1
    } else {
        assoc_tag(s.drop_first(), k)
    }
}

pub open spec fn assoc_field(s: Seq<(Seq<char>, FvView)>, k: Seq<char>) -> FvView
    decreases s.len(),
{
    if s.len() == 0 {
        FvView::Null
    } else if s[0].0 == k {
        s[0].1
    } else {
        assoc_field(s.drop_first(), k)
    }
}

pub open spec fn sv_of_field(v: FvView) -> SvView {
    match v {
        FvView::Txt(s) => SvView::Txt(s),
        FvView::Num(d) => SvView::Num(d),
        FvView::Flag(b) => SvView::Flag(b),
        FvView::Null => SvView::Null,
    }
}

/// The text a point stores under a tag key: the first value, or empty.
pub open spec fn view_tag_value(tags: Option<Seq<(Seq<char>, Seq<char>)>>, k: Seq<char>) -> Seq<
    char,
> {
    match tags {
        Some(t) => assoc_tag(t, k),
        None => Seq::empty(),
    }
}

/// The value a point stores under a field key: the first value, or null.
pub open spec fn view_field_value(fields: Option<Seq<(Seq<char>, FvView)>>, k: Seq<char>) -> FvView {
    match fields {
        Some(f) => assoc_field(f, k),
        None => FvView::Null,
    }
}

/// The bound values of one point, in the column order of the batch's
/// sample point: the event time, its hour bucket, the point's value for
/// each sample tag key (empty text if absent), and its value for each
/// sample field key (null if absent).
pub open spec fn point_params(sample: PtView, p: PtView) -> Seq<SvView> {
    seq![SvView::Ts(p.time), SvView::Ts(hour_floor(p.time))] + (match sample.tags {
        Some(keys) => keys.map_values(
            |kv: (Seq<char>, Seq<char>)| SvView::Txt(view_tag_value(p.tags, kv.0)),
        ),
        None => Seq::empty(),
    }) + (match sample.fields {
        Some(keys) => keys.map_values(
            |kv: (Seq<char>, FvView)| sv_of_field(view_field_value(p.fields, kv.0)),
        ),
        None => Seq::empty(),
    })
}

/// The bound values of rows `a..b`, flattened in row order.
pub open spec fn chunk_params(sample: PtView, pts: Seq<PtView>, a: int, b: int) -> Seq<SvView>
    decreases b - a,
{
    if a < 0 || a >= b || b > pts.len() {
        Seq::empty()
    } else {
        point_params(sample, pts[a]) + chunk_params(sample, pts, a + 1, b)
    }
}

pub open spec fn quoted_ident(name: Seq<char>) -> Seq<char> {
    "\""@ + name + "\""@
}

/// `"c1", "c2", ...` from index `i` on.
pub open spec fn column_list_text(cols: Seq<Seq<char>>, i: int) -> Seq<char>
    decreases cols.len() - i,
{
    if i < 0 || i >= cols.len() {
        Seq::empty()
    } else if i == cols.len() - 1 {
        quoted_ident(cols[i])
    } else {
        quoted_ident(cols[i]) + ", "@ + column_list_text(cols, i + 1)
    }
}

/// `$start, $start+1, ...` with `count` placeholders.
pub open spec fn params_list_text(start: int, count: int) -> Seq<char>
    decreases count,
{
    if count <= 0 {
        Seq::empty()
    } else if count == 1 {
        "$"@ + dec_text_of(start)
    } else {
        "$"@ + dec_text_of(start) + ", "@ + params_list_text(start + 1, count - 1)
    }
}

/// `($..), ($..), ...`: one parenthesized group of `ncols` placeholders
/// per row, numbered consecutively from `start`.
pub open spec fn values_groups_text(start: int, ncols: int, nrows: int) -> Seq<char>
    decreases nrows,
{
    if nrows <= 0 {
        Seq::empty()
    } else if nrows == 1 {
        "("@ + params_list_text(start, ncols) + ")"@
    } else {
        "("@ + params_list_text(start, ncols) + ")"@ + ", "@ + values_groups_text(
            start + ncols,
            ncols,
            nrows - 1,
        )
    }
}

/// The text of a chunked insert.
pub open spec fn insert_sql_text(table: Seq<char>, cols: Seq<Seq<char>>, nrows: int) -> Seq<char> {
    "INSERT INTO "@ + quoted_ident(table) + " ("@ + column_list_text(cols, 0) + ") VALUES "@
        + values_groups_text(1, cols.len() as int, nrows)
}

/// The column names of a batch led by `sample`.
pub fn batch_columns(sample: &TsPoint) -> (r: Vec<String>)
    ensures
        r@.map_values(|c: String| c@) == insert_columns(pt_view(*sample)),
{
    let mut cols: Vec<String> = Vec::new();
    cols.push(String::from_str("time"));
    cols.push(String::from_str("time_hour"));
    proof {
        assert(cols@.map_values(|c: String| c@) =~= seq!["time"@, "time_hour"@]);
    }
    match &sample.tags {
        Some(tags) => {
            let ghost expected = tags@.map_values(|kv: (String, String)| kv.0@);
            let n: usize = tags.len();
            let mut i: usize = 0;
            proof {
                assert(seq!["time"@, "time_hour"@] + expected.subrange(0, 0) =~= seq![
                    "time"@,
                    "time_hour"@,
                ]);
            }
            while i < n
                invariant
                    i <= n,
                    n == tags@.len(),
                    expected == tags@.map_values(|kv: (String, String)| kv.0@),
                    cols@.map_values(|c: String| c@) == seq!["time"@, "time_hour"@]
                        + expected.subrange(0, i as int),
                decreases n - i,
            {
                let ghost pre = cols@.map_values(|c: String| c@);
                cols.push(tags[i].0.clone());
                proof {
                    assert(expected[i as int] == tags@[i as int].0@);
                    assert(cols@.map_values(|c: String| c@) =~= pre.push(expected[i as int]));
                    assert(pre.push(expected[i as int]) =~= seq!["time"@, "time_hour"@]
                        + expected.subrange(0, i + 1 as int));
                }
                i = i + 1;
            }
            proof {
                assert(expected.subrange(0, n as int) =~= expected);
            }
        },
        None => {},
    }
    let ghost after_tags = cols@.map_values(|c: String| c@);
    match &sample.fields {
        Some(fields) => {
            let ghost expected = fields@.map_values(|kv: (String, FieldValue)| kv.0@);
            let n: usize = fields.len();
            let mut i: usize = 0;
            proof {
                assert(after_tags + expected.subrange(0, 0) =~= after_tags);
            }
            while i < n
                invariant
                    i <= n,
                    n == fields@.len(),
                    expected == fields@.map_values(|kv: (String, FieldValue)| kv.0@),
                    cols@.map_values(|c: String| c@) == after_tags + expected.subrange(
                        0,
                        i as int,
                    ),
                decreases n - i,
            {
                let ghost pre = cols@.map_values(|c: String| c@);
                cols.push(fields[i].0.clone());
                proof {
                    assert(expected[i as int] == fields@[i as int].0@);
                    assert(cols@.map_values(|c: String| c@) =~= pre.push(expected[i as int]));
                    assert(pre.push(expected[i as int]) =~= after_tags + expected.subrange(
                        0,
                        i + 1 as int,
                    ));
                }
                i = i + 1;
            }
            proof {
                assert(expected.subrange(0, n as int) =~= expected);
            }
        },
        None => {},
    }
    proof {
        assert(cols@.map_values(|c: String| c@) =~= insert_columns(pt_view(*sample)));
    }
    cols
}

/// The first value stored under `key`, or empty text.
fn lookup_tag(p: &TsPoint, key: &String) -> (r: String)
    ensures
        r@ == view_tag_value(pt_view(*p).tags, key@),
{
    match &p.tags {
        None => String::new(),
        Some(t) => {
            let ghost gv = t@.map_values(|kv: (String, String)| (kv.0@, kv.1@));
            let n: usize = t.len();
            let mut i: usize = 0;
            proof {
                assert(pt_view(*p).tags == Some(gv));
                assert(gv.skip(0) =~= gv);
            }
            while i < n
                invariant
                    i <= n,
                    n == t@.len(),
                    gv == t@.map_values(|kv: (String, String)| (kv.0@, kv.1@)),
                    pt_view(*p).tags == Some(gv),
                    assoc_tag(gv, key@) == assoc_tag(gv.skip(i as int), key@),
                decreases n - i,
            {
                proof {
                    assert(gv.skip(i as int)[0] == gv[i as int]);
                    assert(gv.skip(i as int).drop_first() =~= gv.skip(i + 1 as int));
                }
                if t[i].0.eq(key) {
                    return t[i].1.clone();
                }
                i = i + 1;
            }
            proof {
                assert(gv.skip(n as int).len() == 0);
            }
            String::new()
        },
    }
}

/// The first value stored under `key`, or null.
fn lookup_field(p: &TsPoint, key: &String) -> (r: FieldValue)
    ensures
        fv_view(r) == view_field_value(pt_view(*p).fields, key@),
{
    match &p.fields {
        None => FieldValue::Null,
        Some(f) => {
            let ghost gv = f@.map_values(|kv: (String, FieldValue)| (kv.0@, fv_view(kv.1)));
            let n: usize = f.len();
            let mut i: usize = 0;
            proof {
                assert(pt_view(*p).fields == Some(gv));
                assert(gv.skip(0) =~= gv);
            }
            while i < n
                invariant
                    i <= n,
                    n == f@.len(),
                    gv == f@.map_values(|kv: (String, FieldValue)| (kv.0@, fv_view(kv.1))),
                    pt_view(*p).fields == Some(gv),
                    assoc_field(gv, key@) == assoc_field(gv.skip(i as int), key@),
                decreases n - i,
            {
                proof {
                    assert(gv.skip(i as int)[0] == gv[i as int]);
                    assert(gv.skip(i as int).drop_first() =~= gv.skip(i + 1 as int));
                }
                if f[i].0.eq(key) {
                    return f[i].1.duplicate();
                }
                i = i + 1;
            }
            proof {
                assert(gv.skip(n as int).len() == 0);
            }
            FieldValue::Null
        },
    }
}

fn field_to_sql(v: FieldValue) -> (r: SqlValue)
    ensures
        sv_view(r) == sv_of_field(fv_view(v)),
{
    match v {
        FieldValue::Txt(s) => SqlValue::Txt(s),
        FieldValue::Num(d) => SqlValue::Num(d),
        FieldValue::Flag(b) => SqlValue::Flag(b),
        FieldValue::Null => SqlValue::Null,
    }
}

/// The bound values of one point, in the sample's column order.
fn point_param_values(sample: &TsPoint, p: &TsPoint) -> (r: Vec<SqlValue>)
    requires
        0 <= p.time,
    ensures
        r@.map_values(|v: SqlValue| sv_view(v)) == point_params(pt_view(*sample), pt_view(*p)),
{
    let mut out: Vec<SqlValue> = Vec::new();
    out.push(SqlValue::Ts(p.time));
    out.push(SqlValue::Ts(hour_start(p.time)));
    match &sample.tags {
        Some(keys) => {
            let n: usize = keys.len();
            let ghost gkeys = keys@.map_values(|kv: (String, String)| (kv.0@, kv.1@));
            let mut i: usize = 0;
            while i < n
                invariant
                    i <= n,
                    n == keys@.len(),
                    gkeys == keys@.map_values(|kv: (String, String)| (kv.0@, kv.1@)),
                    0 <= p.time,
                    out@.map_values(|v: SqlValue| sv_view(v)) =~= seq![
                        SvView::Ts(p.time as int),
                        SvView::Ts(hour_floor(p.time as int)),
                    ] + gkeys.subrange(0, i as int).map_values(
                        |kv: (Seq<char>, Seq<char>)| SvView::Txt(
                            view_tag_value(pt_view(*p).tags, kv.0),
                        ),
                    ),
                decreases n - i,
            {
                let tagv = lookup_tag(p, &keys[i].0);
                proof {
                    assert(gkeys[i as int].0 == keys@[i as int].0@);
                    assert(tagv@ == view_tag_value(pt_view(*p).tags, gkeys[i as int].0));
                }
                let ghost pre = out@.map_values(|v: SqlValue| sv_view(v));
                out.push(SqlValue::Txt(tagv));
                proof {
                    assert(out@.map_values(|v: SqlValue| sv_view(v)) =~= pre.push(
                        SvView::Txt(tagv@),
                    ));
                    assert(pre.push(SvView::Txt(tagv@)) =~= seq![
                        SvView::Ts(p.time as int),
                        SvView::Ts(hour_floor(p.time as int)),
                    ] + gkeys.subrange(0, i + 1 as int).map_values(
                        |kv: (Seq<char>, Seq<char>)| SvView::Txt(
                            view_tag_value(pt_view(*p).tags, kv.0),
                        ),
                    ));
                }
                i = i + 1;
            }
            proof {
                assert(gkeys.subrange(0, n as int) =~= gkeys);
            }
        },
        None => {},
    }
    let ghost after_tags = out@.map_values(|v: SqlValue| sv_view(v));
    match &sample.fields {
        Some(keys) => {
            let n: usize = keys.len();
            let ghost gkeys = keys@.map_values(|kv: (String, FieldValue)| (kv.0@, fv_view(kv.1)));
            let mut i: usize = 0;
            while i < n
                invariant
                    i <= n,
                    n == keys@.len(),
                    gkeys == keys@.map_values(|kv: (String, FieldValue)| (kv.0@, fv_view(kv.1))),
                    out@.map_values(|v: SqlValue| sv_view(v)) =~= after_tags + gkeys.subrange(
                        0,
                        i as int,
                    ).map_values(
                        |kv: (Seq<char>, FvView)| sv_of_field(
                            view_field_value(pt_view(*p).fields, kv.0),
                        ),
                    ),
                decreases n - i,
            {
                let fieldv = lookup_field(p, &keys[i].0);
                proof {
                    assert(gkeys[i as int].0 == keys@[i as int].0@);
                    assert(fv_view(fieldv) == view_field_value(
                        pt_view(*p).fields,
                        gkeys[i as int].0,
                    ));
                }
                let ghost pre = out@.map_values(|v: SqlValue| sv_view(v));
                let ghost fvv = fv_view(fieldv);
                out.push(field_to_sql(fieldv));
                proof {
                    assert(out@.map_values(|v: SqlValue| sv_view(v)) =~= pre.push(
                        sv_of_field(fvv),
                    ));
                    assert(pre.push(sv_of_field(fvv)) =~= after_tags + gkeys.subrange(
                        0,
                        i + 1 as int,
                    ).map_values(
                        |kv: (Seq<char>, FvView)| sv_of_field(
                            view_field_value(pt_view(*p).fields, kv.0),
                        ),
                    ));
                }
                i = i + 1;
            }
            proof {
                assert(gkeys.subrange(0, n as int) =~= gkeys);
            }
        },
        None => {},
    }
    proof {
        assert(out@.map_values(|v: SqlValue| sv_view(v)) =~= point_params(
            pt_view(*sample),
            pt_view(*p),
        ));
    }
    out
}

/// `"c1", "c2", ...` for the whole column list.
fn column_list(cols: &Vec<String>) -> (r: String)
    requires
        cols@.len() >= 1,
    ensures
        r@ == column_list_text(cols@.map_values(|c: String| c@), 0),
{
    let ghost gcols = cols@.map_values(|c: String| c@);
    let n: usize = cols.len();
    let mut out = String::new();
    let mut i: usize = 0;
    proof {
        assert(Seq::<char>::empty() + column_list_text(gcols, 0) =~= column_list_text(gcols, 0));
    }
    while i < n
        invariant
            i <= n,
            n == cols@.len(),
            n >= 1,
            gcols == cols@.map_values(|c: String| c@),
            column_list_text(gcols, 0) == out@ + column_list_text(gcols, i as int),
        decreases n - i,
    {
        proof {
            assert(gcols[i as int] == cols@[i as int]@);
        }
        out.append("\"");
        out.append(cols[i].as_str());
        out.append("\"");
        if i < n - 1 {
            out.append(", ");
        }
        i = i + 1;
    }
    proof {
        assert(column_list_text(gcols, n as int) =~= Seq::<char>::empty());
        assert(out@ + Seq::<char>::empty() =~= out@);
    }
    out
}

/// `($s, ...), ($s+ncols, ...), ...`: the placeholder groups of `nrows`
/// rows of `ncols` columns, numbered from one.
fn values_groups(nrows: usize, ncols: usize) -> (r: String)
    requires
        nrows >= 1,
        ncols >= 1,
        nrows * ncols + 1 <= 0x1000_0000,
    ensures
        r@ == values_groups_text(1, ncols as int, nrows as int),
{
    let mut out = String::new();
    let mut row: usize = 0;
    let mut start: usize = 1;
    proof {
        assert(Seq::<char>::empty() + values_groups_text(1, ncols as int, nrows as int)
            =~= values_groups_text(1, ncols as int, nrows as int));
        assert(nrows * ncols >= 0) by (nonlinear_arith)
            requires
                nrows >= 1,
                ncols >= 1,
        ;
    }
    while row < nrows
        invariant
            row <= nrows,
            nrows >= 1,
            ncols >= 1,
            nrows * ncols + 1 <= 0x1000_0000,
            start == 1 + row * ncols,
            values_groups_text(1, ncols as int, nrows as int) == out@ + values_groups_text(
                start as int,
                ncols as int,
                (nrows - row) as int,
            ),
        decreases nrows - row,
    {
        proof {
            assert((row + 1) * ncols <= nrows * ncols) by (nonlinear_arith)
                requires
                    row < nrows,
                    ncols >= 1,
            ;
            assert(row * ncols >= 0) by (nonlinear_arith)
                requires
                    row >= 0,
                    ncols >= 1,
            ;
            assert((row + 1) * ncols == row * ncols + ncols) by (nonlinear_arith);
            assert(start + ncols <= nrows * ncols + 1);
        }
        out.append("(");
        let ghost group_start = out@;
        let mut j: usize = 0;
        let mut cur: usize = start;
        proof {
            assert(group_start + Seq::<char>::empty() =~= group_start);
        }
        while j < ncols
            invariant
                j <= ncols,
                ncols >= 1,
                cur == start + j,
                start + ncols <= 0x1000_0000,
                group_start + params_list_text(start as int, ncols as int) == out@
                    + params_list_text(cur as int, (ncols - j) as int),
            decreases ncols - j,
        {
            out.append("$");
            let num = u64_to_text(cur as u64);
            out.append(num.as_str());
            if j < ncols - 1 {
                out.append(", ");
            }
            cur = cur + 1;
            j = j + 1;
        }
        proof {
            assert(out@ + Seq::<char>::empty() =~= out@);
            assert(out@ == group_start + params_list_text(start as int, ncols as int));
        }
        out.append(")");
        if row < nrows - 1 {
            out.append(", ");
        }
        proof {
            assert(start + ncols == 1 + (row + 1) * ncols) by (nonlinear_arith)
                requires
                    start == 1 + row * ncols,
            ;
        }
        start = start + ncols;
        row = row + 1;
    }
    proof {
        assert(out@ + Seq::<char>::empty() =~= out@);
    }
    out
}

/// Points whose event time the writer can bucket.
pub open spec fn all_times_ok(pts: Seq<TsPoint>) -> bool {
    forall|i: int| 0 <= i < pts.len() ==> 0 <= (#[trigger] pts[i]).time
}

/// The points of one series, in batch order.
pub open spec fn series_points(pts: Seq<PtView>, series: Seq<char>) -> Seq<PtView> {
    pts.filter(|p: PtView| p.name == series)
}

/// Keep the points destined for one series, so that each physical
/// insert holds one table's rows.
pub fn points_of_series(pts: &Vec<TsPoint>, series: &String) -> (r: Vec<TsPoint>)
    ensures
        r@.map_values(|p: TsPoint| pt_view(p)) == series_points(
            pts@.map_values(|p: TsPoint| pt_view(p)),
            series@,
        ),
{
    let ghost views = pts@.map_values(|p: TsPoint| pt_view(p));
    let n: usize = pts.len();
    let mut out: Vec<TsPoint> = Vec::new();
    let mut i: usize = 0;
    proof {
        reveal(Seq::filter);
        assert(views.subrange(0, 0).filter(|p: PtView| p.name == series@) =~= Seq::<
            PtView,
        >::empty());
        assert(out@.map_values(|p: TsPoint| pt_view(p)) =~= Seq::<PtView>::empty());
    }
    while i < n
        invariant
            i <= n,
            n == pts@.len(),
            views == pts@.map_values(|p: TsPoint| pt_view(p)),
            out@.map_values(|p: TsPoint| pt_view(p)) == views.subrange(0, i as int).filter(
                |p: PtView| p.name == series@,
            ),
        decreases n - i,
    {
        proof {
            reveal(Seq::filter);
            assert(views.subrange(0, i + 1 as int).drop_last() =~= views.subrange(0, i as int));
            assert(views.subrange(0, i + 1 as int).last() == views[i as int]);
            assert(views[i as int] == pt_view(pts@[i as int]));
        }
        if pts[i].name.eq(series) {
            let ghost pre = out@.map_values(|p: TsPoint| pt_view(p));
            out.push(pts[i].duplicate());
            proof {
                assert(out@.map_values(|p: TsPoint| pt_view(p)) =~= pre.push(
                    pt_view(pts@[i as int]),
                ));
            }
        }
        i = i + 1;
    }
    proof {
        assert(views.subrange(0, n as int) =~= views);
    }
    out
}

/// The number of columns of a batch led by `sample`.
pub open spec fn ncols_of(sample: PtView) -> int {
    insert_columns(sample).len() as int
}

/// The parameterized insert for rows `a..b` of a batch, with the column
/// set of row `a`.
pub fn chunk_insert_statement(table: &str, pts: &Vec<TsPoint>, a: usize, b: usize) -> (r:
    InsertStatement)
    requires
        a < b <= pts@.len(),
        all_times_ok(pts@),
        (b - a) * ncols_of(pt_view(pts@[a as int])) + 1 <= 0x1000_0000,
    ensures
        r.sql@ == insert_sql_text(
            table@,
            insert_columns(pt_view(pts@[a as int])),
            (b - a) as int,
        ),
        r.params@.map_values(|v: SqlValue| sv_view(v)) == chunk_params(
            pt_view(pts@[a as int]),
            pts@.map_values(|p: TsPoint| pt_view(p)),
            a as int,
            b as int,
        ),
{
    let ghost sample_view = pt_view(pts@[a as int]);
    let ghost views = pts@.map_values(|p: TsPoint| pt_view(p));
    let cols = batch_columns(&pts[a]);
    let ghost gcols = insert_columns(sample_view);
    proof {
        assert(cols@.map_values(|c: String| c@) == gcols);
        assert(gcols.len() >= 2);
    }
    let ncols: usize = cols.len();
    let mut sql = String::from_str("INSERT INTO ");
    sql.append("\"");
    sql.append(table);
    sql.append("\"");
    sql.append(" (");
    let collist = column_list(&cols);
    sql.append(collist.as_str());
    sql.append(") VALUES ");
    let groups = values_groups(b - a, ncols);
    sql.append(groups.as_str());
    let mut params: Vec<SqlValue> = Vec::new();
    let mut i: usize = a;
    proof {
        assert(params@.map_values(|v: SqlValue| sv_view(v)) + chunk_params(
            sample_view,
            views,
            a as int,
            b as int,
        ) =~= chunk_params(sample_view, views, a as int, b as int));
    }
    while i < b
        invariant
            a <= i <= b <= pts@.len(),
            all_times_ok(pts@),
            sample_view == pt_view(pts@[a as int]),
            views == pts@.map_values(|p: TsPoint| pt_view(p)),
            chunk_params(sample_view, views, a as int, b as int) == params@.map_values(
                |v: SqlValue| sv_view(v),
            ) + chunk_params(sample_view, views, i as int, b as int),
        decreases b - i,
    {
        let mut row = point_param_values(&pts[a], &pts[i]);
        let ghost pre = params@.map_values(|v: SqlValue| sv_view(v));
        let ghost rowv = row@.map_values(|v: SqlValue| sv_view(v));
        params.append(&mut row);
        proof {
            assert(views[i as int] == pt_view(pts@[i as int]));
            assert(params@.map_values(|v: SqlValue| sv_view(v)) =~= pre + rowv);
            assert(chunk_params(sample_view, views, i as int, b as int) == point_params(
                sample_view,
                views[i as int],
            ) + chunk_params(sample_view, views, i + 1 as int, b as int));
            assert((pre + rowv) + chunk_params(sample_view, views, i + 1 as int, b as int)
                =~= pre + (rowv + chunk_params(sample_view, views, i + 1 as int, b as int)));
        }
        i = i + 1;
    }
    proof {
        assert(chunk_params(sample_view, views, b as int, b as int) =~= Seq::<SvView>::empty());
        assert(params@.map_values(|v: SqlValue| sv_view(v)) + Seq::<SvView>::empty()
            =~= params@.map_values(|v: SqlValue| sv_view(v)));
    }
    InsertStatement { sql, params }
}

/// All inserts of one batch, chunked to at most 1000 rows each.
pub fn insert_statements(table: &str, pts: &Vec<TsPoint>) -> (r: Vec<InsertStatement>)
    requires
        all_times_ok(pts@),
        forall|i: int|
            0 <= i < pts@.len() ==> 1000 * ncols_of(pt_view(#[trigger] pts@[i])) + 1
                <= 0x1000_0000,
    ensures
        pts@.len() == 0 ==> r@.len() == 0,
        pts@.len() > 0 ==> r@.len() == (pts@.len() + 999) / 1000,
        forall|k: int|
            0 <= k < r@.len() ==> {
                let a = 1000 * k;
                let b = if 1000 * k + 1000 <= pts@.len() {
                    1000 * k + 1000
                } else {
                    pts@.len() as int
                };
                &&& (#[trigger] r@[k]).sql@ == insert_sql_text(
                    table@,
                    insert_columns(pt_view(pts@[a])),
                    b - a,
                )
                &&& r@[k].params@.map_values(|v: SqlValue| sv_view(v)) == chunk_params(
                    pt_view(pts@[a]),
                    pts@.map_values(|p: TsPoint| pt_view(p)),
                    a,
                    b,
                )
            },
{
    let n: usize = pts.len();
    let mut out: Vec<InsertStatement> = Vec::new();
    let mut a: usize = 0;
    while a < n
        invariant
            a <= n,
            n == pts@.len(),
            a == 1000 * out@.len() || (a == n && n > 0 && out@.len() == ((n + 999) / 1000) as int),
            all_times_ok(pts@),
            forall|i: int|
                0 <= i < pts@.len() ==> 1000 * ncols_of(pt_view(#[trigger] pts@[i])) + 1
                    <= 0x1000_0000,
            forall|k: int|
                0 <= k < out@.len() ==> {
                    let ka = 1000 * k;
                    let kb = if 1000 * k + 1000 <= pts@.len() {
                        1000 * k + 1000
                    } else {
                        pts@.len() as int
                    };
                    &&& (#[trigger] out@[k]).sql@ == insert_sql_text(
                        table@,
                        insert_columns(pt_view(pts@[ka])),
                        kb - ka,
                    )
                    &&& out@[k].params@.map_values(|v: SqlValue| sv_view(v)) == chunk_params(
                        pt_view(pts@[ka]),
                        pts@.map_values(|p: TsPoint| pt_view(p)),
                        ka,
                        kb,
                    )
                },
        decreases n - a,
    {
        let b: usize = if n - a >= 1000 {
            a + 1000
        } else {
            n
        };
        proof {
            assert(a == 1000 * out@.len());
            assert(ncols_of(pt_view(pts@[a as int])) >= 2);
            assert((b - a) * ncols_of(pt_view(pts@[a as int])) <= 1000 * ncols_of(
                pt_view(pts@[a as int]),
            )) by (nonlinear_arith)
                requires
                    b - a <= 1000,
                    ncols_of(pt_view(pts@[a as int])) >= 0,
            ;
        }
        let stmt = chunk_insert_statement(table, pts, a, b);
        let ghost pre_len = out@.len();
        out.push(stmt);
        proof {
            if b == n {
                assert(n > 0);
                assert(a == 1000 * pre_len);
                assert(n - a <= 1000 && n - a >= 1);
                assert(out@.len() == pre_len + 1);
                assert((n + 999) / 1000 == pre_len + 1) by (nonlinear_arith)
                    requires
                        n == 1000 * pre_len + (n - 1000 * pre_len),
                        1 <= n - 1000 * pre_len <= 1000,
                        a == 1000 * pre_len,
                ;
            }
        }
        a = b;
    }
    out
}

} // verus!
