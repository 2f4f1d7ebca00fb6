//! Annotations and the timeline assembly rules: stable sorting by date
//! and "first wins per hour" deduplication.

use vstd::prelude::*;
use vstd::multiset::Multiset;
use vstd::seq_lib::to_multiset_insert;
use crate::timeutil::{hour_floor, hour_start, EPOCH_FLOOR, MAX_INSTANT, ymd_of, fmt_ymd};
use vstd::string::StringExecFns;

verus! {

/// A named, dated marker over the analytics timeline.  `date` is a UTC
/// unix timestamp in seconds.
#[derive(Debug)]
pub struct Annotation {
    pub name: String,
    pub description: String,
    pub date: i64,
}

/// A timeline of annotations.
#[derive(Debug)]
pub struct Annotations {
    pub annotations: Vec<Annotation>,
}

impl Annotation {
    /// A copy with equal fields.
    pub fn duplicate(&self) -> (r: Annotation)
        ensures
            r == *self,
    {
        Annotation { name: self.name.clone(), description: self.description.clone(), date: self.date }
    }
}

/// An instant the engine accepts: not before the epoch floor and small
/// enough to render as a four-digit year.
pub open spec fn valid_instant(ts: int) -> bool {
    EPOCH_FLOOR <= ts <= MAX_INSTANT
}

pub open spec fn ann_dates_sorted(s: Seq<Annotation>) -> bool {
    forall|i: int, j: int| 0 <= i < j < s.len() ==> #[trigger] s[i].date <= #[trigger] s[j].date
}

/// Adjacent kept annotations fall in strictly increasing hour buckets.
pub open spec fn strictly_inc_buckets(s: Seq<Annotation>) -> bool {
    forall|i: int|
        0 <= i < s.len() - 1 ==> hour_floor(#[trigger] s[i].date as int) < hour_floor(s[i + 1].date as int)
}

pub open spec fn all_instants_valid(s: Seq<Annotation>) -> bool {
    forall|i: int| 0 <= i < s.len() ==> valid_instant(#[trigger] s[i].date as int)
}

/// `x` placed after every element whose date is at or before its own.
#[verifier::opaque]
pub open spec fn insert_sorted_spec(s: Seq<Annotation>, x: Annotation) -> Seq<Annotation>
    decreases s.len(),
{
    if s.len() == 0 {
        seq![x]
    } else if s.last().date <= x.date {
        s.push(x)
    } else {
        insert_sorted_spec(s.drop_last(), x).push(s.last())
    }
}

/// Stable ascending order by date: the annotations are placed one after
/// another, each after all earlier ones with a date at or before its
/// own, so equal dates keep discovery order.
#[verifier::opaque]
pub open spec fn stable_sorted(s: Seq<Annotation>) -> Seq<Annotation>
    decreases s.len(),
{
    if s.len() == 0 {
        Seq::empty()
    } else {
        insert_sorted_spec(stable_sorted(s.drop_last()), s.last())
    }
}

/// On a sorted sequence, placing after all at-or-before dates means
/// inserting at the first index with a later date.
proof fn lemma_insert_sorted_at(s: Seq<Annotation>, x: Annotation, pos: int)
    requires
        ann_dates_sorted(s),
        0 <= pos <= s.len(),
        forall|k: int| 0 <= k < pos ==> (#[trigger] s[k]).date <= x.date,
        pos < s.len() ==> s[pos].date > x.date,
    ensures
        insert_sorted_spec(s, x) == s.insert(pos, x),
    decreases s.len(),
{
    reveal(insert_sorted_spec);
    if s.len() == 0 {
        assert(insert_sorted_spec(s, x) =~= s.insert(0, x));
    } else if s.last().date <= x.date {
        assert(pos == s.len()) by {
            if pos < s.len() {
                assert(s[pos].date <= s[s.len() - 1].date);
            }
        }
        assert(s.push(x) =~= s.insert(s.len() as int, x));
    } else {
        assert(pos < s.len()) by {
            if pos == s.len() {
                assert(s[s.len() - 1].date <= x.date);
            }
        }
        let dl = s.drop_last();
        assert(ann_dates_sorted(dl)) by {
            assert(forall|i2: int, j2: int|
                0 <= i2 < j2 < dl.len() ==> (#[trigger] dl[i2]).date <= (#[trigger] dl[j2]).date);
        }
        lemma_insert_sorted_at(dl, x, pos);
        assert(insert_sorted_spec(s, x) == dl.insert(pos, x).push(s.last()));
        assert(dl.insert(pos, x).push(s.last()) =~= s.insert(pos, x));
    }
}

/// Stable ascending sort by date: the result is exactly the stable
/// placement of the input, so equal dates keep discovery order.
pub fn sort_annotations(v: Vec<Annotation>) -> (r: Vec<Annotation>)
    ensures
        r@ == stable_sorted(v@),
        ann_dates_sorted(r@),
        r@.to_multiset() == v@.to_multiset(),
        r@.len() == v@.len(),
{
    let mut rest = v;
    let mut out: Vec<Annotation> = Vec::new();
    let ghost whole = rest@;
    proof {
        broadcast use vstd::seq_lib::group_to_multiset_ensures;
        broadcast use vstd::multiset::group_multiset_axioms;

        assert(out@.to_multiset() =~= Multiset::<Annotation>::empty());
        assert(out@.to_multiset().add(rest@.to_multiset()) =~= whole.to_multiset());
        reveal(stable_sorted);
        assert(rest@ =~= whole.skip(0));
        assert(out@ =~= stable_sorted(whole.subrange(0, 0)));
    }
    while rest.len() > 0
        invariant
            ann_dates_sorted(out@),
            out@.to_multiset().add(rest@.to_multiset()) == whole.to_multiset(),
            out@.len() + rest@.len() == whole.len(),
            rest@ == whole.skip(out@.len() as int),
            out@ == stable_sorted(whole.subrange(0, out@.len() as int)),
        decreases rest@.len(),
    {
        let ghost old_rest = rest@;
        let ghost done = whole.len() - old_rest.len();
        let x = rest.remove(0);
        let pos = insertion_point(&out, x.date);
        let ghost old_out = out@;
        out.insert(pos, x);
        proof {
            broadcast use vstd::seq_lib::group_to_multiset_ensures;
            broadcast use vstd::multiset::group_multiset_axioms;

            to_multiset_insert(old_out, pos as int, x);
            vstd::seq_lib::to_multiset_remove(old_rest, 0);
            assert(old_rest.contains(x)) by {
                assert(old_rest[0] == x);
            }
            assert(out@.to_multiset().add(rest@.to_multiset()) =~= whole.to_multiset());
            assert forall|i2: int, j2: int|
                0 <= i2 < j2 < out@.len() implies #[trigger] out@[i2].date
                <= #[trigger] out@[j2].date by {
                assert(forall|k: int|
                    0 <= k < old_out.len() ==> (k < pos ==> out@[k] == #[trigger] old_out[k]) && (k
                        >= pos ==> out@[k + 1] == old_out[k]));
                assert(out@[pos as int] == x);
            }
            assert(rest@ =~= whole.skip(done + 1));
            assert(x == whole[done]);
            let prefix = whole.subrange(0, done);
            let prefix1 = whole.subrange(0, done + 1);
            assert(prefix1.drop_last() =~= prefix);
            assert(prefix1.last() == whole[done]);
            lemma_insert_sorted_at(old_out, x, pos as int);
            assert(stable_sorted(prefix1) == insert_sorted_spec(stable_sorted(prefix), x)) by {
                reveal(stable_sorted);
            }
            assert(out@ == stable_sorted(prefix1));
        }
    }
    proof {
        assert(whole.subrange(0, whole.len() as int) =~= whole);
    }
    out
}

/// "First wins per hour": scanning left to right, an annotation whose
/// hour bucket equals the previous *kept* annotation's bucket is dropped.
pub open spec fn dedup_from(s: Seq<Annotation>, prev: Option<int>) -> Seq<Annotation>
    decreases s.len(),
{
    if s.len() == 0 {
        Seq::empty()
    } else {
        let b = hour_floor(s[0].date as int);
        if prev matches Some(p) && b == p {
            dedup_from(s.drop_first(), prev)
        } else {
            seq![s[0]] + dedup_from(s.drop_first(), Some(b))
        }
    }
}

/// The deduplicated timeline: the first annotation is always kept.
pub open spec fn dedup_hours_spec(s: Seq<Annotation>) -> Seq<Annotation> {
    dedup_from(s, None)
}

/// Drop annotations that fall into the hour bucket of the previously
/// kept one.
pub fn dedup_annotations(v: &Vec<Annotation>) -> (r: Vec<Annotation>)
    requires
        forall|i: int| 0 <= i < v@.len() ==> 0 <= #[trigger] v@[i].date,
    ensures
        r@ == dedup_hours_spec(v@),
{
    let n: usize = v.len();
    let mut out: Vec<Annotation> = Vec::new();
    let mut prev: Option<i64> = None;
    let mut i: usize = 0;
    let ghost mut prev_spec: Option<int> = None;
    proof {
        assert(v@.skip(0) =~= v@);
        assert(out@ + dedup_from(v@, None) =~= dedup_from(v@, None));
    }
    while i < n
        invariant
            i <= n,
            n == v@.len(),
            forall|k: int| 0 <= k < v@.len() ==> 0 <= #[trigger] v@[k].date,
            prev_spec == (match prev {
                Some(p) => Some(p as int),
                None => None::<int>,
            }),
            dedup_hours_spec(v@) == out@ + dedup_from(v@.skip(i as int), prev_spec),
        decreases n - i,
    {
        let b = hour_start(v[i].date);
        let ghost suffix = v@.skip(i as int);
        proof {
            assert(suffix[0] == v@[i as int]);
            assert(suffix.drop_first() =~= v@.skip(i + 1 as int));
        }
        let dup: bool = match prev {
            Some(p) => p == b,
            None => false,
        };
        if !dup {
            let ghost out_before = out@;
            out.push(v[i].duplicate());
            prev = Some(b);
            proof {
                assert(dedup_from(suffix, prev_spec) == seq![suffix[0]] + dedup_from(
                    suffix.drop_first(),
                    Some(b as int),
                ));
                assert(out_before + (seq![suffix[0]] + dedup_from(
                    suffix.drop_first(),
                    Some(b as int),
                )) =~= out@ + dedup_from(suffix.drop_first(), Some(b as int)));
                prev_spec = Some(b as int);
            }
        }
        proof {
            assert(dedup_hours_spec(v@) == out@ + dedup_from(v@.skip(i + 1 as int), prev_spec));
        }
        i = i + 1;
    }
    proof {
        assert(v@.skip(n as int).len() == 0);
        assert(out@ + dedup_from(v@.skip(n as int), prev_spec) =~= out@);
    }
    out
}

/// First index whose date exceeds `d` (so inserting there keeps equal
/// dates in discovery order).
fn insertion_point(out: &Vec<Annotation>, d: i64) -> (pos: usize)
    requires
        ann_dates_sorted(out@),
    ensures
        pos <= out@.len(),
        forall|k: int| 0 <= k < pos ==> #[trigger] out@[k].date <= d,
        pos < out@.len() ==> out@[pos as int].date > d,
{
    let n: usize = out.len();
    let mut i: usize = 0;
    while i < n
        invariant
            i <= n,
            n == out@.len(),
            forall|k: int| 0 <= k < i ==> #[trigger] out@[k].date <= d,
        decreases n - i,
    {
        if out[i].date > d {
            return i;
        }
        i = i + 1;
    }
    n
}

/// Kept annotations are bounded below by the head's date, and their
/// buckets exceed the previously kept one's.
#[verifier::spinoff_prover]
proof fn lemma_dedup_from_bounds(s: Seq<Annotation>, prev: Option<int>)
    requires
        ann_dates_sorted(s),
        forall|i: int| 0 <= i < s.len() ==> 0 <= #[trigger] s[i].date,
        prev matches Some(p) ==> forall|i: int|
            0 <= i < s.len() ==> p <= hour_floor(#[trigger] s[i].date as int),
    ensures
        forall|k: int|
            0 <= k < dedup_from(s, prev).len() ==> s.len() > 0 && s[0].date <= #[trigger] dedup_from(
                s,
                prev,
            )[k].date,
        prev matches Some(p) ==> forall|k: int|
            0 <= k < dedup_from(s, prev).len() ==> p < hour_floor(
                #[trigger] dedup_from(s, prev)[k].date as int,
            ),
    decreases s.len(),
{
    if s.len() == 0 {
    } else {
        let tail = s.drop_first();
        let b = hour_floor(s[0].date as int);
        assert forall|i: int| 0 <= i < tail.len() implies b <= hour_floor(
            #[trigger] tail[i].date as int,
        ) by {
            assert(tail[i] == s[i + 1]);
            crate::timeutil::lemma_hour_floor_monotone(s[0].date as int, s[i + 1].date as int);
        }
        if prev matches Some(p) && b == p {
            lemma_dedup_from_bounds(tail, prev);
            let r = dedup_from(s, prev);
            assert forall|k: int| 0 <= k < r.len() implies s.len() > 0 && s[0].date
                <= #[trigger] r[k].date by {
                assert(r[k] == dedup_from(tail, prev)[k]);
            }
        } else {
            lemma_dedup_from_bounds(tail, Some(b));
            let rt = dedup_from(tail, Some(b));
            let r = dedup_from(s, prev);
            assert(r == seq![s[0]] + rt);
            assert(r[0] == s[0]);
            assert forall|k: int| 0 <= k < r.len() implies s.len() > 0 && s[0].date
                <= #[trigger] r[k].date by {
                if k > 0 {
                    assert(r[k] == rt[k - 1]);
                    assert(tail[0].date <= rt[k - 1].date);
                    assert(s[0].date <= s[1].date);
                }
            }
            match prev {
                Some(p) => {
                    assert forall|k: int| 0 <= k < r.len() implies p < hour_floor(
                        #[trigger] r[k].date as int,
                    ) by {
                        if k > 0 {
                            assert(r[k] == rt[k - 1]);
                            assert(b < hour_floor(rt[k - 1].date as int));
                        }
                    }
                },
                None => {},
            }
        }
    }
}

#[verifier::spinoff_prover]
proof fn lemma_dedup_from_props(s: Seq<Annotation>, prev: Option<int>)
    requires
        ann_dates_sorted(s),
        forall|i: int| 0 <= i < s.len() ==> 0 <= #[trigger] s[i].date,
        prev matches Some(p) ==> forall|i: int|
            0 <= i < s.len() ==> p <= hour_floor(#[trigger] s[i].date as int),
    ensures
        ann_dates_sorted(dedup_from(s, prev)),
        strictly_inc_buckets(dedup_from(s, prev)),
    decreases s.len(),
{
    if s.len() == 0 {
    } else {
        let tail = s.drop_first();
        let b = hour_floor(s[0].date as int);
        assert forall|i: int| 0 <= i < tail.len() implies b <= hour_floor(
            #[trigger] tail[i].date as int,
        ) by {
            assert(tail[i] == s[i + 1]);
            crate::timeutil::lemma_hour_floor_monotone(s[0].date as int, s[i + 1].date as int);
        }
        if prev matches Some(p) && b == p {
            lemma_dedup_from_props(tail, prev);
        } else {
            lemma_dedup_from_props(tail, Some(b));
            lemma_dedup_from_bounds(tail, Some(b));
            let rt = dedup_from(tail, Some(b));
            let r = dedup_from(s, prev);
            assert(r == seq![s[0]] + rt);
            assert(r[0] == s[0]);
            assert(ann_dates_sorted(r)) by {
                assert forall|i: int, j: int|
                    0 <= i < j < r.len() implies #[trigger] r[i].date <= #[trigger] r[j].date by {
                    if i == 0 {
                        if rt.len() > 0 {
                            assert(r[j] == rt[j - 1]);
                            assert(tail[0].date <= rt[j - 1].date);
                            assert(s[0].date <= s[1].date);
                        }
                    } else {
                        assert(r[i] == rt[i - 1]);
                        assert(r[j] == rt[j - 1]);
                    }
                }
            }
            assert(strictly_inc_buckets(r)) by {
                assert forall|i: int| 0 <= i < r.len() - 1 implies hour_floor(
                    #[trigger] r[i].date as int,
                ) < hour_floor(r[i + 1].date as int) by {
                    if i == 0 {
                        assert(r[1] == rt[0]);
                        assert(b < hour_floor(rt[0].date as int));
                    } else {
                        assert(r[i] == rt[i - 1]);
                        assert(r[i + 1] == rt[i]);
                    }
                }
            }
        }
    }
}

/// Deduplication only ever keeps elements of its input.
pub proof fn lemma_dedup_from_contains(s: Seq<Annotation>, prev: Option<int>)
    ensures
        forall|k: int|
            0 <= k < dedup_from(s, prev).len() ==> s.contains(#[trigger] dedup_from(s, prev)[k]),
    decreases s.len(),
{
    if s.len() > 0 {
        let tail = s.drop_first();
        let b = hour_floor(s[0].date as int);
        let r = dedup_from(s, prev);
        if prev matches Some(p) && b == p {
            lemma_dedup_from_contains(tail, prev);
            let rt = dedup_from(tail, prev);
            assert forall|k: int| 0 <= k < r.len() implies s.contains(#[trigger] r[k]) by {
                assert(tail.contains(rt[k]));
                let j = choose|j: int| 0 <= j < tail.len() && tail[j] == rt[k];
                assert(s[j + 1] == rt[k]);
            }
        } else {
            lemma_dedup_from_contains(tail, Some(b));
            let rt = dedup_from(tail, Some(b));
            assert forall|k: int| 0 <= k < r.len() implies s.contains(#[trigger] r[k]) by {
                if k == 0 {
                    assert(s[0] == r[0]);
                } else {
                    assert(r[k] == rt[k - 1]);
                    assert(tail.contains(rt[k - 1]));
                    let j = choose|j: int| 0 <= j < tail.len() && tail[j] == rt[k - 1];
                    assert(s[j + 1] == rt[k - 1]);
                }
            }
        }
    }
}

/// Two sequences with equal multisets hold the same elements, so valid
/// dates carry over.
pub proof fn lemma_perm_instants_valid(a: Seq<Annotation>, b: Seq<Annotation>)
    requires
        a.to_multiset() == b.to_multiset(),
        all_instants_valid(a),
    ensures
        all_instants_valid(b),
{
    broadcast use vstd::seq_lib::group_to_multiset_ensures;

    assert forall|k: int| 0 <= k < b.len() implies valid_instant(#[trigger] b[k].date as int) by {
        assert(b.contains(b[k]));
        assert(b.to_multiset().count(b[k]) > 0);
        assert(a.contains(b[k]));
        let j = choose|j: int| 0 <= j < a.len() && a[j] == b[k];
        assert(valid_instant(a[j].date as int));
    }
}

proof fn lemma_strict_inc_pairwise(r: Seq<Annotation>, i: int, j: int)
    requires
        strictly_inc_buckets(r),
        0 <= i < j < r.len(),
    ensures
        hour_floor(r[i].date as int) < hour_floor(r[j].date as int),
    decreases j - i,
{
    if j == i + 1 {
    } else {
        lemma_strict_inc_pairwise(r, i, j - 1);
    }
}

/// Law: over any sorted timeline, deduplication preserves ascending
/// order, and no two kept annotations share a truncated hour bucket.
pub proof fn lemma_dedup_no_shared_hour(s: Seq<Annotation>)
    requires
        ann_dates_sorted(s),
        forall|i: int| 0 <= i < s.len() ==> 0 <= #[trigger] s[i].date,
    ensures
        ann_dates_sorted(dedup_hours_spec(s)),
        strictly_inc_buckets(dedup_hours_spec(s)),
        forall|i: int, j: int|
            0 <= i < j < dedup_hours_spec(s).len() ==> hour_floor(#[trigger] dedup_hours_spec(s)[i].date as int) != hour_floor(#[trigger] dedup_hours_spec(s)[j].date as int),
{
    lemma_dedup_from_props(s, None);
    assert forall|i: int, j: int|
        0 <= i < j < dedup_hours_spec(s).len() implies hour_floor(#[trigger] dedup_hours_spec(s)[i].date as int) != hour_floor(#[trigger] dedup_hours_spec(s)[j].date as int) by {
        lemma_strict_inc_pairwise(dedup_hours_spec(s), i, j);
    }
}

/// The two synthetic annotations for a project known only through its
/// milestone dates, owed exactly when both dates are acceptable and the
/// join date is after the start date.
pub fn get_fake_annotations(start_date: i64, join_date: i64) -> (r: Annotations)
    ensures
        (valid_instant(start_date as int) && valid_instant(join_date as int) && join_date
            > start_date) ==> {
            &&& r.annotations@.len() == 2
            &&& r.annotations@[0].name@ == "Project start"@
            &&& r.annotations@[0].description@ == ymd_of(start_date as int) + " - project starts"@
            &&& r.annotations@[0].date == start_date
            &&& r.annotations@[1].name@ == "First CNCF project join date"@
            &&& r.annotations@[1].description@ == ymd_of(join_date as int)
            &&& r.annotations@[1].date == join_date
        },
        !(valid_instant(start_date as int) && valid_instant(join_date as int) && join_date
            > start_date) ==> r.annotations@.len() == 0,
{
    let mut annotations: Vec<Annotation> = Vec::new();
    if join_date < EPOCH_FLOOR || start_date < EPOCH_FLOOR || join_date > MAX_INSTANT || start_date
        > MAX_INSTANT || join_date <= start_date {
        return Annotations { annotations };
    }
    let start_desc = fmt_ymd(start_date).concat(" - project starts");
    annotations.push(
        Annotation {
            name: String::from_str("Project start"),
            description: start_desc,
            date: start_date,
        },
    );
    annotations.push(
        Annotation {
            name: String::from_str("First CNCF project join date"),
            description: fmt_ymd(join_date),
            date: join_date,
        },
    );
    Annotations { annotations }
}

/// The annotation source for a project without a main repository: both
/// milestone dates give the two synthetic annotations, a lone start
/// date gives a single "Project start" annotation.
pub fn milestone_only_annotations(start_date: Option<i64>, join_date: Option<i64>) -> (r:
    Annotations)
    requires
        start_date matches Some(s) ==> 0 <= s <= MAX_INSTANT,
        join_date matches Some(j) ==> 0 <= j <= MAX_INSTANT,
    ensures
        start_date is None ==> r.annotations@.len() == 0,
        start_date matches Some(s) ==> join_date is None ==> {
            &&& r.annotations@.len() == 1
            &&& r.annotations@[0].name@ == "Project start"@
            &&& r.annotations@[0].description@ == ymd_of(s as int) + " - project starts"@
            &&& r.annotations@[0].date == s
        },
        start_date matches Some(s) ==> join_date matches Some(j) ==> {
            &&& valid_instant(s as int) && valid_instant(j as int) && j > s ==> {
                &&& r.annotations@.len() == 2
                &&& r.annotations@[0].name@ == "Project start"@
                &&& r.annotations@[0].description@ == ymd_of(s as int) + " - project starts"@
                &&& r.annotations@[0].date == s
                &&& r.annotations@[1].name@ == "First CNCF project join date"@
                &&& r.annotations@[1].description@ == ymd_of(j as int)
                &&& r.annotations@[1].date == j
            }
            &&& !(valid_instant(s as int) && valid_instant(j as int) && j > s)
                ==> r.annotations@.len() == 0
        },
{
    match start_date {
        None => Annotations { annotations: Vec::new() },
        Some(s) => match join_date {
            Some(j) => get_fake_annotations(s, j),
            None => {
                let mut annotations: Vec<Annotation> = Vec::new();
                let desc = fmt_ymd(s).concat(" - project starts");
                annotations.push(
                    Annotation {
                        name: String::from_str("Project start"),
                        description: desc,
                        date: s,
                    },
                );
                Annotations { annotations }
            },
        },
    }
}

} // verus!
