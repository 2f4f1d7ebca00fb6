//! Quick ranges: the catalogue of dashboard time-selector windows
//! derived from the annotation timeline and the milestone dates.

use vstd::prelude::*;
use crate::annotations::{Annotation, all_instants_valid, ann_dates_sorted, strictly_inc_buckets, valid_instant};
use crate::points::TsPoint;
use crate::text::{keeps_in_sanitized, sanitize_utf8, dec_text_of, u64_to_text};
use crate::timeutil::{next_day_floor, next_day_start, ymdhms_of, fmt_ymdhms, EPOCH_FLOOR,
    MAX_INSTANT};
use vstd::string::StringExecFns;

verus! {

/// A named, precomputed time window.  A fixed relative range carries a
/// duration `token` for the dashboard layer; a dated range carries its
/// two bounds.  A suffix ending in `_n` marks a volatile, now-anchored
/// range, recomputed on every run.
#[derive(Debug)]
pub struct QuickRange {
    pub suffix: String,
    pub name: String,
    pub token: Option<String>,
    pub from: Option<i64>,
    pub to: Option<i64>,
}

/// What a quick range holds, as mathematical values.
pub struct QrView {
    pub suffix: Seq<char>,
    pub name: Seq<char>,
    pub token: Option<Seq<char>>,
    pub from: Option<int>,
    pub to: Option<int>,
}

pub open spec fn qr_view(q: QuickRange) -> QrView {
    QrView {
        suffix: q.suffix@,
        name: q.name@,
        token: match q.token {
            Some(t) => Some(t@),
            None => None,
        },
        from: match q.from {
            Some(f) => Some(f as int),
            None => None,
        },
        to: match q.to {
            Some(t) => Some(t as int),
            None => None,
        },
    }
}

/// Either a fixed relative range (token, no bounds) or a dated range
/// (both bounds, no token), with representable bounds.
pub open spec fn qr_wf(q: QrView) -> bool {
    &&& (q.token is Some <==> q.from is None)
    &&& (q.token is Some <==> q.to is None)
    &&& (q.from matches Some(f) ==> 0 <= f <= MAX_INSTANT)
    &&& (q.to matches Some(t) ==> 0 <= t <= MAX_INSTANT)
}

pub open spec fn all_qr_wf(s: Seq<QrView>) -> bool {
    forall|k: int| 0 <= k < s.len() ==> qr_wf(#[trigger] s[k])
}

/// The suffix of a volatile, now-anchored range.
pub open spec fn ends_in_underscore_n(s: Seq<char>) -> bool {
    s.len() >= 2 && s[s.len() - 2] == '_' && s[s.len() - 1] == 'n'
}

pub open spec fn qr_fixed(sfx: Seq<char>, name: Seq<char>, token: Seq<char>) -> QrView {
    QrView { suffix: sfx, name: name, token: Some(token), from: None, to: None }
}

pub open spec fn qr_between(sfx: Seq<char>, name: Seq<char>, from: int, to: int) -> QrView {
    QrView { suffix: sfx, name: name, token: None, from: Some(from), to: Some(to) }
}

/// The twelve fixed relative ranges, in their catalogue order.
pub open spec fn fixed_period_views() -> Seq<QrView> {
    seq![
        qr_fixed("d"@, "Last day"@, "1 day"@),
        qr_fixed("w"@, "Last week"@, "1 week"@),
        qr_fixed("d10"@, "Last 10 days"@, "10 days"@),
        qr_fixed("m"@, "Last month"@, "1 month"@),
        qr_fixed("q"@, "Last quarter"@, "3 months"@),
        qr_fixed("m6"@, "Last 6 months"@, "6 months"@),
        qr_fixed("y"@, "Last year"@, "1 year"@),
        qr_fixed("y2"@, "Last 2 years"@, "2 years"@),
        qr_fixed("y3"@, "Last 3 years"@, "3 years"@),
        qr_fixed("y5"@, "Last 5 years"@, "5 years"@),
        qr_fixed("y10"@, "Last decade"@, "10 years"@),
        qr_fixed("y100"@, "Last century"@, "100 years"@),
    ]
}

pub open spec fn sanitized(s: Seq<char>) -> Seq<char> {
    s.filter(|c: char| keeps_in_sanitized(c))
}

/// The range from annotation `i` to its successor; the last annotation
/// reaches to the start of tomorrow and is volatile.
pub open spec fn ann_range_view(t: Seq<Annotation>, i: int, now: int) -> QrView {
    if i == t.len() - 1 {
        qr_between(
            "a_"@ + dec_text_of(i) + "_n"@,
            sanitized(t[i].name@) + " - now"@,
            t[i].date as int,
            next_day_floor(now),
        )
    } else {
        qr_between(
            "a_"@ + dec_text_of(i) + "_"@ + dec_text_of(i + 1),
            sanitized(t[i].name@) + " - "@ + sanitized(t[i + 1].name@),
            t[i].date as int,
            t[i + 1].date as int,
        )
    }
}

/// One range per annotation of the timeline, in order.
pub open spec fn ann_range_views(t: Seq<Annotation>, now: int) -> Seq<QrView> {
    Seq::new(t.len(), |i: int| ann_range_view(t, i, now))
}

/// Graduation relative to incubation is in the expected order, or one
/// of the two is missing.
pub open spec fn milestones_ordered(incubating: Option<int>, graduated: Option<int>) -> bool {
    match (incubating, graduated) {
        (Some(ic), Some(g)) => g > ic,
        _ => true,
    }
}

/// The conditional milestone-phase ranges, in emission order.  Nothing
/// is emitted unless both start and join are present with join after
/// start; ranges whose precondition fails are omitted, never reordered.
pub open spec fn milestone_range_views(
    start: Option<int>,
    join: Option<int>,
    incubating: Option<int>,
    graduated: Option<int>,
    now: int,
) -> Seq<QrView> {
    match (start, join) {
        (Some(s), Some(j)) => {
            if j > s {
                let base = seq![
                    qr_between("c_b"@, "Before joining CNCF"@, s, j),
                    qr_between("c_n"@, "Since joining CNCF"@, j, next_day_floor(now)),
                ];
                let correct_order = milestones_ordered(incubating, graduated);
                let inc_part = match incubating {
                    Some(ic) => {
                        if correct_order && ic > j {
                            seq![qr_between("c_j_i"@, "CNCF join date - moved to incubation"@, j, ic)]
                                + (match graduated {
                                Some(g) => seq![
                                    qr_between("c_i_g"@, "Moved to incubation - graduated"@, ic, g),
                                ],
                                None => seq![
                                    qr_between(
                                        "c_i_n"@,
                                        "Since moving to incubating state"@,
                                        ic,
                                        next_day_floor(now),
                                    ),
                                ],
                            })
                        } else {
                            Seq::empty()
                        }
                    },
                    None => Seq::empty(),
                };
                let grad_part = match graduated {
                    Some(g) => {
                        if correct_order && g > j {
                            (match incubating {
                                None => seq![
                                    qr_between("c_j_g"@, "CNCF join date - graduated"@, j, g),
                                ],
                                Some(_) => Seq::empty(),
                            }) + seq![
                                qr_between("c_g_n"@, "Since graduating"@, g, next_day_floor(now)),
                            ]
                        } else {
                            Seq::empty()
                        }
                    },
                    None => Seq::empty(),
                };
                base + inc_part + grad_part
            } else {
                Seq::empty()
            }
        },
        _ => Seq::empty(),
    }
}

/// The whole catalogue for one run: fixed ranges, then consecutive
/// annotation ranges, then milestone-phase ranges.
pub open spec fn quick_range_views(
    t: Seq<Annotation>,
    start: Option<int>,
    join: Option<int>,
    incubating: Option<int>,
    graduated: Option<int>,
    now: int,
) -> Seq<QrView> {
    fixed_period_views() + ann_range_views(t, now) + milestone_range_views(
        start,
        join,
        incubating,
        graduated,
        now,
    )
}

/// The twelve fixed relative ranges.
fn fixed_ranges() -> (r: Vec<QuickRange>)
    ensures
        r@.map_values(|q: QuickRange| qr_view(q)) == fixed_period_views(),
{
    let mut out: Vec<QuickRange> = Vec::new();
    out.push(fixed_range("d", "Last day", "1 day"));
    out.push(fixed_range("w", "Last week", "1 week"));
    out.push(fixed_range("d10", "Last 10 days", "10 days"));
    out.push(fixed_range("m", "Last month", "1 month"));
    out.push(fixed_range("q", "Last quarter", "3 months"));
    out.push(fixed_range("m6", "Last 6 months", "6 months"));
    out.push(fixed_range("y", "Last year", "1 year"));
    out.push(fixed_range("y2", "Last 2 years", "2 years"));
    out.push(fixed_range("y3", "Last 3 years", "3 years"));
    out.push(fixed_range("y5", "Last 5 years", "5 years"));
    out.push(fixed_range("y10", "Last decade", "10 years"));
    out.push(fixed_range("y100", "Last century", "100 years"));
    proof {
        assert(out@.map_values(|q: QuickRange| qr_view(q)) =~= fixed_period_views());
    }
    out
}

fn fixed_range(sfx: &str, name: &str, token: &str) -> (r: QuickRange)
    ensures
        qr_view(r) == qr_fixed(sfx@, name@, token@),
{
    QuickRange {
        suffix: sfx.to_owned(),
        name: name.to_owned(),
        token: Some(token.to_owned()),
        from: None,
        to: None,
    }
}

/// One range per annotation: `[annotation i, annotation i+1)`, and for
/// the last annotation the volatile `[annotation, start of tomorrow)`.
fn annotation_ranges(timeline: &Vec<Annotation>, now: i64) -> (r: Vec<QuickRange>)
    requires
        0 <= now <= MAX_INSTANT - 86400,
    ensures
        r@.map_values(|q: QuickRange| qr_view(q)) == ann_range_views(timeline@, now as int),
{
    let n: usize = timeline.len();
    let mut out: Vec<QuickRange> = Vec::new();
    let tomorrow = next_day_start(now);
    let mut i: usize = 0;
    proof {
        assert(out@.map_values(|q: QuickRange| qr_view(q)) =~= ann_range_views(
            timeline@,
            now as int,
        ).subrange(0, 0));
    }
    while i < n
        invariant
            i <= n,
            n == timeline@.len(),
            0 <= now <= MAX_INSTANT - 86400,
            tomorrow == next_day_floor(now as int),
            out@.map_values(|q: QuickRange| qr_view(q)) == ann_range_views(
                timeline@,
                now as int,
            ).subrange(0, i as int),
        decreases n - i,
    {
        let qr: QuickRange = if i == n - 1 {
            let mut sfx = String::from_str("a_");
            let itext = u64_to_text(i as u64);
            sfx.append(itext.as_str());
            sfx.append("_n");
            let mut nm = sanitize_utf8(timeline[i].name.as_str());
            nm.append(" - now");
            QuickRange {
                suffix: sfx,
                name: nm,
                token: None,
                from: Some(timeline[i].date),
                to: Some(tomorrow),
            }
        } else {
            let mut sfx = String::from_str("a_");
            let itext = u64_to_text(i as u64);
            sfx.append(itext.as_str());
            sfx.append("_");
            let jtext = u64_to_text((i + 1) as u64);
            sfx.append(jtext.as_str());
            let mut nm = sanitize_utf8(timeline[i].name.as_str());
            nm.append(" - ");
            let nxt = sanitize_utf8(timeline[i + 1].name.as_str());
            nm.append(nxt.as_str());
            QuickRange {
                suffix: sfx,
                name: nm,
                token: None,
                from: Some(timeline[i].date),
                to: Some(timeline[i + 1].date),
            }
        };
        proof {
            assert(qr_view(qr) == ann_range_view(timeline@, i as int, now as int));
        }
        let ghost pre = out@;
        out.push(qr);
        proof {
            assert(out@.map_values(|q: QuickRange| qr_view(q)) =~= pre.map_values(
                |q: QuickRange| qr_view(q),
            ).push(ann_range_view(timeline@, i as int, now as int)));
            assert(pre.map_values(|q: QuickRange| qr_view(q)).push(
                ann_range_view(timeline@, i as int, now as int),
            ) =~= ann_range_views(timeline@, now as int).subrange(0, i + 1 as int));
        }
        i = i + 1;
    }
    proof {
        assert(ann_range_views(timeline@, now as int).subrange(0, n as int) =~= ann_range_views(
            timeline@,
            now as int,
        ));
    }
    out
}

fn dated_range(sfx: &str, name: &str, from: i64, to: i64) -> (r: QuickRange)
    ensures
        qr_view(r) == qr_between(sfx@, name@, from as int, to as int),
{
    QuickRange {
        suffix: sfx.to_owned(),
        name: name.to_owned(),
        token: None,
        from: Some(from),
        to: Some(to),
    }
}

/// The milestone-phase ranges of one run.
fn milestone_ranges(
    start_date: Option<i64>,
    join_date: Option<i64>,
    incubating_date: Option<i64>,
    graduated_date: Option<i64>,
    now: i64,
) -> (r: Vec<QuickRange>)
    requires
        0 <= now <= MAX_INSTANT - 86400,
    ensures
        r@.map_values(|q: QuickRange| qr_view(q)) == milestone_range_views(
            match start_date {
                Some(s) => Some(s as int),
                None => None,
            },
            match join_date {
                Some(j) => Some(j as int),
                None => None,
            },
            match incubating_date {
                Some(ic) => Some(ic as int),
                None => None,
            },
            match graduated_date {
                Some(g) => Some(g as int),
                None => None,
            },
            now as int,
        ),
{
    let ghost gs = match start_date {
        Some(s) => Some(s as int),
        None => None::<int>,
    };
    let ghost gj = match join_date {
        Some(j) => Some(j as int),
        None => None::<int>,
    };
    let ghost gic = match incubating_date {
        Some(ic) => Some(ic as int),
        None => None::<int>,
    };
    let ghost gg = match graduated_date {
        Some(g) => Some(g as int),
        None => None::<int>,
    };
    let ghost expected = milestone_range_views(gs, gj, gic, gg, now as int);
    let mut out: Vec<QuickRange> = Vec::new();
    let emit: bool = match (start_date, join_date) {
        (Some(s), Some(j)) => j > s,
        _ => false,
    };
    if !emit {
        proof {
            assert(out@.map_values(|q: QuickRange| qr_view(q)) =~= expected);
        }
        return out;
    }
    let start = match start_date {
        Some(s) => s,
        None => 0,
    };
    let join = match join_date {
        Some(j) => j,
        None => 0,
    };
    let tomorrow = next_day_start(now);
    out.push(dated_range("c_b", "Before joining CNCF", start, join));
    out.push(dated_range("c_n", "Since joining CNCF", join, tomorrow));
    let correct_order: bool = match (incubating_date, graduated_date) {
        (Some(ic), Some(g)) => g > ic,
        _ => true,
    };
    let ghost base_done = out@.map_values(|q: QuickRange| qr_view(q));
    proof {
        assert(base_done =~= seq![
            qr_between("c_b"@, "Before joining CNCF"@, start as int, join as int),
            qr_between("c_n"@, "Since joining CNCF"@, join as int, next_day_floor(now as int)),
        ]);
    }
    match incubating_date {
        Some(incubating) => {
            if correct_order && incubating > join {
                out.push(
                    dated_range("c_j_i", "CNCF join date - moved to incubation", join, incubating),
                );
                match graduated_date {
                    Some(graduated) => {
                        out.push(
                            dated_range(
                                "c_i_g",
                                "Moved to incubation - graduated",
                                incubating,
                                graduated,
                            ),
                        );
                    },
                    None => {
                        out.push(
                            dated_range(
                                "c_i_n",
                                "Since moving to incubating state",
                                incubating,
                                tomorrow,
                            ),
                        );
                    },
                }
            }
        },
        None => {},
    }
    match graduated_date {
        Some(graduated) => {
            if correct_order && graduated > join {
                if incubating_date.is_none() {
                    out.push(dated_range("c_j_g", "CNCF join date - graduated", join, graduated));
                }
                out.push(dated_range("c_g_n", "Since graduating", graduated, tomorrow));
            }
        },
        None => {},
    }
    proof {
        assert(out@.map_values(|q: QuickRange| qr_view(q)) =~= expected);
    }
    out
}

/// The whole quick-range catalogue of one run: the twelve fixed
/// relative ranges, one range per consecutive annotation pair (the last
/// reaching to the start of tomorrow), and the milestone-phase ranges.
pub fn quick_ranges(
    timeline: &Vec<Annotation>,
    start_date: Option<i64>,
    join_date: Option<i64>,
    incubating_date: Option<i64>,
    graduated_date: Option<i64>,
    now: i64,
) -> (r: Vec<QuickRange>)
    requires
        0 <= now <= MAX_INSTANT - 86400,
    ensures
        r@.map_values(|q: QuickRange| qr_view(q)) == quick_range_views(
            timeline@,
            match start_date {
                Some(s) => Some(s as int),
                None => None,
            },
            match join_date {
                Some(j) => Some(j as int),
                None => None,
            },
            match incubating_date {
                Some(ic) => Some(ic as int),
                None => None,
            },
            match graduated_date {
                Some(g) => Some(g as int),
                None => None,
            },
            now as int,
        ),
{
    let mut out = fixed_ranges();
    let mut anns = annotation_ranges(timeline, now);
    let ghost fixed_views = out@.map_values(|q: QuickRange| qr_view(q));
    let ghost ann_views = anns@.map_values(|q: QuickRange| qr_view(q));
    out.append(&mut anns);
    proof {
        assert(out@.map_values(|q: QuickRange| qr_view(q)) =~= fixed_views + ann_views);
    }
    let mut ms = milestone_ranges(start_date, join_date, incubating_date, graduated_date, now);
    let ghost ms_views = ms@.map_values(|q: QuickRange| qr_view(q));
    let ghost sofar = out@.map_values(|q: QuickRange| qr_view(q));
    out.append(&mut ms);
    proof {
        assert(out@.map_values(|q: QuickRange| qr_view(q)) =~= sofar + ms_views);
        assert((fixed_views + ann_views) + ms_views =~= fixed_views + ann_views + ms_views);
    }
    out
}

/// Law: a milestone-phase range bounded by two real milestone instants
/// is only emitted with `from < to`; a volatile one always ends at the
/// start of tomorrow.
pub proof fn lemma_milestone_ranges_ordered(
    start: Option<int>,
    join: Option<int>,
    incubating: Option<int>,
    graduated: Option<int>,
    now: int,
)
    ensures
        forall|k: int|
            0 <= k < milestone_range_views(start, join, incubating, graduated, now).len() ==> {
                let q = #[trigger] milestone_range_views(start, join, incubating, graduated, now)[k];
                &&& q.from is Some
                &&& q.to is Some
                &&& (!ends_in_underscore_n(q.suffix) ==> q.from->0 < q.to->0)
                &&& (ends_in_underscore_n(q.suffix) ==> q.to->0 == next_day_floor(now))
            },
{
    reveal_strlit("c_b");
    reveal_strlit("c_n");
    reveal_strlit("c_j_i");
    reveal_strlit("c_i_g");
    reveal_strlit("c_i_n");
    reveal_strlit("c_j_g");
    reveal_strlit("c_g_n");
    let r = milestone_range_views(start, join, incubating, graduated, now);
    assert forall|k: int| 0 <= k < r.len() implies {
        let q = #[trigger] r[k];
        &&& q.from is Some
        &&& q.to is Some
        &&& (!ends_in_underscore_n(q.suffix) ==> q.from->0 < q.to->0)
        &&& (ends_in_underscore_n(q.suffix) ==> q.to->0 == next_day_floor(now))
    } by {
        assert(!ends_in_underscore_n("c_b"@));
        assert(ends_in_underscore_n("c_n"@));
        assert(!ends_in_underscore_n("c_j_i"@));
        assert(!ends_in_underscore_n("c_i_g"@));
        assert(ends_in_underscore_n("c_i_n"@));
        assert(!ends_in_underscore_n("c_j_g"@));
        assert(ends_in_underscore_n("c_g_n"@));
    }
}

/// Law: over a sorted, hour-deduplicated timeline, every
/// consecutive-annotation range except the last has `from < to`; the
/// last is volatile and ends at the start of tomorrow.
pub proof fn lemma_annotation_ranges_ordered(t: Seq<Annotation>, now: int)
    requires
        ann_dates_sorted(t),
        strictly_inc_buckets(t),
        all_instants_valid(t),
    ensures
        forall|k: int|
            0 <= k < ann_range_views(t, now).len() ==> {
                let q = #[trigger] ann_range_views(t, now)[k];
                &&& q.from is Some
                &&& q.to is Some
                &&& (k < t.len() - 1 ==> q.from->0 < q.to->0)
                &&& (k == t.len() - 1 ==> q.to->0 == next_day_floor(now))
            },
{
    assert forall|k: int| 0 <= k < ann_range_views(t, now).len() implies {
        let q = #[trigger] ann_range_views(t, now)[k];
        &&& q.from is Some
        &&& q.to is Some
        &&& (k < t.len() - 1 ==> q.from->0 < q.to->0)
        &&& (k == t.len() - 1 ==> q.to->0 == next_day_floor(now))
    } by {
        if k < t.len() - 1 {
            crate::timeutil::lemma_hour_floor_monotone(t[k].date as int, t[k + 1].date as int);
        }
    }
}

/// The text stored in the `_data` tag of a quick-range point: the
/// suffix, the duration token or the two bounds, semicolon-delimited.
pub open spec fn qr_data_text(q: QrView) -> Seq<char> {
    match q.token {
        Some(t) => q.suffix + ";"@ + t + ";;"@,
        None => q.suffix + ";;"@ + ymdhms_of(q.from->0) + ";"@ + ymdhms_of(q.to->0),
    }
}

/// Encode quick ranges as points of the `quick_ranges` series.  The
/// synthetic event times are spaced exactly one hour apart from the
/// epoch floor, so every point lands in its own hour bucket.
pub fn quick_range_points(ranges: &Vec<QuickRange>, now: i64) -> (r: Vec<TsPoint>)
    requires
        all_qr_wf(ranges@.map_values(|q: QuickRange| qr_view(q))),
        ranges@.len() <= 1000000,
        0 <= now,
    ensures
        r@.len() == ranges@.len(),
        forall|k: int|
            0 <= k < r@.len() ==> {
                let p = #[trigger] r@[k];
                &&& p.name@ == "quick_ranges"@
                &&& p.period@ == Seq::<char>::empty()
                &&& p.time == EPOCH_FLOOR + 3600 * k
                &&& p.added == now
                &&& p.fields is None
                &&& p.tags matches Some(tags) && tags@.len() == 3 && tags@[0].0@
                    == "quick_ranges_suffix"@ && tags@[0].1@ == qr_view(ranges@[k]).suffix
                    && tags@[1].0@ == "quick_ranges_name"@ && tags@[1].1@ == qr_view(
                    ranges@[k],
                ).name && tags@[2].0@ == "quick_ranges_data"@ && tags@[2].1@ == qr_data_text(
                    qr_view(ranges@[k]),
                )
            },
{
    let n: usize = ranges.len();
    let mut out: Vec<TsPoint> = Vec::new();
    let mut tm: i64 = EPOCH_FLOOR;
    let mut i: usize = 0;
    while i < n
        invariant
            i <= n,
            n == ranges@.len(),
            n <= 1000000,
            0 <= now,
            all_qr_wf(ranges@.map_values(|q: QuickRange| qr_view(q))),
            tm == EPOCH_FLOOR + 3600 * i,
            out@.len() == i,
            forall|k: int|
                0 <= k < i ==> {
                    let p = #[trigger] out@[k];
                    &&& p.name@ == "quick_ranges"@
                    &&& p.period@ == Seq::<char>::empty()
                    &&& p.time == EPOCH_FLOOR + 3600 * k
                    &&& p.added == now
                    &&& p.fields is None
                    &&& p.tags matches Some(tags) && tags@.len() == 3 && tags@[0].0@
                        == "quick_ranges_suffix"@ && tags@[0].1@ == qr_view(ranges@[k]).suffix
                        && tags@[1].0@ == "quick_ranges_name"@ && tags@[1].1@ == qr_view(
                        ranges@[k],
                    ).name && tags@[2].0@ == "quick_ranges_data"@ && tags@[2].1@ == qr_data_text(
                        qr_view(ranges@[k]),
                    )
                },
        decreases n - i,
    {
        let q = &ranges[i];
        proof {
            assert(ranges@.map_values(|q2: QuickRange| qr_view(q2))[i as int] == qr_view(
                ranges@[i as int],
            ));
            assert(qr_wf(qr_view(ranges@[i as int])));
        }
        let data: String = match &q.token {
            Some(t) => {
                let mut d = q.suffix.clone();
                d.append(";");
                d.append(t.as_str());
                d.append(";;");
                d
            },
            None => {
                let f = match q.from {
                    Some(f) => f,
                    None => 0,
                };
                let t2 = match q.to {
                    Some(t2) => t2,
                    None => 0,
                };
                let mut d = q.suffix.clone();
                d.append(";;");
                let ftext = fmt_ymdhms(f);
                d.append(ftext.as_str());
                d.append(";");
                let ttext = fmt_ymdhms(t2);
                d.append(ttext.as_str());
                d
            },
        };
        proof {
            assert(data@ == qr_data_text(qr_view(ranges@[i as int])));
        }
        let mut tags: Vec<(String, String)> = Vec::new();
        tags.push((String::from_str("quick_ranges_suffix"), q.suffix.clone()));
        tags.push((String::from_str("quick_ranges_name"), q.name.clone()));
        tags.push((String::from_str("quick_ranges_data"), data));
        let pt = TsPoint::new(
            String::from_str("quick_ranges"),
            String::new(),
            Some(tags),
            None,
            tm,
            false,
            now,
        );
        proof {
            vstd::arithmetic::div_mod::lemma_mod_multiples_basic(372528 + i as int, 3600);
            assert(tm as int == (372528 + i as int) * 3600);
            assert(tm % 3600 == 0);
            assert(crate::timeutil::hour_floor(tm as int) == tm as int);
        }
        out.push(pt);
        tm = tm + 3600;
        i = i + 1;
    }
    out
}

} // verus!
