//! Assembling the `annotations` series of one run: one point per
//! timeline annotation, the milestone marker points, and the mirrored
//! points for a shared cross-project database.

use vstd::prelude::*;
use crate::annotations::Annotation;
use crate::points::{FieldValue, FvView, PtView, TsPoint, pt_view, fv_view};
use crate::text::sanitize_utf8;
use crate::ranges::sanitized;
use crate::timeutil::{hour_floor, ymd_of, fmt_ymd, MAX_INSTANT};
use vstd::string::StringExecFns;

verus! {

/// An `annotations`-series point: hour-truncated event time, no tags,
/// a title and a description field.
pub open spec fn ann_pt_view(title: Seq<char>, desc: Seq<char>, date: int, now: int) -> PtView {
    PtView {
        name: "annotations"@,
        period: Seq::empty(),
        time: hour_floor(date),
        added: now,
        tags: None,
        fields: Some(seq![("title"@, FvView::Txt(title)), ("description"@, FvView::Txt(desc))]),
    }
}

/// The points of the sorted timeline, in order, names and descriptions
/// sanitized.
pub open spec fn timeline_point_views(t: Seq<Annotation>, now: int) -> Seq<PtView> {
    Seq::new(
        t.len(),
        |i: int|
            ann_pt_view(sanitized(t[i].name@), sanitized(t[i].description@), t[i].date as int, now),
    )
}

/// The milestone marker points: start and join (only when their pair is
/// consistent), then incubation, graduation and archival markers.
pub open spec fn milestone_point_views(
    start: Option<int>,
    join: Option<int>,
    incubating: Option<int>,
    graduated: Option<int>,
    archived: Option<int>,
    now: int,
) -> Seq<PtView> {
    let startjoin_ok = start is None || join is None || join->0 > start->0;
    let startjoin = if startjoin_ok {
        (match start {
            Some(s) => seq![
                ann_pt_view("Project start date"@, ymd_of(s) + " - project starts"@, s, now),
            ],
            None => Seq::empty(),
        }) + (match join {
            Some(j) => seq![ann_pt_view("CNCF join date"@, ymd_of(j) + " - joined CNCF"@, j, now)],
            None => Seq::empty(),
        })
    } else {
        Seq::empty()
    };
    startjoin + (match incubating {
        Some(d) => seq![
            ann_pt_view(
                "Moved to incubating state"@,
                ymd_of(d) + " - project moved to incubating state"@,
                d,
                now,
            ),
        ],
        None => Seq::empty(),
    }) + (match graduated {
        Some(d) => seq![ann_pt_view("Graduated"@, ymd_of(d) + " - project graduated"@, d, now)],
        None => Seq::empty(),
    }) + (match archived {
        Some(d) => seq![ann_pt_view("Archived"@, ymd_of(d) + " - project was archived"@, d, now)],
        None => Seq::empty(),
    })
}

fn annotation_point(title: String, desc: String, date: i64, now: i64) -> (r: TsPoint)
    requires
        0 <= date,
    ensures
        pt_view(r) == ann_pt_view(title@, desc@, date as int, now as int),
{
    let mut fields: Vec<(String, FieldValue)> = Vec::new();
    fields.push((String::from_str("title"), FieldValue::Txt(title)));
    fields.push((String::from_str("description"), FieldValue::Txt(desc)));
    let r = TsPoint::new(
        String::from_str("annotations"),
        String::new(),
        None,
        Some(fields),
        date,
        false,
        now,
    );
    proof {
        assert(pt_view(r).fields matches Some(fv) && fv =~= seq![
            ("title"@, FvView::Txt(title@)),
            ("description"@, FvView::Txt(desc@)),
        ]);
    }
    r
}

/// One point per annotation of the sorted timeline.
pub fn annotation_points(timeline: &Vec<Annotation>, now: i64) -> (r: Vec<TsPoint>)
    requires
        forall|i: int| 0 <= i < timeline@.len() ==> 0 <= (#[trigger] timeline@[i]).date,
    ensures
        r@.map_values(|p: TsPoint| pt_view(p)) == timeline_point_views(timeline@, now as int),
{
    let n: usize = timeline.len();
    let mut out: Vec<TsPoint> = Vec::new();
    let mut i: usize = 0;
    proof {
        assert(out@.map_values(|p: TsPoint| pt_view(p)) =~= timeline_point_views(
            timeline@,
            now as int,
        ).subrange(0, 0));
    }
    while i < n
        invariant
            i <= n,
            n == timeline@.len(),
            forall|k: int| 0 <= k < timeline@.len() ==> 0 <= (#[trigger] timeline@[k]).date,
            out@.map_values(|p: TsPoint| pt_view(p)) == timeline_point_views(
                timeline@,
                now as int,
            ).subrange(0, i as int),
        decreases n - i,
    {
        let name = sanitize_utf8(timeline[i].name.as_str());
        let desc = sanitize_utf8(timeline[i].description.as_str());
        let pt = annotation_point(name, desc, timeline[i].date, now);
        let ghost pre = out@;
        out.push(pt);
        proof {
            assert(out@.map_values(|p: TsPoint| pt_view(p)) =~= pre.map_values(
                |p: TsPoint| pt_view(p),
            ).push(pt_view(pt)));
            assert(pre.map_values(|p: TsPoint| pt_view(p)).push(pt_view(pt))
                =~= timeline_point_views(timeline@, now as int).subrange(0, i + 1 as int));
        }
        i = i + 1;
    }
    proof {
        assert(timeline_point_views(timeline@, now as int).subrange(0, n as int)
            =~= timeline_point_views(timeline@, now as int));
    }
    out
}

/// The milestone marker points of one run.
pub fn milestone_points(
    start_date: Option<i64>,
    join_date: Option<i64>,
    incubating_date: Option<i64>,
    graduated_date: Option<i64>,
    archived_date: Option<i64>,
    now: i64,
) -> (r: Vec<TsPoint>)
    requires
        start_date matches Some(d) ==> 0 <= d <= MAX_INSTANT,
        join_date matches Some(d) ==> 0 <= d <= MAX_INSTANT,
        incubating_date matches Some(d) ==> 0 <= d <= MAX_INSTANT,
        graduated_date matches Some(d) ==> 0 <= d <= MAX_INSTANT,
        archived_date matches Some(d) ==> 0 <= d <= MAX_INSTANT,
    ensures
        r@.map_values(|p: TsPoint| pt_view(p)) == milestone_point_views(
            match start_date {
                Some(d) => Some(d as int),
                None => None,
            },
            match join_date {
                Some(d) => Some(d as int),
                None => None,
            },
            match incubating_date {
                Some(d) => Some(d as int),
                None => None,
            },
            match graduated_date {
                Some(d) => Some(d as int),
                None => None,
            },
            match archived_date {
                Some(d) => Some(d as int),
                None => None,
            },
            now as int,
        ),
{
    let mut out: Vec<TsPoint> = Vec::new();
    let startjoin_ok: bool = match (start_date, join_date) {
        (Some(s), Some(j)) => j > s,
        _ => true,
    };
    if startjoin_ok {
        match start_date {
            Some(s) => {
                let desc = fmt_ymd(s).concat(" - project starts");
                out.push(annotation_point(String::from_str("Project start date"), desc, s, now));
            },
            None => {},
        }
        match join_date {
            Some(j) => {
                let desc = fmt_ymd(j).concat(" - joined CNCF");
                out.push(annotation_point(String::from_str("CNCF join date"), desc, j, now));
            },
            None => {},
        }
    }
    match incubating_date {
        Some(d) => {
            let desc = fmt_ymd(d).concat(" - project moved to incubating state");
            out.push(annotation_point(String::from_str("Moved to incubating state"), desc, d, now));
        },
        None => {},
    }
    match graduated_date {
        Some(d) => {
            let desc = fmt_ymd(d).concat(" - project graduated");
            out.push(annotation_point(String::from_str("Graduated"), desc, d, now));
        },
        None => {},
    }
    match archived_date {
        Some(d) => {
            let desc = fmt_ymd(d).concat(" - project was archived");
            out.push(annotation_point(String::from_str("Archived"), desc, d, now));
        },
        None => {},
    }
    proof {
        assert(out@.map_values(|p: TsPoint| pt_view(p)) =~= milestone_point_views(
            match start_date {
                Some(d) => Some(d as int),
                None => None,
            },
            match join_date {
                Some(d) => Some(d as int),
                None => None,
            },
            match incubating_date {
                Some(d) => Some(d as int),
                None => None,
            },
            match graduated_date {
                Some(d) => Some(d as int),
                None => None,
            },
            match archived_date {
                Some(d) => Some(d as int),
                None => None,
            },
            now as int,
        ));
    }
    out
}

/// The shared-database mirror of a point: an `annotations` point
/// becomes an `annotations_shared` point carrying the project as its
/// period and the main repository as an extra `repo` field.
pub open spec fn shared_pt_view(p: PtView, project: Seq<char>, repo: Seq<char>) -> PtView {
    match p.fields {
        Some(fv) => PtView {
            name: "annotations_shared"@,
            period: project,
            fields: Some(fv.push(("repo"@, FvView::Txt(repo)))),
            ..p
        },
        None => PtView { name: "annotations_shared"@, ..p },
    }
}

pub open spec fn shared_point_views(pts: Seq<PtView>, project: Seq<char>, repo: Seq<char>) -> Seq<
    PtView,
> {
    pts.filter(|p: PtView| p.name == "annotations"@).map_values(
        |p: PtView| shared_pt_view(p, project, repo),
    )
}

/// Mirror the `annotations` points of a batch for the shared database.
pub fn shared_annotation_points(pts: &Vec<TsPoint>, project: &str, main_repo: &str) -> (r: Vec<
    TsPoint,
>)
    ensures
        r@.map_values(|p: TsPoint| pt_view(p)) == shared_point_views(
            pts@.map_values(|p: TsPoint| pt_view(p)),
            project@,
            main_repo@,
        ),
{
    let n: usize = pts.len();
    let mut out: Vec<TsPoint> = Vec::new();
    let mut i: usize = 0;
    let ghost views = pts@.map_values(|p: TsPoint| pt_view(p));
    proof {
        reveal(Seq::filter);
        assert(views.subrange(0, 0) =~= Seq::<PtView>::empty());
        assert(out@.map_values(|p: TsPoint| pt_view(p)) =~= shared_point_views(
            views.subrange(0, 0),
            project@,
            main_repo@,
        ));
    }
    while i < n
        invariant
            i <= n,
            n == pts@.len(),
            views == pts@.map_values(|p: TsPoint| pt_view(p)),
            out@.map_values(|p: TsPoint| pt_view(p)) == shared_point_views(
                views.subrange(0, i as int),
                project@,
                main_repo@,
            ),
        decreases n - i,
    {
        let ghost pre_filtered = views.subrange(0, i as int).filter(
            |p: PtView| p.name == "annotations"@,
        );
        proof {
            reveal(Seq::filter);
            assert(views.subrange(0, i + 1 as int).drop_last() =~= views.subrange(0, i as int));
            assert(views.subrange(0, i + 1 as int).last() == views[i as int]);
            assert(views[i as int] == pt_view(pts@[i as int]));
        }
        let is_ann: bool = {
            let nm = &pts[i].name;
            let key = String::from_str("annotations");
            nm.eq(&key)
        };
        if is_ann {
            let src = &pts[i];
            let mut shared = src.duplicate();
            let ghost pv = pt_view(pts@[i as int]);
            let ghost dup_fields = shared.fields;
            shared.name = String::from_str("annotations_shared");
            let has_fields: bool = shared.fields.is_some();
            if has_fields {
                shared.period = project.to_owned();
                let mut fv = match shared.fields {
                    Some(fv) => fv,
                    None => Vec::new(),
                };
                let ghost fv_pre = fv@;
                fv.push((String::from_str("repo"), FieldValue::Txt(main_repo.to_owned())));
                proof {
                    assert(fv@.map_values(|kv: (String, FieldValue)| (kv.0@, fv_view(kv.1)))
                        =~= fv_pre.map_values(
                        |kv: (String, FieldValue)| (kv.0@, fv_view(kv.1)),
                    ).push(("repo"@, FvView::Txt(main_repo@))));
                }
                shared.fields = Some(fv);
            }
            proof {
                assert(pt_view(shared) =~~= shared_pt_view(pv, project@, main_repo@));
                assert(pt_view(shared) == shared_pt_view(pv, project@, main_repo@));
            }
            let ghost pre = out@;
            out.push(shared);
            proof {
                assert(out@.map_values(|p: TsPoint| pt_view(p)) =~= pre.map_values(
                    |p: TsPoint| pt_view(p),
                ).push(pt_view(shared)));
                assert(views.subrange(0, i + 1 as int).filter(|p: PtView| p.name == "annotations"@)
                    =~= pre_filtered.push(pt_view(pts@[i as int])));
                assert(pre_filtered.push(pt_view(pts@[i as int])).map_values(
                    |p: PtView| shared_pt_view(p, project@, main_repo@),
                ) =~= pre_filtered.map_values(
                    |p: PtView| shared_pt_view(p, project@, main_repo@),
                ).push(shared_pt_view(pt_view(pts@[i as int]), project@, main_repo@)));
            }
        } else {
            proof {
                assert(views.subrange(0, i + 1 as int).filter(|p: PtView| p.name == "annotations"@)
                    =~= pre_filtered);
            }
        }
        i = i + 1;
    }
    proof {
        assert(views.subrange(0, n as int) =~= views);
    }
    out
}

} // verus!
