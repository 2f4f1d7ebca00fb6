//! Statement building, text utilities and the remaining helpers.

use devstats::annotations::Annotation;
use devstats::assemble::{annotation_points, milestone_points, shared_annotation_points};
use devstats::columns_cfg::{alter_column_sql, match_tables};
use devstats::extract::annotation_filter;
use devstats::num::Decimal;
use devstats::points::{FieldValue, TsPoint};
use devstats::project::{AllProjects, Project};
use devstats::tags_cfg::{
    default_limit, effective_limit, prepare_tag_sql, substitute_sql_parameters,
    truncate_series_sql,
};
use devstats::text::{parse_i64, sanitize_utf8, u64_to_text};
use devstats::timeutil::{hour_start, next_day_start};
use devstats::writer::{
    insert_statements, points_of_series, stale_ranges_delete_sql, table_of, SqlValue,
};

const D2015: i64 = 1420070400;
const NOW: i64 = 1592182861;

#[test]
fn hour_and_day_bucketing() {
    assert_eq!(hour_start(1341104461), 1341104400);
    assert_eq!(hour_start(1341100800), 1341100800);
    assert_eq!(next_day_start(1592182861), 1592265600);
    assert_eq!(next_day_start(1592179200), 1592265600);
}

#[test]
fn sanitizing_strips_control_characters() {
    assert_eq!(sanitize_utf8("a\u{0}b\u{7}c"), "abc");
    assert_eq!(sanitize_utf8("a\nb\tc\r"), "a\nb\tc\r");
    assert_eq!(sanitize_utf8("plain"), "plain");
}

#[test]
fn integer_parsing_hits_the_i64_bounds() {
    let to_chars = |s: &str| s.chars().collect::<Vec<char>>();
    assert_eq!(parse_i64(&to_chars("0")), Some(0));
    assert_eq!(parse_i64(&to_chars("+42")), Some(42));
    assert_eq!(parse_i64(&to_chars("-17")), Some(-17));
    assert_eq!(parse_i64(&to_chars("9223372036854775807")), Some(i64::MAX));
    assert_eq!(parse_i64(&to_chars("-9223372036854775808")), Some(i64::MIN));
    assert_eq!(parse_i64(&to_chars("9223372036854775808")), None);
    assert_eq!(parse_i64(&to_chars("")), None);
    assert_eq!(parse_i64(&to_chars("12x")), None);
}

#[test]
fn decimal_rendering() {
    assert_eq!(u64_to_text(0), "0");
    assert_eq!(u64_to_text(7), "7");
    assert_eq!(u64_to_text(1341100800), "1341100800");
}

#[test]
fn point_times_truncate_unless_exact() {
    let p = TsPoint::new("s".to_string(), String::new(), None, None, 1341104461, false, NOW);
    assert_eq!(p.time, 1341104400);
    assert_eq!(p.added, NOW);
    let q = TsPoint::new("s".to_string(), String::new(), None, None, 1341104461, true, NOW);
    assert_eq!(q.time, 1341104461);
    let shown = p.display();
    assert_eq!(shown, "2012-07-01 01:00:00 2020-06-15 01:00:00 s period: ");
}

#[test]
fn annotation_points_carry_title_and_description() {
    let timeline = vec![Annotation {
        name: "v1\u{1}".to_string(),
        description: "first".to_string(),
        date: 1341104461,
    }];
    let pts = annotation_points(&timeline, NOW);
    assert_eq!(pts.len(), 1);
    assert_eq!(pts[0].name, "annotations");
    assert_eq!(pts[0].time, 1341104400);
    let fields = pts[0].fields.as_ref().unwrap();
    assert_eq!(fields[0].0, "title");
    assert!(matches!(&fields[0].1, FieldValue::Txt(t) if t == "v1"));
    assert_eq!(fields[1].0, "description");
    assert!(matches!(&fields[1].1, FieldValue::Txt(t) if t == "first"));
}

#[test]
fn milestone_points_respect_the_start_join_guard() {
    // join before start: neither marker, but later milestones still come
    let pts = milestone_points(Some(1451606400), Some(D2015), Some(1483228800), None, None, NOW);
    assert_eq!(pts.len(), 1);
    let fields = pts[0].fields.as_ref().unwrap();
    assert!(matches!(&fields[0].1, FieldValue::Txt(t) if t == "Moved to incubating state"));
    // consistent pair: start, join, graduated, archived markers
    let pts2 = milestone_points(Some(D2015), Some(1451606400), None, Some(1483228800), Some(1514764800), NOW);
    assert_eq!(pts2.len(), 4);
    let titles: Vec<String> = pts2
        .iter()
        .map(|p| match &p.fields.as_ref().unwrap()[0].1 {
            FieldValue::Txt(t) => t.clone(),
            _ => String::new(),
        })
        .collect();
    assert_eq!(titles, vec!["Project start date", "CNCF join date", "Graduated", "Archived"]);
    let descs: Vec<String> = pts2
        .iter()
        .map(|p| match &p.fields.as_ref().unwrap()[1].1 {
            FieldValue::Txt(t) => t.clone(),
            _ => String::new(),
        })
        .collect();
    assert_eq!(descs[0], "2015-01-01 - project starts");
    assert_eq!(descs[1], "2016-01-01 - joined CNCF");
    assert_eq!(descs[2], "2017-01-01 - project graduated");
    assert_eq!(descs[3], "2018-01-01 - project was archived");
}

#[test]
fn shared_points_mirror_annotations_only() {
    let ann_pt = TsPoint::new(
        "annotations".to_string(),
        String::new(),
        None,
        Some(vec![("title".to_string(), FieldValue::Txt("v1".to_string()))]),
        D2015,
        false,
        NOW,
    );
    let other = TsPoint::new("quick_ranges".to_string(), String::new(), None, None, D2015, false, NOW);
    let pts = vec![ann_pt, other];
    let shared = shared_annotation_points(&pts, "myproj", "org/repo");
    assert_eq!(shared.len(), 1);
    assert_eq!(shared[0].name, "annotations_shared");
    assert_eq!(shared[0].period, "myproj");
    let fields = shared[0].fields.as_ref().unwrap();
    assert_eq!(fields[fields.len() - 1].0, "repo");
    assert!(matches!(&fields[fields.len() - 1].1, FieldValue::Txt(t) if t == "org/repo"));
}

#[test]
fn stale_volatile_rows_are_deleted_first() {
    assert_eq!(
        stale_ranges_delete_sql("tquick_ranges", "quick_ranges_suffix"),
        "DELETE FROM \"tquick_ranges\" WHERE \"quick_ranges_suffix\" LIKE '%_n'"
    );
    assert_eq!(table_of("quick_ranges"), "tquick_ranges");
}

#[test]
fn insert_statements_bind_by_position() {
    let mk = |sfx: &str| {
        TsPoint::new(
            "quick_ranges".to_string(),
            String::new(),
            Some(vec![("quick_ranges_suffix".to_string(), sfx.to_string())]),
            None,
            D2015,
            false,
            NOW,
        )
    };
    let pts = vec![mk("d"), mk("w")];
    let stmts = insert_statements("tquick_ranges", &pts);
    assert_eq!(stmts.len(), 1);
    assert_eq!(
        stmts[0].sql,
        "INSERT INTO \"tquick_ranges\" (\"time\", \"time_hour\", \"quick_ranges_suffix\") VALUES ($1, $2, $3), ($4, $5, $6)"
    );
    assert_eq!(stmts[0].params.len(), 6);
    assert!(matches!(stmts[0].params[0], SqlValue::Ts(t) if t == D2015));
    assert!(matches!(stmts[0].params[1], SqlValue::Ts(t) if t == D2015));
    assert!(matches!(&stmts[0].params[2], SqlValue::Txt(t) if t == "d"));
    assert!(matches!(&stmts[0].params[5], SqlValue::Txt(t) if t == "w"));
}

#[test]
fn inserts_are_chunked_to_a_thousand_rows() {
    let mut pts = Vec::new();
    for _k in 0..1001 {
        pts.push(TsPoint::new("s".to_string(), String::new(), None, None, D2015, false, NOW));
    }
    let stmts = insert_statements("ts", &pts);
    assert_eq!(stmts.len(), 2);
    assert_eq!(stmts[0].params.len(), 2000);
    assert_eq!(stmts[1].params.len(), 2);
    assert_eq!(stmts[1].sql, "INSERT INTO \"ts\" (\"time\", \"time_hour\") VALUES ($1, $2)");
}

#[test]
fn points_are_split_by_series() {
    let a = TsPoint::new("annotations".to_string(), String::new(), None, None, D2015, false, NOW);
    let b = TsPoint::new("quick_ranges".to_string(), String::new(), None, None, D2015, false, NOW);
    let c = TsPoint::new("annotations".to_string(), String::new(), None, None, D2015 + 7200, false, NOW);
    let pts = vec![a, b, c];
    let anns = points_of_series(&pts, &"annotations".to_string());
    assert_eq!(anns.len(), 2);
    assert_eq!(anns[0].time, D2015);
    assert_eq!(anns[1].time, D2015 + 7200);
}

#[test]
fn tag_sql_preparation() {
    assert_eq!(default_limit(), 127);
    assert_eq!(effective_limit(0), 127);
    assert_eq!(effective_limit(-5), 127);
    assert_eq!(effective_limit(9), 9);
    assert_eq!(
        prepare_tag_sql("select x limit {{lim}} -- {{exclude_bots}}", 9, "and true"),
        "select x limit 9 -- and true"
    );
    assert_eq!(truncate_series_sql("tags"), "TRUNCATE TABLE IF EXISTS ttags");
    assert_eq!(
        substitute_sql_parameters("from {{from}} to {{to}} by {{period}}", D2015, 1451606400),
        "from 2015-01-01 to 2016-01-01 by d"
    );
}

#[test]
fn column_maintenance_statements() {
    assert_eq!(
        alter_column_sql("tprs", "lang", false),
        "ALTER TABLE tprs ADD COLUMN IF NOT EXISTS lang text"
    );
    assert_eq!(
        alter_column_sql("tprs", "authors", true),
        "ALTER TABLE tprs ADD COLUMN IF NOT EXISTS authors hll"
    );
    let f = annotation_filter("^tq").unwrap();
    let names = vec!["tquick_ranges".to_string(), "tprs".to_string(), "tq2".to_string()];
    assert_eq!(match_tables(&names, &f), vec!["tquick_ranges".to_string(), "tq2".to_string()]);
}

#[test]
fn project_lookup_finds_the_first_entry() {
    let p = |n: &str| Project {
        name: n.to_string(),
        main_repo: String::new(),
        annotation_regexp: String::new(),
        start_date: None,
        join_date: None,
        incubating_date: None,
        graduated_date: None,
        archived_date: None,
        shared_db: String::new(),
    };
    let all = AllProjects {
        projects: vec![("kubernetes".to_string(), p("kubernetes")), ("etcd".to_string(), p("etcd"))],
    };
    assert_eq!(all.find("etcd"), Some(1));
    assert_eq!(all.find("nope"), None);
    let mut with_repo = p("k8s");
    with_repo.main_repo = "org/repo".to_string();
    assert!(AllProjects::uses_tag_history(&with_repo));
    assert!(!AllProjects::uses_tag_history(&p("x")));
}

#[test]
fn decimal_copies_are_plain_values() {
    let d = Decimal { neg: true, mantissa: 5, scale10: 1 };
    let e = d;
    assert_eq!(e.mantissa, 5);
    assert!(e.neg);
}

#[test]
fn no_points_means_no_statements() {
    let pts: Vec<TsPoint> = Vec::new();
    assert!(insert_statements("ts", &pts).is_empty());
    assert!(points_of_series(&pts, &"s".to_string()).is_empty());
}
