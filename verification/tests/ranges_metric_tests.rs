//! Quick-range generation and calc-metric row interpretation.

use devstats::annotations::Annotation;
use devstats::error::EngineError;
use devstats::metric::{
    check_period, destination_series, escape_name, interpret_hist_row, interpret_row,
    parse_options, substitute_metric_sql, MetricSpec,
};
use devstats::num::{parse_decimal, Decimal};
use devstats::points::FieldValue;
use devstats::ranges::{quick_range_points, quick_ranges, QuickRange};
use devstats::timeutil::EPOCH_FLOOR;

// 2015-01-01, 2016-01-01, 2017-01-01, 2018-01-01, 2019-01-01
const D2015: i64 = 1420070400;
const D2016: i64 = 1451606400;
const D2017: i64 = 1483228800;
const D2018: i64 = 1514764800;
const D2019: i64 = 1546300800;
// 2020-06-15 01:01:01 UTC; the day after starts 2020-06-16 00:00:00.
const NOW: i64 = 1592182861;

fn dec(neg: bool, mantissa: u64, scale10: u32) -> Decimal {
    Decimal { neg, mantissa, scale10 }
}

fn dec_f64(d: &Decimal) -> f64 {
    let m = d.mantissa as f64 / 10f64.powi(d.scale10 as i32);
    if d.neg { -m } else { m }
}

fn suffixes(ranges: &[QuickRange]) -> Vec<String> {
    ranges.iter().map(|q| q.suffix.clone()).collect()
}

fn default_spec() -> MetricSpec {
    parse_options("")
}

#[test]
fn fixed_ranges_lead_the_catalogue() {
    let r = quick_ranges(&Vec::new(), None, None, None, None, NOW);
    let s = suffixes(&r);
    assert_eq!(
        s,
        vec!["d", "w", "d10", "m", "q", "m6", "y", "y2", "y3", "y5", "y10", "y100"]
    );
    assert_eq!(r[0].name, "Last day");
    assert_eq!(r[0].token.as_deref(), Some("1 day"));
    assert_eq!(r[11].name, "Last century");
    assert_eq!(r[11].token.as_deref(), Some("100 years"));
}

#[test]
fn milestone_phases_in_order() {
    let r = quick_ranges(&Vec::new(), Some(D2015), Some(D2016), Some(D2017), Some(D2018), NOW);
    let s = suffixes(&r);
    let tail: Vec<&str> = s[12..].iter().map(|x| x.as_str()).collect();
    assert_eq!(tail, vec!["c_b", "c_n", "c_j_i", "c_i_g", "c_g_n"]);
    // c_b spans [start, join); c_i_g spans [incubating, graduated).
    let cb = &r[12];
    assert_eq!(cb.from, Some(D2015));
    assert_eq!(cb.to, Some(D2016));
    assert_eq!(cb.name, "Before joining CNCF");
    let cig = &r[15];
    assert_eq!(cig.from, Some(D2017));
    assert_eq!(cig.to, Some(D2018));
    // volatile ranges end at the start of tomorrow
    let cn = &r[13];
    assert_eq!(cn.to, Some(1592265600));
}

#[test]
fn out_of_order_milestones_suppress_phase_ranges() {
    // graduation recorded before incubation: neither branch fires
    let r = quick_ranges(&Vec::new(), Some(D2015), Some(D2016), Some(D2019), Some(D2018), NOW);
    let s = suffixes(&r);
    let tail: Vec<&str> = s[12..].iter().map(|x| x.as_str()).collect();
    assert_eq!(tail, vec!["c_b", "c_n"]);
}

#[test]
fn graduation_without_incubation_gets_its_own_range() {
    let r = quick_ranges(&Vec::new(), Some(D2015), Some(D2016), None, Some(D2018), NOW);
    let s = suffixes(&r);
    let tail: Vec<&str> = s[12..].iter().map(|x| x.as_str()).collect();
    assert_eq!(tail, vec!["c_b", "c_n", "c_j_g", "c_g_n"]);
}

#[test]
fn incubation_without_graduation_is_volatile() {
    let r = quick_ranges(&Vec::new(), Some(D2015), Some(D2016), Some(D2017), None, NOW);
    let s = suffixes(&r);
    let tail: Vec<&str> = s[12..].iter().map(|x| x.as_str()).collect();
    assert_eq!(tail, vec!["c_b", "c_n", "c_j_i", "c_i_n"]);
}

#[test]
fn annotation_ranges_link_consecutive_annotations() {
    let timeline = vec![
        Annotation { name: "v1".to_string(), description: String::new(), date: D2015 },
        Annotation { name: "v2".to_string(), description: String::new(), date: D2016 },
    ];
    let r = quick_ranges(&timeline, None, None, None, None, NOW);
    let s = suffixes(&r);
    let tail: Vec<&str> = s[12..].iter().map(|x| x.as_str()).collect();
    assert_eq!(tail, vec!["a_0_1", "a_1_n"]);
    assert_eq!(r[12].name, "v1 - v2");
    assert_eq!(r[12].from, Some(D2015));
    assert_eq!(r[12].to, Some(D2016));
    assert_eq!(r[13].name, "v2 - now");
    assert_eq!(r[13].to, Some(1592265600));
}

#[test]
fn quick_range_points_space_hours_and_encode_data() {
    let timeline = vec![
        Annotation { name: "v1".to_string(), description: String::new(), date: D2015 },
    ];
    let ranges = quick_ranges(&timeline, Some(D2015), Some(D2016), None, None, NOW);
    let pts = quick_range_points(&ranges, NOW);
    assert_eq!(pts.len(), ranges.len());
    for (k, p) in pts.iter().enumerate() {
        assert_eq!(p.name, "quick_ranges");
        assert_eq!(p.time, EPOCH_FLOOR + 3600 * k as i64);
        let tags = p.tags.as_ref().unwrap();
        assert_eq!(tags[0].0, "quick_ranges_suffix");
        assert_eq!(tags[1].0, "quick_ranges_name");
        assert_eq!(tags[2].0, "quick_ranges_data");
    }
    // a fixed relative range carries its duration token
    assert_eq!(pts[0].tags.as_ref().unwrap()[2].1, "d;1 day;;");
    // a dated range carries its bounds in Y-m-d H:M:S form
    let a0 = &pts[12].tags.as_ref().unwrap()[2].1;
    assert_eq!(a0, "a_0_n;;2015-01-01 00:00:00;2020-06-16 00:00:00");
    let cb = &pts[13].tags.as_ref().unwrap()[2].1;
    assert_eq!(cb, "c_b;;2015-01-01 00:00:00;2016-01-01 00:00:00");
}

#[test]
fn one_column_row_scales_exactly() {
    let spec = default_spec();
    let row = vec![FieldValue::Num(dec(false, 35, 1))];
    let pts = interpret_row(&row, "commits", "d", &spec).unwrap();
    assert_eq!(pts.len(), 1);
    assert_eq!(pts[0].name, "commits_d");
    // scale one: value unchanged, floating-point exact
    assert_eq!(dec_f64(&pts[0].value), 3.5);
    assert_eq!(pts[0].value.mantissa, 35);
    assert_eq!(pts[0].value.scale10, 1);
}

#[test]
fn comma_separated_names_expand_columns() {
    let mut spec = default_spec();
    spec.project_scale = dec(false, 20, 1);  // 2.0
    let row = vec![
        FieldValue::Txt("alice,bob".to_string()),
        FieldValue::Num(dec(false, 35, 1)),  // 3.5
        FieldValue::Num(dec(false, 70, 1)),  // 7.0
    ];
    let pts = interpret_row(&row, "s", "d", &spec).unwrap();
    assert_eq!(pts.len(), 2);
    assert_eq!(pts[0].name, "alice_d_0");
    assert_eq!(dec_f64(&pts[0].value), 7.0);
    assert_eq!(pts[1].name, "bob_d_1");
    assert_eq!(dec_f64(&pts[1].value), 14.0);
}

#[test]
fn keyed_row_uses_the_series_name() {
    let spec = default_spec();
    let row = vec![FieldValue::Txt("rust".to_string()), FieldValue::Num(dec(false, 4, 0))];
    let pts = interpret_row(&row, "prs", "w", &spec).unwrap();
    assert_eq!(pts.len(), 1);
    assert_eq!(pts[0].name, "prs_rust_w");
    assert_eq!(dec_f64(&pts[0].value), 4.0);
}

#[test]
fn non_numeric_value_column_is_an_error() {
    let spec = default_spec();
    let row = vec![FieldValue::Txt("x".to_string())];
    assert!(matches!(interpret_row(&row, "s", "d", &spec), Err(EngineError::NonNumericColumn(0))));
    let row2 = vec![FieldValue::Num(dec(false, 1, 0)), FieldValue::Num(dec(false, 1, 0))];
    assert!(matches!(interpret_row(&row2, "s", "d", &spec), Err(EngineError::NonTextColumn(0))));
}

#[test]
fn scaling_overflow_is_an_error() {
    let mut spec = default_spec();
    spec.project_scale = dec(false, u64::MAX, 0);
    let row = vec![FieldValue::Num(dec(false, 2, 0))];
    assert!(matches!(interpret_row(&row, "s", "d", &spec), Err(EngineError::NumericOverflow)));
}

#[test]
fn histogram_rows_are_never_scaled() {
    let mut spec = default_spec();
    spec.hist = true;
    spec.project_scale = dec(false, 20, 1);
    let row = vec![FieldValue::Txt("7 days".to_string()), FieldValue::Num(dec(false, 55, 1))];
    let pts = interpret_hist_row(&row, "time_to_merge", &spec).unwrap();
    assert_eq!(pts.len(), 1);
    assert_eq!(pts[0].series, "time_to_merge");
    assert_eq!(pts[0].bucket, "7 days");
    assert_eq!(dec_f64(&pts[0].value), 5.5);
    let row3 = vec![
        FieldValue::Txt("backend".to_string()),
        FieldValue::Txt("7 days".to_string()),
        FieldValue::Num(dec(false, 3, 0)),
    ];
    let pts3 = interpret_hist_row(&row3, "ttm", &spec).unwrap();
    assert_eq!(pts3[0].series, "ttm_backend");
    assert_eq!(pts3[0].bucket, "7 days");
}

#[test]
fn option_string_round_trip() {
    let spec = parse_options(
        "hist,multivalue,escape_value_name,annotations_ranges,skip_past,desc:time to x,merge_series:shared,project_scale:2.0,custom_data,drop:ta;tb",
    );
    assert!(spec.hist);
    assert!(spec.multivalue);
    assert!(spec.escape_value_name);
    assert!(!spec.skip_escape_series_name);
    assert!(spec.annotations_ranges);
    assert!(spec.skip_past);
    assert!(spec.custom_data);
    assert_eq!(spec.desc, "time to x");
    assert_eq!(spec.merge_series, "shared");
    assert_eq!(spec.project_scale.mantissa, 20);
    assert_eq!(spec.project_scale.scale10, 1);
    assert!(!spec.project_scale.neg);
    assert_eq!(spec.drop_tables, vec!["ta".to_string(), "tb".to_string()]);
}

#[test]
fn unknown_options_are_ignored_and_bad_scale_resets() {
    let spec = parse_options("nonsense,project_scale:abc");
    assert!(!spec.hist);
    assert_eq!(spec.project_scale.mantissa, 1);
    assert_eq!(spec.project_scale.scale10, 0);
}

#[test]
fn sql_substitution_is_verbatim() {
    let sql = "select count(*) from gha_events where created_at >= {{from}} and created_at < {{to}} {{exclude_bots}} -- {{period}}";
    let r = substitute_metric_sql(sql, D2015, D2016, "d", true);
    assert_eq!(
        r,
        "select count(*) from gha_events where created_at >= '2015-01-01 00:00:00' and created_at < '2016-01-01 00:00:00' and (lower(actor_login) not similar to '%bot%|%\\[bot\\]%') -- d"
    );
    let r2 = substitute_metric_sql("{{period}}", D2015, D2016, "w", false);
    assert_eq!(r2, "w");
}

#[test]
fn period_codes_are_checked() {
    for p in ["h", "d", "w", "m", "q", "y"] {
        assert!(check_period(p));
    }
    assert!(!check_period("x"));
    assert!(!check_period(""));
}

#[test]
fn merge_series_redirects_output() {
    let mut spec = default_spec();
    assert_eq!(destination_series(&spec, "prs_d"), "prs_d");
    spec.merge_series = "shared".to_string();
    assert_eq!(destination_series(&spec, "prs_d"), "shared");
}

#[test]
fn name_escaping_keeps_the_safe_set() {
    assert_eq!(escape_name("alice-bob.C 9_x"), "alice_bob_C_9_x");
    let mut spec = default_spec();
    spec.escape_value_name = true;
    let row = vec![FieldValue::Txt("a-b".to_string()), FieldValue::Num(dec(false, 1, 0))];
    let pts = interpret_row(&row, "s", "d", &spec).unwrap();
    assert_eq!(pts[0].name, "s_a_b_d");
}

#[test]
fn decimal_parsing() {
    let d = parse_decimal("3.5").unwrap();
    assert_eq!((d.neg, d.mantissa, d.scale10), (false, 35, 1));
    let d2 = parse_decimal("-0.25").unwrap();
    assert_eq!((d2.neg, d2.mantissa, d2.scale10), (true, 25, 2));
    let d3 = parse_decimal("42").unwrap();
    assert_eq!((d3.neg, d3.mantissa, d3.scale10), (false, 42, 0));
    assert!(parse_decimal("").is_none());
    assert!(parse_decimal("1.2.3").is_none());
    assert!(parse_decimal("x").is_none());
}

#[test]
fn empty_rows_give_no_points() {
    let spec = default_spec();
    let row: Vec<FieldValue> = Vec::new();
    assert!(interpret_row(&row, "s", "d", &spec).unwrap().is_empty());
    assert!(interpret_hist_row(&row, "s", &spec).unwrap().is_empty());
    let one = vec![FieldValue::Num(dec(false, 1, 0))];
    assert!(interpret_hist_row(&one, "s", &spec).unwrap().is_empty());
}

#[test]
fn error_messages_identify_the_problem() {
    let spec = default_spec();
    let row = vec![FieldValue::Null];
    let err = interpret_row(&row, "s", "d", &spec).unwrap_err();
    assert_eq!(err.message(), "result column 0 is not numeric");
    let row2 = vec![
        FieldValue::Txt("a,b".to_string()),
        FieldValue::Num(dec(false, 1, 0)),
        FieldValue::Null,
    ];
    let err2 = interpret_row(&row2, "s", "d", &spec).unwrap_err();
    assert_eq!(err2.message(), "result column 2 is not numeric");
    match devstats::extract::annotation_filter("(unclosed") {
        Err(err3) => assert_eq!(err3.message(), "invalid annotation filter pattern: '(unclosed'"),
        Ok(_) => panic!("pattern should not compile"),
    }
}
