//! Tag-history extraction and timeline assembly.

use devstats::annotations::{
    dedup_annotations, get_fake_annotations, milestone_only_annotations, sort_annotations,
    Annotation,
};
use devstats::error::EngineError;
use devstats::extract::{annotation_filter, extract_annotations, parse_tag_history};

fn ann(name: &str, date: i64) -> Annotation {
    Annotation { name: name.to_string(), description: String::new(), date }
}

#[test]
fn two_tag_lines_give_two_annotations() {
    // 2012-07-01T00:00:00Z and 2012-07-02T00:00:00Z: different hour
    // buckets, so nothing is deduplicated.
    let text = "v1.0\u{2642}\u{2640}1341100800\u{2642}\u{2640}Initial release\n\
                v1.1\u{2642}\u{2640}1341187200\u{2642}\u{2640}Second release with a very long commit subject line exceeding forty chars\n";
    let r = extract_annotations(text, None).unwrap();
    assert_eq!(r.annotations.len(), 2);
    assert_eq!(r.annotations[0].name, "v1.0");
    assert_eq!(r.annotations[0].description, "Initial release");
    assert_eq!(r.annotations[0].date, 1341100800);
    assert_eq!(r.annotations[1].name, "v1.1");
    assert_eq!(r.annotations[1].date, 1341187200);
    // Truncated to exactly 40 characters.
    assert_eq!(r.annotations[1].description.chars().count(), 40);
    assert_eq!(r.annotations[1].description, "Second release with a very long commit s");
}

#[test]
fn corrupt_line_aborts_the_run() {
    let text = "v1.0\u{2642}\u{2640}1341100800\n";
    let r = extract_annotations(text, None);
    assert!(matches!(r, Err(EngineError::CorruptTagLine(_))));
    if let Err(e) = r {
        let msg = e.message();
        assert!(msg.contains("v1.0"));
    }
}

#[test]
fn blank_lines_are_skipped() {
    let text = "\n   \nv1.0\u{2642}\u{2640}1341100800\u{2642}\u{2640}x\n\n";
    let r = extract_annotations(text, None).unwrap();
    assert_eq!(r.annotations.len(), 1);
}

#[test]
fn empty_and_malformed_timestamps_are_dropped() {
    let text = "a\u{2642}\u{2640}\u{2642}\u{2640}x\n\
                b\u{2642}\u{2640}notanumber\u{2642}\u{2640}y\n\
                c\u{2642}\u{2640}1341100800\u{2642}\u{2640}z\n";
    let r = extract_annotations(text, None).unwrap();
    assert_eq!(r.annotations.len(), 1);
    assert_eq!(r.annotations[0].name, "c");
}

#[test]
fn timestamps_before_the_epoch_floor_are_dropped() {
    let text = "old\u{2642}\u{2640}1341100799\u{2642}\u{2640}x\n\
                new\u{2642}\u{2640}1341100800\u{2642}\u{2640}y\n";
    let r = extract_annotations(text, None).unwrap();
    assert_eq!(r.annotations.len(), 1);
    assert_eq!(r.annotations[0].name, "new");
}

#[test]
fn filter_keeps_matching_tags_only() {
    let f = annotation_filter("^v\\d").unwrap();
    let text = "v1.0\u{2642}\u{2640}1341100800\u{2642}\u{2640}x\n\
                test-tag\u{2642}\u{2640}1341187200\u{2642}\u{2640}y\n\
                v2.0\u{2642}\u{2640}1341273600\u{2642}\u{2640}z\n";
    let r = extract_annotations(text, Some(&f)).unwrap();
    assert_eq!(r.annotations.len(), 2);
    assert_eq!(r.annotations[0].name, "v1.0");
    assert_eq!(r.annotations[1].name, "v2.0");
}

#[test]
fn invalid_filter_pattern_is_reported() {
    let r = annotation_filter("(unclosed");
    assert!(matches!(r, Err(EngineError::InvalidFilter(_))));
}

#[test]
fn same_hour_annotations_keep_the_first() {
    // Three annotations inside one hour, then one in the next hour.
    let text = "a\u{2642}\u{2640}1341100800\u{2642}\u{2640}first\n\
                b\u{2642}\u{2640}1341101400\u{2642}\u{2640}second\n\
                c\u{2642}\u{2640}1341102000\u{2642}\u{2640}third\n\
                d\u{2642}\u{2640}1341104400\u{2642}\u{2640}next hour\n";
    let r = extract_annotations(text, None).unwrap();
    assert_eq!(r.annotations.len(), 2);
    assert_eq!(r.annotations[0].name, "a");
    assert_eq!(r.annotations[1].name, "d");
}

#[test]
fn dedup_keeps_ascending_distinct_hours() {
    let v = vec![
        ann("a", 1341100800),
        ann("b", 1341100801),
        ann("c", 1341104400),
        ann("d", 1341104401),
        ann("e", 1341108000),
    ];
    let r = dedup_annotations(&v);
    let names: Vec<&str> = r.iter().map(|a| a.name.as_str()).collect();
    assert_eq!(names, vec!["a", "c", "e"]);
    for w in r.windows(2) {
        assert!(w[0].date / 3600 < w[1].date / 3600);
    }
}

#[test]
fn sort_orders_by_date() {
    let v = vec![ann("late", 1341187200), ann("early", 1341100800), ann("mid", 1341104400)];
    let r = sort_annotations(v);
    let names: Vec<&str> = r.iter().map(|a| a.name.as_str()).collect();
    assert_eq!(names, vec!["early", "mid", "late"]);
}

#[test]
fn sort_keeps_discovery_order_for_equal_dates() {
    let v = vec![
        ann("b-first", 1341104400),
        ann("a-early", 1341100800),
        ann("b-second", 1341104400),
        ann("b-third", 1341104400),
    ];
    let r = sort_annotations(v);
    let names: Vec<&str> = r.iter().map(|a| a.name.as_str()).collect();
    assert_eq!(names, vec!["a-early", "b-first", "b-second", "b-third"]);
    // and the hour deduplication of the stable order keeps the first seen
    let d = dedup_annotations(&r);
    let kept: Vec<&str> = d.iter().map(|a| a.name.as_str()).collect();
    assert_eq!(kept, vec!["a-early", "b-first"]);
}

#[test]
fn fake_annotations_for_valid_dates() {
    // 2015-01-01 and 2016-01-01.
    let r = get_fake_annotations(1420070400, 1451606400);
    assert_eq!(r.annotations.len(), 2);
    assert_eq!(r.annotations[0].name, "Project start");
    assert_eq!(r.annotations[0].description, "2015-01-01 - project starts");
    assert_eq!(r.annotations[0].date, 1420070400);
    assert_eq!(r.annotations[1].name, "First CNCF project join date");
    assert_eq!(r.annotations[1].description, "2016-01-01");
    assert_eq!(r.annotations[1].date, 1451606400);
}

#[test]
fn fake_annotations_rejects_bad_pairs() {
    // join before start
    assert_eq!(get_fake_annotations(1451606400, 1420070400).annotations.len(), 0);
    // equal dates
    assert_eq!(get_fake_annotations(1420070400, 1420070400).annotations.len(), 0);
    // start before the epoch floor
    assert_eq!(get_fake_annotations(1341100799, 1451606400).annotations.len(), 0);
}

#[test]
fn milestone_only_annotation_sources() {
    assert_eq!(milestone_only_annotations(None, None).annotations.len(), 0);
    let single = milestone_only_annotations(Some(1420070400), None);
    assert_eq!(single.annotations.len(), 1);
    assert_eq!(single.annotations[0].name, "Project start");
    assert_eq!(single.annotations[0].description, "2015-01-01 - project starts");
    let both = milestone_only_annotations(Some(1420070400), Some(1451606400));
    assert_eq!(both.annotations.len(), 2);
    assert_eq!(both.annotations[0].name, "Project start");
    assert_eq!(both.annotations[0].description, "2015-01-01 - project starts");
    assert_eq!(both.annotations[0].date, 1420070400);
    assert_eq!(both.annotations[1].name, "First CNCF project join date");
    assert_eq!(both.annotations[1].description, "2016-01-01");
    assert_eq!(both.annotations[1].date, 1451606400);
    // join date present but inconsistent: nothing is synthesized
    let bad = milestone_only_annotations(Some(1451606400), Some(1420070400));
    assert_eq!(bad.annotations.len(), 0);
}

#[test]
fn parse_keeps_line_order() {
    let text = "z\u{2642}\u{2640}1341187200\u{2642}\u{2640}later\n\
                a\u{2642}\u{2640}1341100800\u{2642}\u{2640}earlier\n";
    let r = parse_tag_history(text, None).unwrap();
    assert_eq!(r[0].name, "z");
    assert_eq!(r[1].name, "a");
}

#[test]
fn subject_truncation_counts_characters() {
    // 45 two-byte characters: truncation is by character count.
    let subject: String = std::iter::repeat('\u{e9}').take(45).collect();
    let text = format!("v\u{2642}\u{2640}1341100800\u{2642}\u{2640}{subject}\n");
    let r = extract_annotations(&text, None).unwrap();
    assert_eq!(r.annotations[0].description.chars().count(), 40);
}

#[test]
fn subject_whitespace_is_normalized_after_truncation() {
    let text = "v\u{2642}\u{2640}1341100800\u{2642}\u{2640}a\tb\n";
    let r = extract_annotations(text, None).unwrap();
    assert_eq!(r.annotations[0].description, "a b");
}
