//! Tag-history extraction: one annotation candidate per tag line.
//!
//! A tag line holds three fields joined by the two-character separator
//! chosen to never collide with tag names, dates or subjects.  A
//! non-empty line that does not split into exactly three fields aborts
//! the run; a candidate with a missing, malformed or too-old timestamp
//! is dropped; an optional filter pattern keeps matching tag names only.

use vstd::prelude::*;
use crate::annotations::{
    Annotation, Annotations, valid_instant, ann_dates_sorted, strictly_inc_buckets,
    all_instants_valid, sort_annotations, dedup_annotations, dedup_hours_spec, stable_sorted,
    lemma_dedup_no_shared_hour, lemma_dedup_from_contains, lemma_perm_instants_valid,
};
use crate::error::EngineError;
use crate::text::{
    split_text, split_by, trimmed, trim_chars, chars_of, string_of_chars, cleaned_subject,
    clean_subject, is_int_text, int_text_value, parse_i64,
};
use crate::timeutil::{EPOCH_FLOOR, MAX_INSTANT};
use vstd::string::StringExecFns;

verus! {

#[verifier::external_type_specification]
#[verifier::external_body]
pub struct ExRegex(regex::Regex);

#[verifier::external_type_specification]
#[verifier::external_body]
pub struct ExRegexError(regex::Error);

/// Whether the regex engine's `is_match` accepts `text` under
/// `pattern`; a function of the two texts alone.
pub uninterp spec fn regex_match(pattern: Seq<char>, text: Seq<char>) -> bool;

/// Whether the regex engine's `new` accepts `pattern` as a valid
/// expression; a function of the pattern text alone.
pub uninterp spec fn regex_compiles(pattern: Seq<char>) -> bool;

/// A compiled annotation filter, remembering the pattern it was
/// compiled from.
pub struct TagFilter {
    pattern: String,
    re: regex::Regex,
}

impl TagFilter {
    pub closed spec fn pattern_view(&self) -> Seq<char> {
        self.pattern@
    }

    /// Relies on `regex::Regex::new`: it accepts or rejects a pattern
    /// by its text alone, and on acceptance the filter holds the
    /// compiled form of exactly the pattern it was given.
    #[verifier::external_body]
    fn compile_raw(pattern: &str) -> (r: Result<TagFilter, regex::Error>)
        ensures
            r is Ok <==> regex_compiles(pattern@),
            r matches Ok(f) ==> f.pattern_view() == pattern@,
    {
        match regex::Regex::new(pattern) {
            Ok(re) => Ok(TagFilter { pattern: pattern.to_owned(), re }),
            Err(e) => Err(e),
        }
    }

    /// Relies on `regex::Regex::is_match`: the answer depends on the
    /// compiled pattern and the text alone.
    #[verifier::external_body]
    pub fn is_match(&self, text: &str) -> (r: bool)
        ensures
            r == regex_match(self.pattern_view(), text@),
    {
        self.re.is_match(text)
    }
}

/// Compile an annotation filter pattern: a working filter exactly when
/// the regex engine accepts the pattern, the engine's own error
/// (carrying the pattern) exactly when it does not.
pub fn annotation_filter(pattern: &str) -> (r: Result<TagFilter, EngineError>)
    ensures
        r is Ok <==> regex_compiles(pattern@),
        r matches Ok(f) ==> f.pattern_view() == pattern@,
        r matches Err(e) ==> e matches EngineError::InvalidFilter(p) && p@ == pattern@,
{
    match TagFilter::compile_raw(pattern) {
        Ok(f) => Ok(f),
        Err(_) => Err(EngineError::InvalidFilter(pattern.to_owned())),
    }
}

/// The two-character field separator of tag-history lines.
pub open spec fn tag_sep() -> Seq<char> {
    seq!['\u{2642}', '\u{2640}']
}

/// What an annotation holds, as mathematical values.
pub struct AnnView {
    pub name: Seq<char>,
    pub description: Seq<char>,
    pub date: int,
}

pub open spec fn ann_view(a: Annotation) -> AnnView {
    AnnView { name: a.name@, description: a.description@, date: a.date as int }
}

pub open spec fn line_is_blank(line: Seq<char>) -> bool {
    trimmed(line).len() == 0
}

pub open spec fn line_fields(line: Seq<char>) -> Seq<Seq<char>> {
    split_text(trimmed(line), tag_sep())
}

/// A non-empty line that does not split into exactly three fields.
pub open spec fn line_is_corrupt(line: Seq<char>) -> bool {
    !line_is_blank(line) && line_fields(line).len() != 3
}

pub open spec fn line_passes_filter(line: Seq<char>, filter: Option<Seq<char>>) -> bool {
    match filter {
        None => true,
        Some(p) => regex_match(p, line_fields(line)[0]),
    }
}

/// A line that contributes an annotation: well-formed, matching the
/// filter, with a timestamp inside the engine's accepted range.
pub open spec fn line_kept(line: Seq<char>, filter: Option<Seq<char>>) -> bool {
    &&& !line_is_blank(line)
    &&& line_fields(line).len() == 3
    &&& line_passes_filter(line, filter)
    &&& is_int_text(line_fields(line)[1])
    &&& valid_instant(int_text_value(line_fields(line)[1]))
}

/// The annotation a kept line denotes: the tag name, the subject
/// truncated to 40 characters and whitespace-normalized, the timestamp.
pub open spec fn line_ann_view(line: Seq<char>) -> AnnView {
    AnnView {
        name: line_fields(line)[0],
        description: cleaned_subject(line_fields(line)[2]),
        date: int_text_value(line_fields(line)[1]),
    }
}

/// All annotations of a tag history, in line order.
pub open spec fn parsed_tag_history(lines: Seq<Seq<char>>, filter: Option<Seq<char>>) -> Seq<
    AnnView,
>
    decreases lines.len(),
{
    if lines.len() == 0 {
        Seq::empty()
    } else {
        let rest = parsed_tag_history(lines.drop_first(), filter);
        if line_kept(lines[0], filter) {
            seq![line_ann_view(lines[0])] + rest
        } else {
            rest
        }
    }
}

pub open spec fn filter_view(filter: Option<&TagFilter>) -> Option<Seq<char>> {
    match filter {
        Some(f) => Some(f.pattern_view()),
        None => None,
    }
}

pub open spec fn history_lines(text: Seq<char>) -> Seq<Seq<char>> {
    split_text(text, seq!['\n'])
}

/// Every annotation a tag history denotes has a date in the accepted
/// range.
pub proof fn lemma_parsed_dates_valid(lines: Seq<Seq<char>>, filter: Option<Seq<char>>)
    ensures
        forall|k: int|
            0 <= k < parsed_tag_history(lines, filter).len() ==> valid_instant(
                #[trigger] parsed_tag_history(lines, filter)[k].date,
            ),
    decreases lines.len(),
{
    if lines.len() > 0 {
        lemma_parsed_dates_valid(lines.drop_first(), filter);
        let r = parsed_tag_history(lines, filter);
        let rest = parsed_tag_history(lines.drop_first(), filter);
        if line_kept(lines[0], filter) {
            assert forall|k: int| 0 <= k < r.len() implies valid_instant(
                #[trigger] r[k].date,
            ) by {
                if k > 0 {
                    assert(r[k] == rest[k - 1]);
                }
            }
        }
    }
}

/// Turn raw tag-history text into annotation candidates, in line order.
/// Fails exactly when some non-empty line does not split into three
/// fields, and then carries the first such line.
pub fn parse_tag_history(text: &str, filter: Option<&TagFilter>) -> (r: Result<
    Vec<Annotation>,
    EngineError,
>)
    ensures
        r matches Ok(v) ==> {
            &&& forall|i: int|
                0 <= i < history_lines(text@).len() ==> !line_is_corrupt(
                    #[trigger] history_lines(text@)[i],
                )
            &&& v@.map_values(|a: Annotation| ann_view(a)) == parsed_tag_history(
                history_lines(text@),
                filter_view(filter),
            )
        },
        r matches Err(e) ==> e matches EngineError::CorruptTagLine(l) && exists|j: int|
            {
                &&& 0 <= j < history_lines(text@).len()
                &&& line_is_corrupt(#[trigger] history_lines(text@)[j])
                &&& forall|k: int| 0 <= k < j ==> !line_is_corrupt(#[trigger] history_lines(text@)[k])
                &&& l@ == trimmed(history_lines(text@)[j])
            },
        (forall|i: int|
            0 <= i < history_lines(text@).len() ==> !line_is_corrupt(
                #[trigger] history_lines(text@)[i],
            )) ==> r is Ok,
{
    let chars = chars_of(text);
    let mut nl: Vec<char> = Vec::new();
    nl.push('\n');
    proof {
        assert(nl@ =~= seq!['\n']);
    }
    let lines = split_by(&chars, &nl);
    let ghost glines = history_lines(text@);
    proof {
        assert(lines@.map_values(|f: Vec<char>| f@) == glines);
    }
    let mut sep: Vec<char> = Vec::new();
    sep.push('\u{2642}');
    sep.push('\u{2640}');
    proof {
        assert(sep@ =~= tag_sep());
    }
    let n: usize = lines.len();
    let mut out: Vec<Annotation> = Vec::new();
    let mut i: usize = 0;
    proof {
        assert(glines.skip(0) =~= glines);
        assert(out@.map_values(|a: Annotation| ann_view(a)) + parsed_tag_history(
            glines,
            filter_view(filter),
        ) =~= parsed_tag_history(glines, filter_view(filter)));
    }
    while i < n
        invariant
            i <= n,
            n == lines@.len(),
            lines@.map_values(|f: Vec<char>| f@) == glines,
            glines == history_lines(text@),
            sep@ == tag_sep(),
            filter matches Some(f) ==> f.pattern_view() == filter_view(filter)->0,
            filter is None ==> filter_view(filter) is None,
            forall|k: int| 0 <= k < i ==> !line_is_corrupt(#[trigger] glines[k]),
            parsed_tag_history(glines, filter_view(filter)) == out@.map_values(
                |a: Annotation| ann_view(a),
            ) + parsed_tag_history(glines.skip(i as int), filter_view(filter)),
        decreases n - i,
    {
        let ghost gsuffix = glines.skip(i as int);
        proof {
            assert(gsuffix[0] == glines[i as int]);
            assert(gsuffix.drop_first() =~= glines.skip(i + 1 as int));
            assert(lines@[i as int]@ == glines[i as int]);
        }
        let line = trim_chars(&lines[i]);
        let ghost gline = glines[i as int];
        if line.len() == 0 {
            proof {
                assert(!line_kept(gline, filter_view(filter)));
            }
            i = i + 1;
            continue ;
        }
        let fields = split_by(&line, &sep);
        proof {
            assert(fields@.map_values(|f: Vec<char>| f@) == line_fields(gline));
        }
        if fields.len() != 3 {
            proof {
                assert(line_fields(gline).len() == fields@.len());
                assert(line_is_corrupt(gline));
            }
            return Err(EngineError::CorruptTagLine(string_of_chars(&line)));
        }
        proof {
            assert(fields@[0]@ == line_fields(gline)[0]);
            assert(fields@[1]@ == line_fields(gline)[1]);
            assert(fields@[2]@ == line_fields(gline)[2]);
        }
        let keep: bool = match filter {
            Some(f) => {
                let name = string_of_chars(&fields[0]);
                f.is_match(name.as_str())
            },
            None => true,
        };
        if keep {
            match parse_i64(&fields[1]) {
                Some(ts) => {
                    if EPOCH_FLOOR <= ts && ts <= MAX_INSTANT {
                        let subject = clean_subject(&fields[2]);
                        let ann = Annotation {
                            name: string_of_chars(&fields[0]),
                            description: string_of_chars(&subject),
                            date: ts,
                        };
                        proof {
                            assert(line_kept(gline, filter_view(filter)));
                            assert(ann_view(ann) == line_ann_view(gline));
                        }
                        let ghost out_before = out@;
                        out.push(ann);
                        proof {
                            assert(out@.map_values(|a: Annotation| ann_view(a))
                                =~= out_before.map_values(|a: Annotation| ann_view(a)).push(
                                ann_view(ann),
                            ));
                            assert(out_before.map_values(|a: Annotation| ann_view(a)) + (seq![
                                line_ann_view(gline),
                            ] + parsed_tag_history(gsuffix.drop_first(), filter_view(filter)))
                                =~= out@.map_values(|a: Annotation| ann_view(a))
                                + parsed_tag_history(gsuffix.drop_first(), filter_view(filter)));
                        }
                    } else {
                        proof {
                            assert(!line_kept(gline, filter_view(filter)));
                        }
                    }
                },
                None => {
                    proof {
                        assert(!line_kept(gline, filter_view(filter)));
                    }
                },
            }
        } else {
            proof {
                assert(!line_kept(gline, filter_view(filter)));
            }
        }
        i = i + 1;
    }
    proof {
        assert(glines.skip(n as int).len() == 0);
        assert(out@.map_values(|a: Annotation| ann_view(a)) + parsed_tag_history(
            glines.skip(n as int),
            filter_view(filter),
        ) =~= out@.map_values(|a: Annotation| ann_view(a)));
    }
    Ok(out)
}

/// `timeline` is the "first wins per hour" deduplication of the stable
/// ascending ordering of annotations whose views are exactly `parsed`.
pub open spec fn assembled_from(parsed: Seq<AnnView>, timeline: Seq<Annotation>) -> bool {
    exists|cands: Seq<Annotation>|
        cands.map_values(|a: Annotation| ann_view(a)) == parsed && timeline == dedup_hours_spec(
            #[trigger] stable_sorted(cands),
        )
}

/// The full tag path: parse the tag history, sort the candidates by
/// date, deduplicate by hour bucket.  Fails exactly when a non-empty
/// line does not split into three fields.
pub fn extract_annotations(text: &str, filter: Option<&TagFilter>) -> (r: Result<
    Annotations,
    EngineError,
>)
    ensures
        r matches Ok(anns) ==> {
            &&& ann_dates_sorted(anns.annotations@)
            &&& strictly_inc_buckets(anns.annotations@)
            &&& all_instants_valid(anns.annotations@)
            &&& assembled_from(
                parsed_tag_history(history_lines(text@), filter_view(filter)),
                anns.annotations@,
            )
            &&& forall|i: int|
                0 <= i < history_lines(text@).len() ==> !line_is_corrupt(
                    #[trigger] history_lines(text@)[i],
                )
        },
        r matches Err(e) ==> e matches EngineError::CorruptTagLine(l) && exists|j: int|
            {
                &&& 0 <= j < history_lines(text@).len()
                &&& line_is_corrupt(#[trigger] history_lines(text@)[j])
                &&& l@ == trimmed(history_lines(text@)[j])
            },
        (forall|i: int|
            0 <= i < history_lines(text@).len() ==> !line_is_corrupt(
                #[trigger] history_lines(text@)[i],
            )) ==> r is Ok,
{
    let candidates = match parse_tag_history(text, filter) {
        Ok(v) => v,
        Err(e) => {
            return Err(e);
        },
    };
    let ghost parsed = parsed_tag_history(history_lines(text@), filter_view(filter));
    let ghost cands = candidates@;
    proof {
        lemma_parsed_dates_valid(history_lines(text@), filter_view(filter));
        assert forall|k: int| 0 <= k < cands.len() implies valid_instant(
            #[trigger] cands[k].date as int,
        ) by {
            assert(cands.map_values(|a: Annotation| ann_view(a)).len() == cands.len());
            assert(cands.map_values(|a: Annotation| ann_view(a))[k] == ann_view(cands[k]));
            assert(ann_view(cands[k]) == parsed[k]);
            assert(valid_instant(parsed[k].date));
        }
    }
    let sorted = sort_annotations(candidates);
    proof {
        lemma_perm_instants_valid(cands, sorted@);
    }
    let timeline = dedup_annotations(&sorted);
    proof {
        let sc = sorted@;
        lemma_dedup_no_shared_hour(sc);
        lemma_dedup_from_contains(sc, None);
        assert forall|k: int| 0 <= k < timeline@.len() implies valid_instant(
            #[trigger] timeline@[k].date as int,
        ) by {
            assert(sc.contains(timeline@[k]));
            let j = choose|j: int| 0 <= j < sc.len() && sc[j] == timeline@[k];
            assert(valid_instant(sc[j].date as int));
        }
        assert(assembled_from(parsed, timeline@)) by {
            assert(cands.map_values(|a: Annotation| ann_view(a)) == parsed && timeline@
                == dedup_hours_spec(stable_sorted(cands)));
        }
    }
    Ok(Annotations { annotations: timeline })
}

} // verus!
