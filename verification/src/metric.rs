//! The calc-metric engine: template substitution, option parsing, and
//! the interpretation of result rows into named series points.

use vstd::prelude::*;
use crate::error::EngineError;
use crate::num::{Decimal, parse_decimal, is_decimal_text, decimal_text_mantissa,
    decimal_text_scale, decimal_text_neg};
use crate::points::{FieldValue, FvView, fv_view};
use crate::text::{split_text, split_by, chars_of, string_of_chars, first_match,
    lemma_first_match_is, lemma_first_match_none, vec_slice, find_occurrence, match_at,
    dec_text_of, u64_to_text};
use crate::timeutil::{ymdhms_of, fmt_ymdhms, MAX_INSTANT};
use vstd::string::StringExecFns;

verus! {

/// `s` with every occurrence of `pat` replaced by `repl`, scanning left
/// to right and resuming after each replacement.  (The guards besides
/// `m < 0` never fire; they only keep the definition total.)
pub open spec fn replaced(s: Seq<char>, pat: Seq<char>, repl: Seq<char>) -> Seq<char>
    decreases s.len(),
{
    let m = first_match(s, pat);
    if m < 0 || pat.len() == 0 || m + pat.len() > s.len() {
        s
    } else {
        s.subrange(0, m) + repl + replaced(s.subrange(m + pat.len() as int, s.len() as int), pat, repl)
    }
}

/// Replace every occurrence of `pat` in `v` by `repl`.
pub fn replace_chars(v: &Vec<char>, pat: &Vec<char>, repl: &Vec<char>) -> (r: Vec<char>)
    requires
        pat@.len() >= 1,
    ensures
        r@ == replaced(v@, pat@, repl@),
{
    let n: usize = v.len();
    let m: usize = pat.len();
    let mut out: Vec<char> = Vec::new();
    let mut rs: usize = 0;
    proof {
        assert(v@.skip(0) =~= v@);
        assert(out@ + replaced(v@, pat@, repl@) =~= replaced(v@, pat@, repl@));
    }
    loop
        invariant_except_break
            rs <= n,
            n == v@.len(),
            m == pat@.len(),
            m >= 1,
            replaced(v@, pat@, repl@) == out@ + replaced(v@.skip(rs as int), pat@, repl@),
        ensures
            out@ == replaced(v@, pat@, repl@),
        decreases n - rs,
    {
        let ghost suffix = v@.skip(rs as int);
        match find_occurrence(v, rs, pat) {
            None => {
                let mut tail = vec_slice(v, rs, n);
                proof {
                    assert forall|t: int| !match_at(suffix, pat@, t) by {
                        if 0 <= t {
                            if match_at(suffix, pat@, t) {
                                assert(suffix.subrange(t, t + pat@.len() as int) =~= v@.subrange(
                                    rs + t,
                                    rs + t + pat@.len() as int,
                                ));
                                assert(match_at(v@, pat@, rs + t));
                            }
                        }
                    }
                    lemma_first_match_none(suffix, pat@);
                    assert(replaced(suffix, pat@, repl@) == suffix);
                    assert(tail@ =~= suffix);
                }
                let ghost pre = out@;
                out.append(&mut tail);
                proof {
                    assert(out@ =~= pre + suffix);
                }
                break ;
            },
            Some(j) => {
                let mut piece = vec_slice(v, rs, j);
                let mut rtext = vec_slice(repl, 0, repl.len());
                proof {
                    let fm = j - rs;
                    assert(suffix.subrange(fm, fm + pat@.len() as int) =~= v@.subrange(
                        j as int,
                        j + pat@.len() as int,
                    ));
                    assert(match_at(suffix, pat@, fm));
                    assert forall|t: int| 0 <= t < fm implies !match_at(suffix, pat@, t) by {
                        if match_at(suffix, pat@, t) {
                            assert(suffix.subrange(t, t + pat@.len() as int) =~= v@.subrange(
                                rs + t,
                                rs + t + pat@.len() as int,
                            ));
                            assert(match_at(v@, pat@, rs + t));
                        }
                    }
                    lemma_first_match_is(suffix, pat@, fm);
                    assert(replaced(suffix, pat@, repl@) == suffix.subrange(0, fm) + repl@
                        + replaced(
                        suffix.subrange(fm + pat@.len() as int, suffix.len() as int),
                        pat@,
                        repl@,
                    ));
                    assert(piece@ =~= suffix.subrange(0, fm));
                    assert(rtext@ =~= repl@);
                    assert(suffix.subrange(fm + pat@.len() as int, suffix.len() as int)
                        =~= v@.skip(j + pat@.len() as int));
                }
                let ghost pre = out@;
                out.append(&mut piece);
                out.append(&mut rtext);
                proof {
                    assert(out@ =~= pre + suffix.subrange(0, j - rs) + repl@);
                    assert(pre + replaced(suffix, pat@, repl@) =~= out@ + replaced(
                        v@.skip(j + pat@.len() as int),
                        pat@,
                        repl@,
                    ));
                }
                rs = j + m;
            },
        }
    }
    out
}

/// Replace every occurrence of `pat` in `s` by `repl`.
pub fn replace_text(s: &str, pat: &str, repl: &str) -> (r: String)
    requires
        pat@.len() >= 1,
    ensures
        r@ == replaced(s@, pat@, repl@),
{
    let v = chars_of(s);
    let p = chars_of(pat);
    let rp = chars_of(repl);
    let out = replace_chars(&v, &p, &rp);
    string_of_chars(&out)
}

/// The bot-exclusion clause substituted for `{{exclude_bots}}`.
pub open spec fn exclude_bots_clause() -> Seq<char> {
    "and (lower(actor_login) not similar to '%bot%|%\\[bot\\]%')"@
}

/// A metric SQL template with its placeholders substituted: the quoted
/// window bounds, the period code, and (for time-series metrics) the
/// bot-exclusion clause.
pub open spec fn substituted_sql(
    sql: Seq<char>,
    from: int,
    to: int,
    period: Seq<char>,
    with_exclude_bots: bool,
) -> Seq<char> {
    let a = replaced(sql, "{{from}}"@, "'"@ + ymdhms_of(from) + "'"@);
    let b = replaced(a, "{{to}}"@, "'"@ + ymdhms_of(to) + "'"@);
    let c = replaced(b, "{{period}}"@, period);
    if with_exclude_bots {
        replaced(c, "{{exclude_bots}}"@, exclude_bots_clause())
    } else {
        c
    }
}

/// Substitute the placeholders of a metric SQL template.
pub fn substitute_metric_sql(
    sql: &str,
    from: i64,
    to: i64,
    period: &str,
    with_exclude_bots: bool,
) -> (r: String)
    requires
        0 <= from <= MAX_INSTANT,
        0 <= to <= MAX_INSTANT,
    ensures
        r@ == substituted_sql(sql@, from as int, to as int, period@, with_exclude_bots),
{
    proof {
        reveal_strlit("{{from}}");
        reveal_strlit("{{to}}");
        reveal_strlit("{{period}}");
        reveal_strlit("{{exclude_bots}}");
    }
    let mut from_quoted = String::from_str("'");
    let ftext = fmt_ymdhms(from);
    from_quoted.append(ftext.as_str());
    from_quoted.append("'");
    let a = replace_text(sql, "{{from}}", from_quoted.as_str());
    let mut to_quoted = String::from_str("'");
    let ttext = fmt_ymdhms(to);
    to_quoted.append(ttext.as_str());
    to_quoted.append("'");
    let b = replace_text(a.as_str(), "{{to}}", to_quoted.as_str());
    let c = replace_text(b.as_str(), "{{period}}", period);
    if with_exclude_bots {
        replace_text(
            c.as_str(),
            "{{exclude_bots}}",
            "and (lower(actor_login) not similar to '%bot%|%\\[bot\\]%')",
        )
    } else {
        c
    }
}

/// A valid period code: hour, day, week, month, quarter or year.
pub open spec fn valid_period_code(s: Seq<char>) -> bool {
    s == "h"@ || s == "d"@ || s == "w"@ || s == "m"@ || s == "q"@ || s == "y"@
}

/// Check a period code.
pub fn check_period(period: &str) -> (r: bool)
    ensures
        r == valid_period_code(period@),
{
    let p = String::from_str(period);
    p.eq(&String::from_str("h")) || p.eq(&String::from_str("d")) || p.eq(&String::from_str("w"))
        || p.eq(&String::from_str("m")) || p.eq(&String::from_str("q")) || p.eq(
        &String::from_str("y"),
    )
}

/// Output-shaping options of one metric definition.
#[derive(Debug)]
pub struct MetricSpec {
    pub hist: bool,
    pub multivalue: bool,
    pub escape_value_name: bool,
    pub skip_escape_series_name: bool,
    pub annotations_ranges: bool,
    pub skip_past: bool,
    pub desc: String,
    pub merge_series: String,
    pub project_scale: Decimal,
    pub custom_data: bool,
    pub drop_tables: Vec<String>,
}

/// The comma-separated entries of an option string.
pub open spec fn opt_entries(s: Seq<char>) -> Seq<Seq<char>> {
    split_text(s, seq![','])
}

pub open spec fn opt_name(e: Seq<char>) -> Seq<char> {
    split_text(e, seq![':'])[0]
}

pub open spec fn opt_val(e: Seq<char>) -> Seq<char> {
    let p = split_text(e, seq![':']);
    if p.len() > 1 {
        p[1]
    } else {
        Seq::empty()
    }
}

/// Some entry is named `name`.
pub open spec fn has_opt(entries: Seq<Seq<char>>, name: Seq<char>) -> bool
    decreases entries.len(),
{
    entries.len() > 0 && (opt_name(entries.last()) == name || has_opt(
        entries.drop_last(),
        name,
    ))
}

/// The value of the last entry named `name`, or empty.
pub open spec fn last_opt_val(entries: Seq<Seq<char>>, name: Seq<char>) -> Seq<char>
    decreases entries.len(),
{
    if entries.len() == 0 {
        Seq::empty()
    } else if opt_name(entries.last()) == name {
        opt_val(entries.last())
    } else {
        last_opt_val(entries.drop_last(), name)
    }
}

/// What a `project_scale` value denotes: the exact decimal if it parses
/// and fits, else one.
pub open spec fn parsed_scale(v: Seq<char>) -> Decimal {
    if is_decimal_text(v) && decimal_text_mantissa(v) <= u64::MAX && decimal_text_scale(v)
        <= u32::MAX {
        Decimal {
            neg: decimal_text_neg(v),
            mantissa: decimal_text_mantissa(v) as u64,
            scale10: decimal_text_scale(v) as u32,
        }
    } else {
        Decimal { neg: false, mantissa: 1, scale10: 0 }
    }
}

/// The scale after an option string: one unless a `project_scale` entry
/// set it (the last one wins, an unparseable one resets to one).
pub open spec fn scale_of(entries: Seq<Seq<char>>) -> Decimal
    decreases entries.len(),
{
    if entries.len() == 0 {
        Decimal { neg: false, mantissa: 1, scale10: 0 }
    } else if opt_name(entries.last()) == "project_scale"@ {
        parsed_scale(opt_val(entries.last()))
    } else {
        scale_of(entries.drop_last())
    }
}

/// The semicolon-separated tables of a `drop` option value.
fn split_drop_tables(val: &str) -> (r: Vec<String>)
    ensures
        r@.map_values(|t: String| t@) == split_text(val@, seq![';']),
{
    let vchars = chars_of(val);
    let mut semi: Vec<char> = Vec::new();
    semi.push(';');
    proof {
        assert(semi@ =~= seq![';']);
    }
    let pieces = split_by(&vchars, &semi);
    let ghost gpieces = split_text(val@, seq![';']);
    proof {
        assert(pieces@.map_values(|f: Vec<char>| f@) == gpieces);
    }
    let mut tables: Vec<String> = Vec::new();
    let pn: usize = pieces.len();
    let mut k: usize = 0;
    proof {
        assert(tables@.map_values(|t: String| t@) =~= gpieces.subrange(0, 0));
    }
    while k < pn
        invariant
            k <= pn,
            pn == pieces@.len(),
            pieces@.map_values(|f: Vec<char>| f@) == gpieces,
            tables@.map_values(|t: String| t@) == gpieces.subrange(0, k as int),
        decreases pn - k,
    {
        let piece = string_of_chars(&pieces[k]);
        let ghost pre = tables@;
        tables.push(piece);
        proof {
            assert(tables@.map_values(|t: String| t@) =~= pre.map_values(|t: String| t@).push(
                gpieces[k as int],
            ));
            assert(pre.map_values(|t: String| t@).push(gpieces[k as int]) =~= gpieces.subrange(
                0,
                k + 1 as int,
            ));
        }
        k = k + 1;
    }
    proof {
        assert(gpieces.subrange(0, pn as int) =~= gpieces);
    }
    tables
}

/// Apply one option entry to a metric spec.
#[verifier::rlimit(100)]
fn apply_option(r: &mut MetricSpec, entry: &Vec<char>) -> (dropped: bool)
    ensures
        final(r).hist == (old(r).hist || opt_name(entry@) == "hist"@),
        final(r).multivalue == (old(r).multivalue || opt_name(entry@) == "multivalue"@),
        final(r).escape_value_name == (old(r).escape_value_name || opt_name(entry@)
            == "escape_value_name"@),
        final(r).skip_escape_series_name == (old(r).skip_escape_series_name || opt_name(entry@)
            == "skip_escape_series_name"@),
        final(r).annotations_ranges == (old(r).annotations_ranges || opt_name(entry@)
            == "annotations_ranges"@),
        final(r).skip_past == (old(r).skip_past || opt_name(entry@) == "skip_past"@),
        final(r).custom_data == (old(r).custom_data || opt_name(entry@) == "custom_data"@),
        opt_name(entry@) == "desc"@ ==> final(r).desc@ == opt_val(entry@),
        opt_name(entry@) != "desc"@ ==> final(r).desc == old(r).desc,
        opt_name(entry@) == "merge_series"@ ==> final(r).merge_series@ == opt_val(entry@),
        opt_name(entry@) != "merge_series"@ ==> final(r).merge_series == old(r).merge_series,
        opt_name(entry@) == "project_scale"@ ==> final(r).project_scale == parsed_scale(
            opt_val(entry@),
        ),
        opt_name(entry@) != "project_scale"@ ==> final(r).project_scale == old(r).project_scale,
        dropped == (opt_name(entry@) == "drop"@),
        dropped ==> final(r).drop_tables@.map_values(|t: String| t@) == split_text(
            opt_val(entry@),
            seq![';'],
        ),
        !dropped ==> final(r).drop_tables == old(r).drop_tables,
{
    let mut colon: Vec<char> = Vec::new();
    colon.push(':');
    proof {
        assert(colon@ =~= seq![':']);
    }
    let parts = split_by(entry, &colon);
    let ghost gparts = split_text(entry@, seq![':']);
    proof {
        assert(parts@.map_values(|f: Vec<char>| f@) == gparts);
        assert(parts@[0]@ == opt_name(entry@));
    }
    let name = string_of_chars(&parts[0]);
    let val: String = if parts.len() > 1 {
        proof {
            assert(parts@[1]@ == opt_val(entry@));
        }
        string_of_chars(&parts[1])
    } else {
        String::new()
    };
    proof {
        assert(val@ == opt_val(entry@));
    }
    if name.eq(&String::from_str("hist")) {
        r.hist = true;
    }
    if name.eq(&String::from_str("multivalue")) {
        r.multivalue = true;
    }
    if name.eq(&String::from_str("escape_value_name")) {
        r.escape_value_name = true;
    }
    if name.eq(&String::from_str("skip_escape_series_name")) {
        r.skip_escape_series_name = true;
    }
    if name.eq(&String::from_str("annotations_ranges")) {
        r.annotations_ranges = true;
    }
    if name.eq(&String::from_str("skip_past")) {
        r.skip_past = true;
    }
    if name.eq(&String::from_str("custom_data")) {
        r.custom_data = true;
    }
    if name.eq(&String::from_str("desc")) {
        r.desc = val.clone();
    }
    if name.eq(&String::from_str("merge_series")) {
        r.merge_series = val.clone();
    }
    if name.eq(&String::from_str("project_scale")) {
        r.project_scale = match parse_decimal(val.as_str()) {
            Some(d) => d,
            None => Decimal::one(),
        };
    }
    if name.eq(&String::from_str("drop")) {
        r.drop_tables = split_drop_tables(val.as_str());
        return true;
    }
    false
}

/// Parse a calc-metric option string: comma-separated entries, each a
/// flag name or a `name:value` pair; unknown entries are ignored and a
/// repeated valued entry keeps its last value.
#[verifier::rlimit(100)]
pub fn parse_options(opts: &str) -> (r: MetricSpec)
    ensures
        r.hist == has_opt(opt_entries(opts@), "hist"@),
        r.multivalue == has_opt(opt_entries(opts@), "multivalue"@),
        r.escape_value_name == has_opt(opt_entries(opts@), "escape_value_name"@),
        r.skip_escape_series_name == has_opt(opt_entries(opts@), "skip_escape_series_name"@),
        r.annotations_ranges == has_opt(opt_entries(opts@), "annotations_ranges"@),
        r.skip_past == has_opt(opt_entries(opts@), "skip_past"@),
        r.custom_data == has_opt(opt_entries(opts@), "custom_data"@),
        r.desc@ == last_opt_val(opt_entries(opts@), "desc"@),
        r.merge_series@ == last_opt_val(opt_entries(opts@), "merge_series"@),
        r.project_scale == scale_of(opt_entries(opts@)),
        has_opt(opt_entries(opts@), "drop"@) ==> r.drop_tables@.map_values(|t: String| t@)
            == split_text(last_opt_val(opt_entries(opts@), "drop"@), seq![';']),
        !has_opt(opt_entries(opts@), "drop"@) ==> r.drop_tables@.len() == 0,
{
    let chars = chars_of(opts);
    let mut comma: Vec<char> = Vec::new();
    comma.push(',');
    let mut colon: Vec<char> = Vec::new();
    colon.push(':');
    proof {
        assert(comma@ =~= seq![',']);
        assert(colon@ =~= seq![':']);
    }
    let entries = split_by(&chars, &comma);
    let ghost gentries = opt_entries(opts@);
    proof {
        assert(entries@.map_values(|f: Vec<char>| f@) == gentries);
    }
    let mut r = MetricSpec {
        hist: false,
        multivalue: false,
        escape_value_name: false,
        skip_escape_series_name: false,
        annotations_ranges: false,
        skip_past: false,
        desc: String::new(),
        merge_series: String::new(),
        project_scale: Decimal::one(),
        custom_data: false,
        drop_tables: Vec::new(),
    };
    let ghost mut has_drop: bool = false;
    let n: usize = entries.len();
    let mut i: usize = 0;
    proof {
        assert(gentries.subrange(0, 0) =~= Seq::<Seq<char>>::empty());
    }
    while i < n
        invariant
            i <= n,
            n == entries@.len(),
            entries@.map_values(|f: Vec<char>| f@) == gentries,
            comma@ == seq![','],
            colon@ == seq![':'],
            r.hist == has_opt(gentries.subrange(0, i as int), "hist"@),
            r.multivalue == has_opt(gentries.subrange(0, i as int), "multivalue"@),
            r.escape_value_name == has_opt(gentries.subrange(0, i as int), "escape_value_name"@),
            r.skip_escape_series_name == has_opt(
                gentries.subrange(0, i as int),
                "skip_escape_series_name"@,
            ),
            r.annotations_ranges == has_opt(gentries.subrange(0, i as int), "annotations_ranges"@),
            r.skip_past == has_opt(gentries.subrange(0, i as int), "skip_past"@),
            r.custom_data == has_opt(gentries.subrange(0, i as int), "custom_data"@),
            r.desc@ == last_opt_val(gentries.subrange(0, i as int), "desc"@),
            r.merge_series@ == last_opt_val(gentries.subrange(0, i as int), "merge_series"@),
            r.project_scale == scale_of(gentries.subrange(0, i as int)),
            has_drop == has_opt(gentries.subrange(0, i as int), "drop"@),
            has_drop ==> r.drop_tables@.map_values(|t: String| t@) == split_text(
                last_opt_val(gentries.subrange(0, i as int), "drop"@),
                seq![';'],
            ),
            !has_drop ==> r.drop_tables@.len() == 0,
        decreases n - i,
    {
        let ghost prefix = gentries.subrange(0, i as int);
        let ghost prefix1 = gentries.subrange(0, i + 1 as int);
        proof {
            assert(prefix1.drop_last() =~= prefix);
            assert(prefix1.last() == gentries[i as int]);
            assert(entries@[i as int]@ == gentries[i as int]);
        }
        let dropped = apply_option(&mut r, &entries[i]);
        proof {
            if dropped {
                has_drop = true;
            }
        }
        proof {
            assert(r.hist == has_opt(prefix1, "hist"@));
            assert(r.multivalue == has_opt(prefix1, "multivalue"@));
            assert(r.escape_value_name == has_opt(prefix1, "escape_value_name"@));
            assert(r.skip_escape_series_name == has_opt(prefix1, "skip_escape_series_name"@));
            assert(r.annotations_ranges == has_opt(prefix1, "annotations_ranges"@));
            assert(r.skip_past == has_opt(prefix1, "skip_past"@));
            assert(r.custom_data == has_opt(prefix1, "custom_data"@));
            assert(r.desc@ == last_opt_val(prefix1, "desc"@));
            assert(r.merge_series@ == last_opt_val(prefix1, "merge_series"@));
            assert(r.project_scale == scale_of(prefix1));
            assert(has_drop == has_opt(prefix1, "drop"@));
            assert(has_drop ==> r.drop_tables@.map_values(|t: String| t@) == split_text(
                last_opt_val(prefix1, "drop"@),
                seq![';'],
            ));
        }
        i = i + 1;
    }
    proof {
        assert(gentries.subrange(0, n as int) =~= gentries);
    }
    r
}

/// A character acceptable in a data-derived series name: an ASCII
/// letter, a digit or an underscore; anything else becomes `_`.
pub open spec fn escaped_char(c: char) -> char {
    if (48 <= (c as u32) && (c as u32) <= 57) || (65 <= (c as u32) && (c as u32) <= 90) || (97 <= (
    c as u32) && (c as u32) <= 122) || c == '_' {
        c
    } else {
        '_'
    }
}

/// A name sanitized to the safe character set.
pub open spec fn escaped_name(s: Seq<char>) -> Seq<char> {
    s.map_values(|c: char| escaped_char(c))
}

/// Sanitize a data-derived series or tag name.
pub fn escape_name(s: &str) -> (r: String)
    ensures
        r@ == escaped_name(s@),
{
    let v = chars_of(s);
    let n: usize = v.len();
    let mut out: Vec<char> = Vec::new();
    let mut i: usize = 0;
    while i < n
        invariant
            i <= n,
            n == v@.len(),
            v@ == s@,
            out@ == s@.subrange(0, i as int).map_values(|c: char| escaped_char(c)),
        decreases n - i,
    {
        let c = v[i];
        let u: u32 = c as u32;
        if (48 <= u && u <= 57) || (65 <= u && u <= 90) || (97 <= u && u <= 122) || c == '_' {
            out.push(c);
        } else {
            out.push('_');
        }
        i = i + 1;
        proof {
            assert(out@ =~= s@.subrange(0, i as int).map_values(|c: char| escaped_char(c)));
        }
    }
    proof {
        assert(s@.subrange(0, n as int) =~= s@);
    }
    string_of_chars(&out)
}

/// The name of a single-column metric point.
pub open spec fn one_col_name(series: Seq<char>, period: Seq<char>, annotations_ranges: bool) -> Seq<
    char,
> {
    if annotations_ranges {
        series + "_"@ + period + "_range"@
    } else {
        series + "_"@ + period
    }
}

/// The name of a keyed two-column metric point.
pub open spec fn keyed_name(series: Seq<char>, key: Seq<char>, period: Seq<char>, esc: bool) -> Seq<
    char,
> {
    series + "_"@ + (if esc {
        escaped_name(key)
    } else {
        key
    }) + "_"@ + period
}

/// The name of the `k`-th point of a wide row.
pub open spec fn wide_name(nm: Seq<char>, period: Seq<char>, k: int, esc: bool) -> Seq<char> {
    (if esc {
        escaped_name(nm)
    } else {
        nm
    }) + "_"@ + period + "_"@ + dec_text_of(k)
}

/// What interpreting a result row yields: named values, or the first
/// offending column, or an overflow while scaling.
pub enum RowOutcome {
    Pts(Seq<(Seq<char>, Decimal)>),
    BadNumeric(int),
    BadText(int),
    Overflow,
}

/// The exact product of two decimals, when representable.
pub open spec fn dec_product(a: Decimal, b: Decimal) -> Option<Decimal> {
    if a.mantissa * b.mantissa <= u64::MAX && a.scale10 + b.scale10 <= u32::MAX {
        Some(
            Decimal {
                neg: a.neg != b.neg,
                mantissa: (a.mantissa * b.mantissa) as u64,
                scale10: (a.scale10 + b.scale10) as u32,
            },
        )
    } else {
        None
    }
}

/// Points of a wide row from column `k+1` on: one per listed name, as
/// long as a column backs it.
pub open spec fn wide_row_outcome(
    names: Seq<Seq<char>>,
    row: Seq<FvView>,
    period: Seq<char>,
    scale: Decimal,
    esc: bool,
    k: int,
) -> RowOutcome
    decreases names.len() - k,
{
    if k < 0 || k >= names.len() || k + 1 >= row.len() {
        RowOutcome::Pts(Seq::empty())
    } else {
        match row[k + 1] {
            FvView::Num(d) => match dec_product(d, scale) {
                Some(v) => match wide_row_outcome(names, row, period, scale, esc, k + 1) {
                    RowOutcome::Pts(rest) => RowOutcome::Pts(
                        seq![(wide_name(names[k], period, k, esc), v)] + rest,
                    ),
                    other => other,
                },
                None => RowOutcome::Overflow,
            },
            _ => RowOutcome::BadNumeric(k + 1),
        }
    }
}

/// How a time-series metric row is interpreted, by column count: a lone
/// numeric value, a wide row led by a comma-separated name list, or a
/// keyed value.
pub open spec fn ts_row_outcome(
    row: Seq<FvView>,
    series: Seq<char>,
    period: Seq<char>,
    annotations_ranges: bool,
    esc: bool,
    scale: Decimal,
) -> RowOutcome {
    if row.len() == 0 {
        RowOutcome::Pts(Seq::empty())
    } else if row.len() == 1 {
        match row[0] {
            FvView::Num(d) => match dec_product(d, scale) {
                Some(v) => RowOutcome::Pts(
                    seq![(one_col_name(series, period, annotations_ranges), v)],
                ),
                None => RowOutcome::Overflow,
            },
            _ => RowOutcome::BadNumeric(0),
        }
    } else {
        match row[0] {
            FvView::Txt(key) => {
                if key.contains(',') {
                    wide_row_outcome(split_text(key, seq![',']), row, period, scale, esc, 0)
                } else {
                    match row[1] {
                        FvView::Num(d) => match dec_product(d, scale) {
                            Some(v) => RowOutcome::Pts(
                                seq![(keyed_name(series, key, period, esc), v)],
                            ),
                            None => RowOutcome::Overflow,
                        },
                        _ => RowOutcome::BadNumeric(1),
                    }
                }
            },
            _ => RowOutcome::BadText(0),
        }
    }
}

/// A named series value produced by the calc-metric engine.
#[derive(Debug)]
pub struct MetricPoint {
    pub name: String,
    pub value: Decimal,
}

pub open spec fn mp_view(p: MetricPoint) -> (Seq<char>, Decimal) {
    (p.name@, p.value)
}

/// Does the text hold a comma?
fn contains_comma(s: &String) -> (r: bool)
    ensures
        r == s@.contains(','),
{
    let n: usize = s.as_str().unicode_len();
    let mut i: usize = 0;
    while i < n
        invariant
            i <= n,
            n == s@.len(),
            forall|k: int| 0 <= k < i ==> s@[k] != ',',
        decreases n - i,
    {
        if s.as_str().get_char(i) == ',' {
            assert(s@.contains(',')) by {
                assert(s@[i as int] == ',');
            }
            return true;
        }
        i = i + 1;
    }
    proof {
        if s@.contains(',') {
            let w = choose|w: int| 0 <= w < s@.len() && s@[w] == ',';
        }
    }
    false
}

/// Join the pieces of a name with underscores: `a_b`, `a_b_c`.
fn join_name2(a: &str, b: &str) -> (r: String)
    ensures
        r@ == a@ + "_"@ + b@,
{
    let mut r = a.to_owned();
    r.append("_");
    r.append(b);
    r
}

/// Interpret one result row of a time-series metric.  Exactly the rows
/// `ts_row_outcome` accepts yield points; the others report the first
/// offending column or the overflow.
pub fn interpret_row(
    row: &Vec<FieldValue>,
    series_name: &str,
    period: &str,
    cfg: &MetricSpec,
) -> (r: Result<Vec<MetricPoint>, EngineError>)
    ensures
        match ts_row_outcome(
            row@.map_values(|c: FieldValue| fv_view(c)),
            series_name@,
            period@,
            cfg.annotations_ranges,
            cfg.escape_value_name,
            cfg.project_scale,
        ) {
            RowOutcome::Pts(pts) => r matches Ok(v) && v@.map_values(|p: MetricPoint| mp_view(p))
                == pts,
            RowOutcome::BadNumeric(c) => r matches Err(e) && e matches EngineError::NonNumericColumn(
                cc,
            ) && cc == c,
            RowOutcome::BadText(c) => r matches Err(e) && e matches EngineError::NonTextColumn(cc)
                && cc == c,
            RowOutcome::Overflow => r matches Err(e) && e matches EngineError::NumericOverflow,
        },
{
    let ghost rowv = row@.map_values(|c: FieldValue| fv_view(c));
    let n: usize = row.len();
    let mut out: Vec<MetricPoint> = Vec::new();
    if n == 0 {
        proof {
            assert(out@.map_values(|p: MetricPoint| mp_view(p)) =~= Seq::<(Seq<char>, Decimal)>::empty());
        }
        return Ok(out);
    }
    if n == 1 {
        match &row[0] {
            FieldValue::Num(d) => {
                proof {
                    assert(rowv[0] == FvView::Num(*d));
                }
                match d.checked_mul(&cfg.project_scale) {
                    Some(v) => {
                        let base = join_name2(series_name, period);
                        let name: String = if cfg.annotations_ranges {
                            let mut withr = base;
                            withr.append("_range");
                            withr
                        } else {
                            base
                        };
                        let pt = MetricPoint { name, value: v };
                        proof {
                            assert(mp_view(pt) == (
                                one_col_name(series_name@, period@, cfg.annotations_ranges),
                                v,
                            ));
                        }
                        out.push(pt);
                        proof {
                            assert(out@.map_values(|p: MetricPoint| mp_view(p)) =~= seq![
                                (one_col_name(series_name@, period@, cfg.annotations_ranges), v),
                            ]);
                        }
                        return Ok(out);
                    },
                    None => {
                        return Err(EngineError::NumericOverflow);
                    },
                }
            },
            _ => {
                proof {
                    assert(rowv[0] !is Num);
                }
                return Err(EngineError::NonNumericColumn(0));
            },
        }
    }
    // Two or more columns: the first must be text.
    let key: String = match &row[0] {
        FieldValue::Txt(s) => s.clone(),
        _ => {
            proof {
                assert(rowv[0] !is Txt);
            }
            return Err(EngineError::NonTextColumn(0));
        },
    };
    proof {
        assert(rowv[0] == FvView::Txt(key@));
    }
    if contains_comma(&key) {
        let kchars = chars_of(key.as_str());
        let mut comma: Vec<char> = Vec::new();
        comma.push(',');
        proof {
            assert(comma@ =~= seq![',']);
        }
        let names = split_by(&kchars, &comma);
        let ghost gnames = split_text(key@, seq![',']);
        proof {
            assert(names@.map_values(|f: Vec<char>| f@) == gnames);
        }
        let mut k: usize = 0;
        proof {
            assert(wide_row_outcome(gnames, rowv, period@, cfg.project_scale,
                cfg.escape_value_name, 0) == (match wide_row_outcome(gnames, rowv, period@,
                cfg.project_scale, cfg.escape_value_name, 0) {
                RowOutcome::Pts(rest) => RowOutcome::Pts(
                    out@.map_values(|p: MetricPoint| mp_view(p)) + rest,
                ),
                other => other,
            })) by {
                assert(out@.map_values(|p: MetricPoint| mp_view(p)).len() == 0);
                match wide_row_outcome(gnames, rowv, period@, cfg.project_scale,
                    cfg.escape_value_name, 0) {
                    RowOutcome::Pts(rest) => {
                        assert(out@.map_values(|p: MetricPoint| mp_view(p)) + rest =~= rest);
                    },
                    _ => {},
                }
            }
        }
        while k < names.len() && k + 1 < n
            invariant
                n == row@.len(),
                n >= 2,
                rowv == row@.map_values(|c: FieldValue| fv_view(c)),
                rowv.len() == n,
                rowv[0] == FvView::Txt(key@),
                key@.contains(','),
                gnames == split_text(key@, seq![',']),
                names@.map_values(|f: Vec<char>| f@) == gnames,
                k <= gnames.len(),
                wide_row_outcome(gnames, rowv, period@, cfg.project_scale, cfg.escape_value_name, 0)
                    == (match wide_row_outcome(gnames, rowv, period@, cfg.project_scale,
                    cfg.escape_value_name, k as int) {
                    RowOutcome::Pts(rest) => RowOutcome::Pts(
                        out@.map_values(|p: MetricPoint| mp_view(p)) + rest,
                    ),
                    other => other,
                }),
            decreases gnames.len() - k,
        {
            let ghost pre_views = out@.map_values(|p: MetricPoint| mp_view(p));
            proof {
                assert(rowv[k + 1] == fv_view(row@[k + 1 as int]));
            }
            match &row[k + 1] {
                FieldValue::Num(d) => {
                    match d.checked_mul(&cfg.project_scale) {
                        Some(v) => {
                            let nm_raw = string_of_chars(&names[k]);
                            let nm: String = if cfg.escape_value_name {
                                escape_name(nm_raw.as_str())
                            } else {
                                nm_raw
                            };
                            let a = join_name2(nm.as_str(), period);
                            let idx_text = u64_to_text(k as u64);
                            let name = join_name2(a.as_str(), idx_text.as_str());
                            let pt = MetricPoint { name, value: v };
                            proof {
                                assert(names@[k as int]@ == gnames[k as int]);
                                assert(mp_view(pt) == (
                                    wide_name(
                                        gnames[k as int],
                                        period@,
                                        k as int,
                                        cfg.escape_value_name,
                                    ),
                                    v,
                                ));
                            }
                            out.push(pt);
                            proof {
                                assert(out@.map_values(|p: MetricPoint| mp_view(p)) =~= pre_views
                                    .push(mp_view(pt)));
                                match wide_row_outcome(gnames, rowv, period@, cfg.project_scale,
                                    cfg.escape_value_name, k + 1 as int) {
                                    RowOutcome::Pts(rest2) => {
                                        assert(pre_views + (seq![mp_view(pt)] + rest2)
                                            =~= pre_views.push(mp_view(pt)) + rest2);
                                    },
                                    _ => {},
                                }
                            }
                        },
                        None => {
                            proof {
                                assert(wide_row_outcome(gnames, rowv, period@, cfg.project_scale,
                                    cfg.escape_value_name, k as int) == RowOutcome::Overflow);
                            }
                            return Err(EngineError::NumericOverflow);
                        },
                    }
                },
                _ => {
                    proof {
                        assert(wide_row_outcome(gnames, rowv, period@, cfg.project_scale,
                            cfg.escape_value_name, k as int) == RowOutcome::BadNumeric(k + 1));
                    }
                    return Err(EngineError::NonNumericColumn(k + 1));
                },
            }
            k = k + 1;
        }
        proof {
            assert(wide_row_outcome(gnames, rowv, period@, cfg.project_scale,
                cfg.escape_value_name, k as int) == RowOutcome::Pts(
                Seq::<(Seq<char>, Decimal)>::empty(),
            ));
            assert(out@.map_values(|p: MetricPoint| mp_view(p)) + Seq::<(
                Seq<char>,
                Decimal,
            )>::empty() =~= out@.map_values(|p: MetricPoint| mp_view(p)));
        }
        return Ok(out);
    }
    proof {
        assert(rowv[1] == fv_view(row@[1]));
    }
    match &row[1] {
        FieldValue::Num(d) => {
            match d.checked_mul(&cfg.project_scale) {
                Some(v) => {
                    let keyed: String = if cfg.escape_value_name {
                        escape_name(key.as_str())
                    } else {
                        key
                    };
                    let a = join_name2(series_name, keyed.as_str());
                    let name = join_name2(a.as_str(), period);
                    let pt = MetricPoint { name, value: v };
                    proof {
                        assert(mp_view(pt) == (
                            keyed_name(series_name@, key@, period@, cfg.escape_value_name),
                            v,
                        ));
                    }
                    out.push(pt);
                    proof {
                        assert(out@.map_values(|p: MetricPoint| mp_view(p)) =~= seq![mp_view(pt)]);
                    }
                    Ok(out)
                },
                None => Err(EngineError::NumericOverflow),
            }
        },
        _ => Err(EngineError::NonNumericColumn(1)),
    }
}

/// What interpreting a histogram row yields: `(series, bucket, value)`
/// triples, or the first offending column.
pub enum HistOutcome {
    Pts(Seq<(Seq<char>, Seq<char>, Decimal)>),
    BadNumeric(int),
    BadText(int),
}

/// How a histogram row is interpreted: a `(bucket, value)` pair under
/// the series itself, or a `(key, bucket, value)` triple under the
/// key-qualified series.  Histogram values are never scaled.
pub open spec fn hist_row_outcome(row: Seq<FvView>, series: Seq<char>, esc: bool) -> HistOutcome {
    if row.len() < 2 {
        HistOutcome::Pts(Seq::empty())
    } else if row.len() == 2 {
        match row[0] {
            FvView::Txt(bucket) => match row[1] {
                FvView::Num(d) => HistOutcome::Pts(seq![(series, bucket, d)]),
                _ => HistOutcome::BadNumeric(1),
            },
            _ => HistOutcome::BadText(0),
        }
    } else {
        match row[0] {
            FvView::Txt(key) => match row[1] {
                FvView::Txt(bucket) => match row[2] {
                    FvView::Num(d) => HistOutcome::Pts(
                        seq![
                            (
                                series + "_"@ + (if esc {
                                    escaped_name(key)
                                } else {
                                    key
                                }),
                                bucket,
                                d,
                            ),
                        ],
                    ),
                    _ => HistOutcome::BadNumeric(2),
                },
                _ => HistOutcome::BadText(1),
            },
            _ => HistOutcome::BadText(0),
        }
    }
}

/// A histogram bucket value produced by the calc-metric engine.
#[derive(Debug)]
pub struct HistPoint {
    pub series: String,
    pub bucket: String,
    pub value: Decimal,
}

pub open spec fn hp_view(p: HistPoint) -> (Seq<char>, Seq<char>, Decimal) {
    (p.series@, p.bucket@, p.value)
}

/// Interpret one result row of a histogram metric.
pub fn interpret_hist_row(row: &Vec<FieldValue>, series_name: &str, cfg: &MetricSpec) -> (r: Result<
    Vec<HistPoint>,
    EngineError,
>)
    ensures
        match hist_row_outcome(
            row@.map_values(|c: FieldValue| fv_view(c)),
            series_name@,
            cfg.escape_value_name,
        ) {
            HistOutcome::Pts(pts) => r matches Ok(v) && v@.map_values(|p: HistPoint| hp_view(p))
                == pts,
            HistOutcome::BadNumeric(c) => r matches Err(e)
                && e matches EngineError::NonNumericColumn(cc) && cc == c,
            HistOutcome::BadText(c) => r matches Err(e) && e matches EngineError::NonTextColumn(cc)
                && cc == c,
        },
{
    let ghost rowv = row@.map_values(|c: FieldValue| fv_view(c));
    let n: usize = row.len();
    let mut out: Vec<HistPoint> = Vec::new();
    if n < 2 {
        proof {
            assert(out@.map_values(|p: HistPoint| hp_view(p)) =~= Seq::<(
                Seq<char>,
                Seq<char>,
                Decimal,
            )>::empty());
        }
        return Ok(out);
    }
    proof {
        assert(rowv[0] == fv_view(row@[0]));
        assert(rowv[1] == fv_view(row@[1]));
    }
    if n == 2 {
        let bucket: String = match &row[0] {
            FieldValue::Txt(s) => s.clone(),
            _ => {
                return Err(EngineError::NonTextColumn(0));
            },
        };
        match &row[1] {
            FieldValue::Num(d) => {
                let pt = HistPoint { series: series_name.to_owned(), bucket, value: *d };
                out.push(pt);
                proof {
                    assert(out@.map_values(|p: HistPoint| hp_view(p)) =~= seq![hp_view(out@[0])]);
                }
                return Ok(out);
            },
            _ => {
                return Err(EngineError::NonNumericColumn(1));
            },
        }
    }
    proof {
        assert(rowv[2] == fv_view(row@[2]));
    }
    let key: String = match &row[0] {
        FieldValue::Txt(s) => s.clone(),
        _ => {
            return Err(EngineError::NonTextColumn(0));
        },
    };
    let bucket: String = match &row[1] {
        FieldValue::Txt(s) => s.clone(),
        _ => {
            return Err(EngineError::NonTextColumn(1));
        },
    };
    match &row[2] {
        FieldValue::Num(d) => {
            let keyed: String = if cfg.escape_value_name {
                escape_name(key.as_str())
            } else {
                key
            };
            let series = join_name2(series_name, keyed.as_str());
            let pt = HistPoint { series, bucket, value: *d };
            proof {
                assert(hp_view(pt).0 == series_name@ + "_"@ + (if cfg.escape_value_name {
                    escaped_name(rowv[0]->Txt_0)
                } else {
                    rowv[0]->Txt_0
                }));
            }
            out.push(pt);
            proof {
                assert(out@.map_values(|p: HistPoint| hp_view(p)) =~= seq![hp_view(out@[0])]);
            }
            Ok(out)
        },
        _ => Err(EngineError::NonNumericColumn(2)),
    }
}

/// The destination series of a metric's points: the shared series when
/// `merge_series` is set, else the point's own name.
pub fn destination_series(cfg: &MetricSpec, name: &str) -> (r: String)
    ensures
        cfg.merge_series@.len() > 0 ==> r@ == cfg.merge_series@,
        cfg.merge_series@.len() == 0 ==> r@ == name@,
{
    if cfg.merge_series.as_str().is_empty() {
        name.to_owned()
    } else {
        cfg.merge_series.clone()
    }
}

/// Law: for every single-column numeric row and every scale, either
/// exactly one point named `{series}_{period}` is emitted whose value is
/// the input value times the scale, exactly as rationals (and unchanged
/// under scale one), or the product leaves the representable decimal
/// range and the overflow is reported instead; nothing else can happen.
pub proof fn lemma_single_column_exact_scaling(
    row: Seq<FvView>,
    series: Seq<char>,
    period: Seq<char>,
    annotations_ranges: bool,
    esc: bool,
    scale: Decimal,
    d: Decimal,
)
    requires
        row.len() == 1,
        row[0] == FvView::Num(d),
    ensures
        match ts_row_outcome(row, series, period, annotations_ranges, esc, scale) {
            RowOutcome::Pts(pts) => {
                &&& pts.len() == 1
                &&& pts[0].0 == one_col_name(series, period, annotations_ranges)
                &&& crate::num::dec_scaled(pts[0].1) == crate::num::dec_scaled(d)
                    * crate::num::dec_scaled(scale)
                &&& crate::num::pow10(pts[0].1.scale10 as nat) == crate::num::pow10(
                    d.scale10 as nat,
                ) * crate::num::pow10(scale.scale10 as nat)
                &&& (scale.is_one() ==> pts[0].1 == d)
            },
            RowOutcome::Overflow => d.mantissa * scale.mantissa > u64::MAX || d.scale10
                + scale.scale10 > u32::MAX,
            _ => false,
        },
{
    if d.mantissa * scale.mantissa <= u64::MAX && d.scale10 + scale.scale10 <= u32::MAX {
        let v = dec_product(d, scale)->0;
        crate::num::lemma_dec_mul_exact(d, scale, v);
        if scale.is_one() {
            crate::num::lemma_dec_mul_one(d, scale, v);
        }
    }
}

} // verus!
