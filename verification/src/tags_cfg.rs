//! Dashboard tag definitions and the SQL preparation they drive.

use vstd::prelude::*;
use crate::metric::{replaced, replace_text, exclude_bots_clause};
use crate::text::{dec_text_of, u64_to_text};
use crate::timeutil::{ymd_of, fmt_ymd, MAX_INSTANT};
use vstd::string::StringExecFns;

verus! {

/// One tag definition: the query that computes the tag values and the
/// series/tag names they are stored under.
#[derive(Debug)]
pub struct Tag {
    pub name: String,
    pub sql: String,
    pub series_name: String,
    pub name_tag: String,
    pub value_tag: String,
    pub other_tags: Vec<(String, (String, String))>,
    pub limit: i32,
    pub disabled: bool,
}

/// The tag definitions of one project.
#[derive(Debug)]
pub struct Tags {
    pub tags: Vec<Tag>,
}

/// The row limit used when a tag definition gives none.
pub fn default_limit() -> (r: i32)
    ensures
        r == 127,
{
    127
}

/// The effective row limit of a tag: its own if positive, else the
/// default.
pub fn effective_limit(limit: i32) -> (r: i32)
    ensures
        limit > 0 ==> r == limit,
        limit <= 0 ==> r == 127,
{
    if limit <= 0 {
        127
    } else {
        limit
    }
}

/// A tag's SQL with the row limit and the bot-exclusion clause
/// substituted.
pub open spec fn prepared_tag_sql(sql: Seq<char>, limit: int, exclude_bots: Seq<char>) -> Seq<
    char,
> {
    replaced(replaced(sql, "{{lim}}"@, dec_text_of(limit)), "{{exclude_bots}}"@, exclude_bots)
}

/// Substitute a tag query's placeholders: `{{lim}}` becomes the
/// effective row limit, `{{exclude_bots}}` the given clause.
pub fn prepare_tag_sql(sql: &str, limit: i32, exclude_bots: &str) -> (r: String)
    requires
        limit > 0,
    ensures
        r@ == prepared_tag_sql(sql@, limit as int, exclude_bots@),
{
    proof {
        reveal_strlit("{{lim}}");
        reveal_strlit("{{exclude_bots}}");
    }
    let lim_text = u64_to_text(limit as u64);
    let a = replace_text(sql, "{{lim}}", lim_text.as_str());
    replace_text(a.as_str(), "{{exclude_bots}}", exclude_bots)
}

/// A tag refresh query with the default window and period substituted:
/// `{{from}}` is the configured start day, `{{to}}` today, `{{period}}`
/// the day code.
pub open spec fn substituted_tag_params(sql: Seq<char>, from: int, to: int) -> Seq<char> {
    replaced(replaced(replaced(sql, "{{from}}"@, ymd_of(from)), "{{to}}"@, ymd_of(to)), "{{period}}"@, "d"@)
}

/// Substitute the basic window parameters of a tag refresh query.
pub fn substitute_sql_parameters(sql: &str, from: i64, to: i64) -> (r: String)
    requires
        0 <= from <= MAX_INSTANT,
        0 <= to <= MAX_INSTANT,
    ensures
        r@ == substituted_tag_params(sql@, from as int, to as int),
{
    proof {
        reveal_strlit("{{from}}");
        reveal_strlit("{{to}}");
        reveal_strlit("{{period}}");
    }
    let ftext = fmt_ymd(from);
    let a = replace_text(sql, "{{from}}", ftext.as_str());
    let ttext = fmt_ymd(to);
    let b = replace_text(a.as_str(), "{{to}}", ttext.as_str());
    replace_text(b.as_str(), "{{period}}", "d")
}

/// The statement that clears a tag's series table before the rewrite.
pub fn truncate_series_sql(series_name: &str) -> (r: String)
    ensures
        r@ == "TRUNCATE TABLE IF EXISTS t"@ + series_name@,
{
    let mut r = String::from_str("TRUNCATE TABLE IF EXISTS t");
    r.append(series_name);
    r
}

} // verus!
