//! Time-series points: the unit written to destination tables.

use vstd::prelude::*;
use crate::num::Decimal;
use crate::timeutil::{hour_floor, hour_start, ymdhms_of, fmt_ymdhms, MAX_INSTANT};
use vstd::string::StringExecFns;

verus! {

/// A field value: text, an exact decimal, a flag, or null.  Stands for
/// the scalar shapes a destination column can hold.
#[derive(Debug)]
pub enum FieldValue {
    Txt(String),
    Num(Decimal),
    Flag(bool),
    Null,
}

impl FieldValue {
    /// A copy with equal content.
    pub fn duplicate(&self) -> (r: FieldValue)
        ensures
            r == *self,
    {
        match self {
            FieldValue::Txt(s) => FieldValue::Txt(s.clone()),
            FieldValue::Num(d) => FieldValue::Num(*d),
            FieldValue::Flag(b) => FieldValue::Flag(*b),
            FieldValue::Null => FieldValue::Null,
        }
    }
}

/// What a field value holds, as mathematical values.
pub enum FvView {
    Txt(Seq<char>),
    Num(Decimal),
    Flag(bool),
    Null,
}

pub open spec fn fv_view(v: FieldValue) -> FvView {
    match v {
        FieldValue::Txt(s) => FvView::Txt(s@),
        FieldValue::Num(d) => FvView::Num(d),
        FieldValue::Flag(b) => FvView::Flag(b),
        FieldValue::Null => FvView::Null,
    }
}

/// What a point holds, as mathematical values.
pub struct PtView {
    pub name: Seq<char>,
    pub period: Seq<char>,
    pub time: int,
    pub added: int,
    pub tags: Option<Seq<(Seq<char>, Seq<char>)>>,
    pub fields: Option<Seq<(Seq<char>, FvView)>>,
}

/// A point of a named series.  `time` is the event instant (truncated
/// to the hour unless the point is exact), `added` the ingestion
/// instant; the payload is carried by `tags` (dimensional series) or
/// `fields` (measurement series).
#[derive(Debug)]
pub struct TsPoint {
    pub time: i64,
    pub added: i64,
    pub period: String,
    pub name: String,
    pub tags: Option<Vec<(String, String)>>,
    pub fields: Option<Vec<(String, FieldValue)>>,
}

pub open spec fn pt_view(p: TsPoint) -> PtView {
    PtView {
        name: p.name@,
        period: p.period@,
        time: p.time as int,
        added: p.added as int,
        tags: match p.tags {
            Some(t) => Some(t@.map_values(|kv: (String, String)| (kv.0@, kv.1@))),
            None => None,
        },
        fields: match p.fields {
            Some(f) => Some(f@.map_values(|kv: (String, FieldValue)| (kv.0@, fv_view(kv.1)))),
            None => None,
        },
    }
}

/// A copy of a tag list with equal content.
pub fn duplicate_tags(tags: &Option<Vec<(String, String)>>) -> (r: Option<Vec<(String, String)>>)
    ensures
        r is Some <==> *tags is Some,
        r matches Some(rv) ==> (*tags) matches Some(tv) && rv@ == tv@,
{
    match tags {
        None => None,
        Some(v) => {
            let n: usize = v.len();
            let mut out: Vec<(String, String)> = Vec::new();
            let mut i: usize = 0;
            while i < n
                invariant
                    i <= n,
                    n == v@.len(),
                    out@ == v@.subrange(0, i as int),
                decreases n - i,
            {
                let kv = (v[i].0.clone(), v[i].1.clone());
                proof {
                    assert(kv == v@[i as int]);
                }
                out.push(kv);
                i = i + 1;
                proof {
                    assert(out@ =~= v@.subrange(0, i as int));
                }
            }
            proof {
                assert(out@ =~= v@);
            }
            Some(out)
        },
    }
}

/// A copy of a field list with equal content.
pub fn duplicate_fields(fields: &Option<Vec<(String, FieldValue)>>) -> (r: Option<
    Vec<(String, FieldValue)>,
>)
    ensures
        r is Some <==> *fields is Some,
        r matches Some(rv) ==> (*fields) matches Some(fv) && rv@ == fv@,
{
    match fields {
        None => None,
        Some(v) => {
            let n: usize = v.len();
            let mut out: Vec<(String, FieldValue)> = Vec::new();
            let mut i: usize = 0;
            while i < n
                invariant
                    i <= n,
                    n == v@.len(),
                    out@ == v@.subrange(0, i as int),
                decreases n - i,
            {
                let kv = (v[i].0.clone(), v[i].1.duplicate());
                proof {
                    assert(kv == v@[i as int]);
                }
                out.push(kv);
                i = i + 1;
                proof {
                    assert(out@ =~= v@.subrange(0, i as int));
                }
            }
            proof {
                assert(out@ =~= v@);
            }
            Some(out)
        },
    }
}

impl TsPoint {
    /// A copy describing the same point.
    pub fn duplicate(&self) -> (r: TsPoint)
        ensures
            pt_view(r) == pt_view(*self),
            r.time == self.time,
            r.added == self.added,
    {
        TsPoint {
            time: self.time,
            added: self.added,
            period: self.period.clone(),
            name: self.name.clone(),
            tags: duplicate_tags(&self.tags),
            fields: duplicate_fields(&self.fields),
        }
    }

    /// Build a point at `time`; unless `exact`, the event time is
    /// truncated to the top of its hour.  `now` becomes the ingestion
    /// instant.
    pub fn new(
        name: String,
        period: String,
        tags: Option<Vec<(String, String)>>,
        fields: Option<Vec<(String, FieldValue)>>,
        time: i64,
        exact: bool,
        now: i64,
    ) -> (r: TsPoint)
        requires
            0 <= time,
        ensures
            r.time == if exact {
                time as int
            } else {
                hour_floor(time as int)
            },
            r.added == now,
            r.name == name,
            r.period == period,
            r.tags == tags,
            r.fields == fields,
    {
        let point_time: i64 = if exact {
            time
        } else {
            hour_start(time)
        };
        TsPoint { time: point_time, added: now, period, name, tags, fields }
    }

    /// A one-line human-readable summary: the event hour, the ingestion
    /// hour, the series name and the period.
    pub fn display(&self) -> (r: String)
        requires
            0 <= self.time <= MAX_INSTANT,
            0 <= self.added <= MAX_INSTANT,
        ensures
            r@ == ymdhms_of(hour_floor(self.time as int)) + " "@ + ymdhms_of(
                hour_floor(self.added as int),
            ) + " "@ + self.name@ + " period: "@ + self.period@,
    {
        let mut out = fmt_ymdhms(hour_start(self.time));
        out.append(" ");
        let added_text = fmt_ymdhms(hour_start(self.added));
        out.append(added_text.as_str());
        out.append(" ");
        out.append(self.name.as_str());
        out.append(" period: ");
        out.append(self.period.as_str());
        out
    }
}

} // verus!
