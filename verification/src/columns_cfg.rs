//! Column definitions: making sure each matching series table carries a
//! configured column.

use vstd::prelude::*;
use crate::extract::{TagFilter, regex_match};
use vstd::string::StringExecFns;

verus! {

/// One column definition: which tables it applies to and what to add.
#[derive(Debug)]
pub struct Column {
    pub table_regexp: String,
    pub tag: String,
    pub column: String,
    pub hll: bool,
}

/// The column definitions of one project.
#[derive(Debug)]
pub struct Columns {
    pub columns: Vec<Column>,
}

/// The table names the pattern accepts, in their given order.
pub open spec fn matching_names(names: Seq<Seq<char>>, pattern: Seq<char>) -> Seq<Seq<char>> {
    names.filter(|n: Seq<char>| regex_match(pattern, n))
}

/// Keep the table names the compiled pattern accepts.
pub fn match_tables(names: &Vec<String>, filter: &TagFilter) -> (r: Vec<String>)
    ensures
        r@.map_values(|n: String| n@) == matching_names(
            names@.map_values(|n: String| n@),
            filter.pattern_view(),
        ),
{
    let ghost gnames = names@.map_values(|n: String| n@);
    let n: usize = names.len();
    let mut out: Vec<String> = Vec::new();
    let mut i: usize = 0;
    proof {
        reveal(Seq::filter);
        assert(gnames.subrange(0, 0).filter(|nm: Seq<char>| regex_match(filter.pattern_view(), nm))
            =~= Seq::<Seq<char>>::empty());
        assert(out@.map_values(|nm: String| nm@) =~= Seq::<Seq<char>>::empty());
    }
    while i < n
        invariant
            i <= n,
            n == names@.len(),
            gnames == names@.map_values(|nm: String| nm@),
            out@.map_values(|nm: String| nm@) == gnames.subrange(0, i as int).filter(
                |nm: Seq<char>| regex_match(filter.pattern_view(), nm),
            ),
        decreases n - i,
    {
        proof {
            reveal(Seq::filter);
            assert(gnames.subrange(0, i + 1 as int).drop_last() =~= gnames.subrange(0, i as int));
            assert(gnames.subrange(0, i + 1 as int).last() == gnames[i as int]);
            assert(gnames[i as int] == names@[i as int]@);
        }
        if filter.is_match(names[i].as_str()) {
            let ghost pre = out@.map_values(|nm: String| nm@);
            out.push(names[i].clone());
            proof {
                assert(out@.map_values(|nm: String| nm@) =~= pre.push(gnames[i as int]));
            }
        }
        i = i + 1;
    }
    proof {
        assert(gnames.subrange(0, n as int) =~= gnames);
    }
    out
}

/// The statement that adds a configured column: `hll` columns get the
/// sketch type, the rest text.
pub fn alter_column_sql(table: &str, column: &str, hll: bool) -> (r: String)
    ensures
        hll ==> r@ == "ALTER TABLE "@ + table@ + " ADD COLUMN IF NOT EXISTS "@ + column@
            + " hll"@,
        !hll ==> r@ == "ALTER TABLE "@ + table@ + " ADD COLUMN IF NOT EXISTS "@ + column@
            + " text"@,
{
    let mut r = String::from_str("ALTER TABLE ");
    r.append(table);
    r.append(" ADD COLUMN IF NOT EXISTS ");
    r.append(column);
    if hll {
        r.append(" hll");
    } else {
        r.append(" text");
    }
    r
}

} // verus!
