//! The statements that the front end sends to the lookup store: the search over
//! chosen columns, and the choice between updating and inserting a row.

use vstd::prelude::*;
use crate::text::lowercase;
use crate::tokenizer::lowered;

verus! {

/// The columns that a search looks in.
#[derive(Clone, Copy, Debug, PartialEq, Eq, Structural)]
pub struct SearchFields {
    pub index: bool,
    pub titel: bool,
    pub kuenstler: bool,
    pub label_code: bool,
}

/// The conditions of a search, one per chosen column, in column order.
pub open spec fn search_conditions(f: SearchFields) -> Seq<Seq<char>> {
    let a = if f.index { seq!["LOWER(\"index\") LIKE LOWER(?1)"@] } else { seq![] };
    let b = if f.titel { seq!["LOWER(titel) LIKE LOWER(?1)"@] } else { seq![] };
    let c = if f.kuenstler { seq!["LOWER(kuenstler) LIKE LOWER(?1)"@] } else { seq![] };
    let d = if f.label_code { seq!["LOWER(labelcode) LIKE LOWER(?1)"@] } else { seq![] };
    a + b + c + d
}

/// The parts of `p` with ` OR ` between each two.
pub open spec fn join_or(p: Seq<Seq<char>>) -> Seq<char>
    decreases p.len(),
{
    if p.len() == 0 {
        seq![]
    } else if p.len() == 1 {
        p[0]
    } else {
        join_or(p.drop_last()) + " OR "@ + p.last()
    }
}

/// The search statement for the chosen columns; none where no column is chosen.
pub open spec fn search_statement(f: SearchFields) -> Option<Seq<char>> {
    let c = search_conditions(f);
    if c.len() == 0 {
        None
    } else {
        Some(
            "SELECT \"index\", titel, kuenstler, labelcode FROM my_table WHERE "@ + join_or(c)
                + " LIMIT 100"@,
        )
    }
}

/// Appends `s` to `out`, with ` OR ` first unless `out` holds no condition yet.
fn push_condition(out: &mut String, first: bool, s: &str)
    ensures
        final(out)@ == (if first {
            old(out)@ + s@
        } else {
            old(out)@ + " OR "@ + s@
        }),
{
    if !first {
        out.append(" OR ");
    }
    out.append(s);
}

/// The search statement for the chosen columns (see `search_statement`).
pub fn search_sql(f: SearchFields) -> (r: Option<String>)
    ensures
        r is Some <==> search_statement(f) is Some,
        r is Some ==> r->0@ == search_statement(f)->0,
{
    let ghost c = search_conditions(f);
    let ghost p: Seq<Seq<char>> = seq![];
    let mut conds = String::new();
    let mut n: usize = 0;
    proof {
        assert(conds@ == join_or(p));
        assert(n == p.len());
    }
    if f.index {
        push_condition(&mut conds, n == 0, "LOWER(\"index\") LIKE LOWER(?1)");
        proof {
            let q = p.push("LOWER(\"index\") LIKE LOWER(?1)"@);
            assert(q.drop_last() =~= p);
            assert(n == p.len());
            assert(conds@ == join_or(q));
            p = q;
        }
        n = n + 1;
    }
    if f.titel {
        push_condition(&mut conds, n == 0, "LOWER(titel) LIKE LOWER(?1)");
        proof {
            let q = p.push("LOWER(titel) LIKE LOWER(?1)"@);
            assert(q.drop_last() =~= p);
            assert(n == p.len());
            assert(conds@ == join_or(q));
            p = q;
        }
        n = n + 1;
    }
    if f.kuenstler {
        push_condition(&mut conds, n == 0, "LOWER(kuenstler) LIKE LOWER(?1)");
        proof {
            let q = p.push("LOWER(kuenstler) LIKE LOWER(?1)"@);
            assert(q.drop_last() =~= p);
            assert(n == p.len());
            assert(conds@ == join_or(q));
            p = q;
        }
        n = n + 1;
    }
    if f.label_code {
        push_condition(&mut conds, n == 0, "LOWER(labelcode) LIKE LOWER(?1)");
        proof {
            let q = p.push("LOWER(labelcode) LIKE LOWER(?1)"@);
            assert(q.drop_last() =~= p);
            assert(n == p.len());
            assert(conds@ == join_or(q));
            p = q;
        }
        n = n + 1;
    }
    proof {
        assert(p =~= c);
    }
    if n == 0 {
        return None;
    }
    let head = String::from_str("SELECT \"index\", titel, kuenstler, labelcode FROM my_table WHERE ");
    let r = head.concat(conds.as_str()).concat(" LIMIT 100");
    Some(r)
}

/// The pattern that a search binds: the query in lower case between `%` signs;
/// none for an empty query.
pub fn search_pattern(query: &str) -> (r: Option<String>)
    ensures
        query@.len() == 0 ==> r is None,
        query@.len() > 0 ==> r is Some && r->0@ == "%"@ + lowered(query@) + "%"@,
{
    if query.unicode_len() == 0 {
        return None;
    }
    let low = lowercase(query);
    let r = String::from_str("%").concat(low.as_str()).concat("%");
    Some(r)
}

/// What saving a row does to the store.
#[derive(Clone, Copy, Debug, PartialEq, Eq, Structural)]
pub enum UpsertPlan {
    /// Nothing: a row needs an index.
    Rejected,
    /// The rows with that index (without regard to ASCII case) get the new values.
    Update,
    /// A new row is added.
    Insert,
}

/// How a row with the index `index` is saved, given how many rows already have
/// that index.
pub fn upsert_plan(index: &str, existing: u64) -> (r: UpsertPlan)
    ensures
        index@.len() == 0 ==> r == UpsertPlan::Rejected,
        index@.len() > 0 && existing > 0 ==> r == UpsertPlan::Update,
        index@.len() > 0 && existing == 0 ==> r == UpsertPlan::Insert,
{
    if index.unicode_len() == 0 {
        UpsertPlan::Rejected
    } else if existing > 0 {
        UpsertPlan::Update
    } else {
        UpsertPlan::Insert
    }
}

} // verus!
