//! The read side: what the query service computes over stored records.
//!
//! The store itself is outside; the caller hands these functions the records
//! of one project's collection and serves the answers.

use crate::records::{entry_model, EntryModel};
use crate::text::str_eq;
use crate::types::BenchCSVEntry;
use vstd::prelude::*;

verus! {

/// The record fields whose distinct values the listing endpoint reports.
#[derive(Clone, Copy, Debug, PartialEq, Eq)]
pub enum RecordField {
    Commit,
    Branch,
    Name,
    Backend,
    Compiler,
}

pub open spec fn spec_field(m: EntryModel, f: RecordField) -> Seq<char> {
    match f {
        RecordField::Commit => m.commit,
        RecordField::Branch => m.branch,
        RecordField::Name => m.name,
        RecordField::Backend => m.backend,
        RecordField::Compiler => m.compiler,
    }
}

/// The named field of one record.
pub fn field_of(e: &BenchCSVEntry, field: RecordField) -> (r: String)
    ensures
        r@ == spec_field(entry_model(*e), field),
{
    match field {
        RecordField::Commit => e.key.commit.clone(),
        RecordField::Branch => e.key.branch.clone(),
        RecordField::Name => e.context.name.clone(),
        RecordField::Backend => e.context.backend.clone(),
        RecordField::Compiler => e.platform.compiler.clone(),
    }
}

/// The latest run date among the records of one branch: `None` exactly when
/// the branch has no record, otherwise the greatest date it was run on.
pub fn query_latest_branch_date(entries: &Vec<BenchCSVEntry>, branch: &str) -> (r: Option<i64>)
    ensures
        match r {
            None => forall|k: int|
                0 <= k < entries@.len() ==> entries@[k].key.branch@ != branch@,
            Some(d) => {
                &&& exists|k: int|
                    0 <= k < entries@.len() && entries@[k].key.branch@ == branch@
                        && entries@[k].key.date == d
                &&& forall|k: int|
                    0 <= k < entries@.len() && entries@[k].key.branch@ == branch@
                        ==> entries@[k].key.date <= d
            },
        },
{
    let n = entries.len();
    let mut best: Option<i64> = None;
    let mut i: usize = 0;
    while i < n
        invariant
            i <= n,
            n == entries@.len(),
            match best {
                None => forall|k: int| 0 <= k < i ==> entries@[k].key.branch@ != branch@,
                Some(d) => {
                    &&& exists|k: int|
                        0 <= k < i && entries@[k].key.branch@ == branch@ && entries@[k].key.date
                            == d
                    &&& forall|k: int|
                        0 <= k < i && entries@[k].key.branch@ == branch@ ==> entries@[k].key.date
                            <= d
                },
            },
        decreases n - i,
    {
        let e = &entries[i];
        if str_eq(e.key.branch.as_str(), branch) {
            let take_it = match best {
                None => true,
                Some(d) => e.key.date > d,
            };
            if take_it {
                best = Some(e.key.date);
            }
        }
        i = i + 1;
    }
    best
}

/// Whether a record belongs on the comparison graph: run exactly at `date`
/// and, unless other backends were asked for, measured on the reference
/// backend.
pub open spec fn keep_for_graph(m: EntryModel, date: i64, other_engines: bool) -> bool {
    m.date == date && (other_engines || m.backend == "rapier"@)
}

/// The records run exactly at `date`, restricted to the reference backend
/// unless `other_engines` is set — the graph endpoint's selection.
pub fn graph_csv_filter(entries: &Vec<BenchCSVEntry>, date: i64, other_engines: bool) -> (r: Vec<
    BenchCSVEntry,
>)
    ensures
        r@.map_values(|e: BenchCSVEntry| entry_model(e)) == entries@.map_values(
            |e: BenchCSVEntry| entry_model(e),
        ).filter(|m: EntryModel| keep_for_graph(m, date, other_engines)),
{
    broadcast use vstd::std_specs::vec::vec_clone_deep_view_proof;

    let ghost em = |e: BenchCSVEntry| entry_model(e);
    let ghost pred = |m: EntryModel| keep_for_graph(m, date, other_engines);
    let n = entries.len();
    let mut r: Vec<BenchCSVEntry> = Vec::new();
    let mut i: usize = 0;
    proof {
        reveal(Seq::filter);
        assert(entries@.take(0).map_values(em) =~= Seq::<EntryModel>::empty());
        assert(r@.map_values(em) =~= entries@.take(0).map_values(em).filter(pred));
    }
    while i < n
        invariant
            i <= n,
            n == entries@.len(),
            em == (|e: BenchCSVEntry| entry_model(e)),
            pred == (|m: EntryModel| keep_for_graph(m, date, other_engines)),
            r@.map_values(em) == entries@.take(i as int).map_values(em).filter(pred),
        decreases n - i,
    {
        let e = &entries[i];
        let ghost prefix = entries@.take(i as int).map_values(em);
        let ghost step = entries@.take(i + 1).map_values(em);
        proof {
            assert(step.drop_last() =~= prefix);
            assert(step.last() == em(entries@[i as int]));
        }
        let keep = e.key.date == date && (other_engines || str_eq(
            e.context.backend.as_str(),
            "rapier",
        ));
        if keep {
            let copy = BenchCSVEntry {
                key: crate::types::BenchKey {
                    commit: e.key.commit.clone(),
                    branch: e.key.branch.clone(),
                    date: e.key.date,
                },
                context: crate::types::BenchContext {
                    name: e.context.name.clone(),
                    backend: e.context.backend.clone(),
                },
                platform: crate::types::BenchPlatform { compiler: e.platform.compiler.clone() },
                timings: e.timings.clone(),
            };
            proof {
                assert(entry_model(copy) == em(entries@[i as int]));
            }
            let ghost r0 = r@;
            r.push(copy);
            proof {
                assert(r@.map_values(em) =~= r0.map_values(em).push(entry_model(copy)));
            }
        }
        i = i + 1;
        proof {
            reveal(Seq::filter);
            assert(step.len() > 0);
            assert(keep == pred(step.last()));
            assert(step.filter(pred) == if pred(step.last()) {
                step.drop_last().filter(pred).push(step.last())
            } else {
                step.drop_last().filter(pred)
            });
            assert(r@.map_values(em) == entries@.take(i as int).map_values(em).filter(pred));
        }
    }
    proof {
        assert(entries@.take(n as int) =~= entries@);
    }
    r
}

/// The distinct values of one field over a project's records — the listing
/// endpoint's answer: no value twice, nothing listed that no record holds,
/// and every record's value listed.
/// The first-occurrence deduplication of a sequence of values.
pub open spec fn dedup_first(vals: Seq<Seq<char>>) -> Seq<Seq<char>>
    decreases vals.len(),
{
    if vals.len() == 0 {
        Seq::empty()
    } else {
        let prefix = dedup_first(vals.drop_last());
        if prefix.contains(vals.last()) {
            prefix
        } else {
            prefix.push(vals.last())
        }
    }
}

/// The named field of every record, in order.
pub open spec fn field_values(entries: Seq<BenchCSVEntry>, field: RecordField) -> Seq<Seq<char>> {
    entries.map_values(|e: BenchCSVEntry| spec_field(entry_model(e), field))
}

/// The distinct values of one field over a project's records, first
/// occurrence first — the listing endpoint's answer.
pub fn distinct_field_values(entries: &Vec<BenchCSVEntry>, field: RecordField) -> (r: Vec<String>)
    ensures
        r@.map_values(|s: String| s@) == dedup_first(field_values(entries@, field)),
{
    let ghost sv = |s: String| s@;
    let n = entries.len();
    let mut r: Vec<String> = Vec::new();
    let mut i: usize = 0;
    proof {
        assert(field_values(entries@.take(0), field) =~= Seq::<Seq<char>>::empty());
        assert(r@.map_values(sv) =~= dedup_first(field_values(entries@.take(0), field)));
    }
    while i < n
        invariant
            i <= n,
            n == entries@.len(),
            sv == (|s: String| s@),
            r@.map_values(sv) == dedup_first(field_values(entries@.take(i as int), field)),
        decreases n - i,
    {
        let e = &entries[i];
        let value = field_of(e, field);
        let ghost prefix_vals = field_values(entries@.take(i as int), field);
        let ghost step_vals = field_values(entries@.take(i + 1), field);
        proof {
            assert(step_vals.drop_last() =~= prefix_vals);
            assert(step_vals.last() == spec_field(entry_model(entries@[i as int]), field));
        }
        let m = r.len();
        let mut seen = false;
        let mut j: usize = 0;
        while j < m
            invariant
                j <= m,
                m == r@.len(),
                value@ == spec_field(entry_model(entries@[i as int]), field),
                i < n,
                n == entries@.len(),
                seen <==> exists|p: int| 0 <= p < j && #[trigger] r@[p]@ == value@,
            decreases m - j,
        {
            if str_eq(r[j].as_str(), value.as_str()) {
                seen = true;
            }
            j = j + 1;
        }
        let ghost dd = dedup_first(prefix_vals);
        proof {
            if seen {
                let p0 = choose|p: int| 0 <= p < r@.len() && #[trigger] r@[p]@ == value@;
                assert(r@.map_values(sv)[p0] == value@);
                assert(dd.contains(value@));
            }
            if dd.contains(value@) {
                let p0 = choose|p: int| 0 <= p < dd.len() && dd[p] == value@;
                assert(r@.map_values(sv)[p0] == r@[p0]@);
                assert(seen);
            }
        }
        let ghost r_old = r@;
        if !seen {
            r.push(value);
        }
        i = i + 1;
        proof {
            assert(dedup_first(step_vals) == if dd.contains(step_vals.last()) {
                dd
            } else {
                dd.push(step_vals.last())
            });
            if !seen {
                assert(r@.map_values(sv) =~= r_old.map_values(sv).push(value@));
            }
            assert(r@.map_values(sv) == dedup_first(field_values(entries@.take(i as int), field)));
        }
    }
    proof {
        assert(entries@.take(n as int) =~= entries@);
    }
    r
}

} // verus!
