//! Assembling the records one job uploads, and the ledger model of the
//! result store.

use crate::csv::{csv_columns, csv_headers};
use crate::types::{BenchCSVEntry, BenchContext, BenchKey, BenchPlatform};
use vstd::prelude::*;

verus! {

/// The mathematical shape of one stored record: every field as its view.
pub struct EntryModel {
    pub commit: Seq<char>,
    pub branch: Seq<char>,
    pub date: i64,
    pub name: Seq<char>,
    pub backend: Seq<char>,
    pub compiler: Seq<char>,
    pub timings: Seq<Seq<char>>,
}

pub open spec fn entry_model(e: BenchCSVEntry) -> EntryModel {
    EntryModel {
        commit: e.key.commit@,
        branch: e.key.branch@,
        date: e.key.date,
        name: e.context.name@,
        backend: e.context.backend@,
        compiler: e.platform.compiler@,
        timings: e.timings.deep_view(),
    }
}

/// The records one parsed result file yields: one per header column, the
/// column's header as the backend, the column's numerals as the timings.
pub open spec fn spec_entries(
    commit: Seq<char>,
    branch: Seq<char>,
    date: i64,
    name: Seq<char>,
    compiler: Seq<char>,
    headers: Seq<Seq<char>>,
    columns: Seq<Seq<Seq<char>>>,
) -> Seq<EntryModel> {
    Seq::new(
        headers.len(),
        |i: int|
            EntryModel {
                commit,
                branch,
                date,
                name,
                backend: headers[i],
                compiler,
                timings: columns[i],
            },
    )
}

/// Builds one record per backend column of a parsed result file.
pub fn make_entries(
    key: &BenchKey,
    name: &String,
    platform: &BenchPlatform,
    headers: &Vec<String>,
    columns: &Vec<Vec<String>>,
) -> (r: Vec<BenchCSVEntry>)
    requires
        headers@.len() == columns@.len(),
    ensures
        r@.len() == headers@.len(),
        r@.map_values(|e: BenchCSVEntry| entry_model(e)) == spec_entries(
            key.commit@,
            key.branch@,
            key.date,
            name@,
            platform.compiler@,
            headers.deep_view(),
            columns.deep_view(),
        ),
{
    broadcast use vstd::std_specs::vec::vec_clone_deep_view_proof;

    let ghost goal = spec_entries(
        key.commit@,
        key.branch@,
        key.date,
        name@,
        platform.compiler@,
        headers.deep_view(),
        columns.deep_view(),
    );
    let n = headers.len();
    let mut r: Vec<BenchCSVEntry> = Vec::new();
    let mut i: usize = 0;
    while i < n
        invariant
            i <= n,
            n == headers@.len(),
            headers@.len() == columns@.len(),
            goal == spec_entries(
                key.commit@,
                key.branch@,
                key.date,
                name@,
                platform.compiler@,
                headers.deep_view(),
                columns.deep_view(),
            ),
            r@.map_values(|e: BenchCSVEntry| entry_model(e)) == goal.take(i as int),
        decreases n - i,
    {
        let backend = headers[i].clone();
        let timings = columns[i].clone();
        proof {
            crate::text::lemma_index_deep_view(*headers, i as int);
            crate::text::lemma_index_deep_view(*columns, i as int);
            assert(backend@ == headers.deep_view()[i as int]);
            assert(timings.deep_view() == columns.deep_view()[i as int]);
        }
        let entry = BenchCSVEntry {
            key: BenchKey {
                commit: key.commit.clone(),
                branch: key.branch.clone(),
                date: key.date,
            },
            context: BenchContext { name: name.clone(), backend },
            platform: BenchPlatform { compiler: platform.compiler.clone() },
            timings,
        };
        proof {
            assert(entry_model(entry) == goal[i as int]);
        }
        let ghost r0 = r@;
        r.push(entry);
        i = i + 1;
        proof {
            assert(r@.map_values(|e: BenchCSVEntry| entry_model(e)) =~= r0.map_values(
                |e: BenchCSVEntry| entry_model(e),
            ).push(entry_model(entry)));
            assert(goal.take(i as int) =~= goal.take(i - 1).push(goal[i - 1]));
        }
    }
    proof {
        assert(goal.take(n as int) =~= goal);
    }
    r
}

/// Law: one benchmark's records are one per backend column — the column's
/// header as the backend, the column's numerals as the timings, the job's
/// key and platform shared by all.
pub proof fn lemma_one_record_per_backend(
    commit: Seq<char>,
    branch: Seq<char>,
    date: i64,
    name: Seq<char>,
    compiler: Seq<char>,
    headers: Seq<Seq<char>>,
    columns: Seq<Seq<Seq<char>>>,
)
    ensures
        spec_entries(commit, branch, date, name, compiler, headers, columns).len()
            == headers.len(),
        forall|i: int|
            0 <= i < headers.len() ==> {
                let e = #[trigger] spec_entries(
                    commit,
                    branch,
                    date,
                    name,
                    compiler,
                    headers,
                    columns,
                )[i];
                e.backend == headers[i] && e.timings == columns[i] && e.commit == commit
                    && e.branch == branch && e.date == date && e.name == name && e.compiler
                    == compiler
            },
{
}

/// The sum of a sequence of counts.
pub open spec fn seq_sum(s: Seq<nat>) -> nat
    decreases s.len(),
{
    if s.len() == 0 {
        0
    } else {
        s[0] + seq_sum(s.drop_first())
    }
}

/// The records a completed job uploads, benchmark by benchmark in discovery
/// order: for each discovered name its result file's records.
pub open spec fn job_entries(
    commit: Seq<char>,
    branch: Seq<char>,
    date: i64,
    compiler: Seq<char>,
    names: Seq<Seq<char>>,
    files: Seq<Seq<char>>,
) -> Seq<EntryModel>
    decreases names.len(),
{
    if names.len() == 0 || files.len() == 0 {
        Seq::empty()
    } else {
        spec_entries(
            commit,
            branch,
            date,
            names[0],
            compiler,
            csv_headers(files[0]),
            csv_columns(files[0]),
        ) + job_entries(commit, branch, date, compiler, names.drop_first(), files.drop_first())
    }
}

/// Law: a job over benchmarks whose result files have these column counts
/// produces exactly the sum of the column counts as records, and each record
/// of benchmark `k` carries one timing per data row of file `k`.
pub proof fn lemma_job_record_total(
    commit: Seq<char>,
    branch: Seq<char>,
    date: i64,
    compiler: Seq<char>,
    names: Seq<Seq<char>>,
    files: Seq<Seq<char>>,
)
    requires
        names.len() == files.len(),
    ensures
        job_entries(commit, branch, date, compiler, names, files).len() == seq_sum(
            files.map_values(|f: Seq<char>| csv_headers(f).len()),
        ),
    decreases names.len(),
{
    let widths = files.map_values(|f: Seq<char>| csv_headers(f).len());
    if names.len() == 0 {
        assert(seq_sum(widths) == 0);
    } else {
        lemma_job_record_total(
            commit,
            branch,
            date,
            compiler,
            names.drop_first(),
            files.drop_first(),
        );
        assert(files.drop_first().map_values(|f: Seq<char>| csv_headers(f).len())
            =~= widths.drop_first());
        assert(widths[0] == csv_headers(files[0]).len());
    }
}

/// Law: every record of one parsed file carries one timing per data row.
pub proof fn lemma_entry_timings_are_rows(t: Seq<char>, j: int)
    requires
        0 <= j < csv_headers(t).len(),
        crate::csv::csv_wf(t),
    ensures
        csv_columns(t)[j].len() == crate::csv::csv_row_count(t),
{
}

/// The store's ledger: uploading appends each record as an independent
/// document, in order, with no deduplication key.
pub fn store_upload(store: &mut Vec<BenchCSVEntry>, records: Vec<BenchCSVEntry>)
    ensures
        final(store)@ == old(store)@ + records@,
{
    let ghost orig = records@;
    let mut rest = records;
    while rest.len() > 0
        invariant
            store@ + rest@ == old(store)@ + orig,
        decreases rest@.len(),
    {
        let head = rest.remove(0);
        store.push(head);
        proof {
            assert(store@ + rest@ =~= old(store)@ + orig);
        }
    }
    proof {
        assert(store@ =~= store@ + rest@);
    }
}

/// Law: replaying an identical job appends a second, equal batch of records
/// — the store ends with both copies, back to back, nothing rejected.
pub proof fn lemma_replay_appends_twice(store0: Seq<BenchCSVEntry>, batch: Seq<BenchCSVEntry>)
    ensures
        ((store0 + batch) + batch).len() == store0.len() + 2 * batch.len(),
        ((store0 + batch) + batch).subrange(store0.len() as int, (store0.len() + batch.len()) as int)
            == batch,
        ((store0 + batch) + batch).subrange(
            (store0.len() + batch.len()) as int,
            (store0.len() + 2 * batch.len()) as int,
        ) == batch,
{
    assert(((store0 + batch) + batch).subrange(
        store0.len() as int,
        (store0.len() + batch.len()) as int,
    ) =~= batch);
    assert(((store0 + batch) + batch).subrange(
        (store0.len() + batch.len()) as int,
        (store0.len() + 2 * batch.len()) as int,
    ) =~= batch);
}

} // verus!
