//! The segment coalescer: turns a line's per-character face ids into the
//! minimal ordered list of same-face runs, the unit the rendering layer
//! consumes. Runs are derived on demand and never kept as authoritative
//! state; recomputing them always agrees with the grid.

use vstd::prelude::*;

verus! {

/// A maximal same-face stretch of columns on one line: `len` columns
/// starting at `start`, all carrying `face_id`.
#[derive(Clone, Copy, PartialEq, Eq, Structural, Debug)]
pub struct Run {
    pub face_id: usize,
    pub start: usize,
    pub len: usize,
}

/// What it means for `runs` to be the coalesced form of a non-empty face
/// row: non-empty runs partition `[0, row.len())` in order with no gaps or
/// overlaps, every column of a run carries the run's face id, and no two
/// adjacent runs share a face id. These conditions determine the run list
/// uniquely.
pub open spec fn runs_partition(row: Seq<usize>, runs: Seq<Run>) -> bool {
    &&& runs.len() >= 1
    &&& runs[0].start == 0
    &&& forall|k: int| 0 <= k < runs.len() ==> (#[trigger] runs[k]).len >= 1
    &&& forall|k: int| 0 <= k < runs.len()
        ==> (#[trigger] runs[k]).start + runs[k].len <= row.len()
    &&& forall|k: int| 0 <= k < runs.len() - 1
        ==> (#[trigger] runs[k + 1]).start == runs[k].start + runs[k].len
    &&& runs[runs.len() - 1].start + runs[runs.len() - 1].len == row.len()
    &&& forall|k: int, x: int|
        #![trigger runs[k], row[x]]
        0 <= k < runs.len() && runs[k].start <= x < runs[k].start + runs[k].len
            ==> row[x] == runs[k].face_id
    &&& forall|k: int| 0 <= k < runs.len() - 1
        ==> (#[trigger] runs[k]).face_id != runs[k + 1].face_id
}

/// Coalesce one face row into its run list, scanning left to right. A
/// zero-length line yields a single synthetic run of length 1 carrying the
/// default face id 0, so background and cursor rendering still have
/// something to draw on an empty line.
pub fn coalesce(row: &Vec<usize>) -> (runs: Vec<Run>)
    ensures
        row@.len() == 0 ==> runs@.len() == 1 && runs@[0] == (Run {
            face_id: 0,
            start: 0,
            len: 1,
        }),
        row@.len() > 0 ==> runs_partition(row@, runs@),
{
    let n = row.len();
    let mut runs: Vec<Run> = Vec::new();
    if n == 0 {
        runs.push(Run { face_id: 0, start: 0, len: 1 });
        return runs;
    }
    let mut start: usize = 0;
    let mut face: usize = row[0];
    let mut c: usize = 1;
    while c < n
        invariant
            n == row@.len(),
            1 <= c <= n,
            start < c,
            face == row@[start as int],
            runs@.len() == 0 ==> start == 0,
            runs@.len() >= 1 ==> runs@[0].start == 0,
            forall|k: int| 0 <= k < runs@.len() ==> (#[trigger] runs@[k]).len >= 1,
            forall|k: int| 0 <= k < runs@.len()
                ==> (#[trigger] runs@[k]).start + runs@[k].len <= start,
            forall|k: int| 0 <= k < runs@.len() - 1
                ==> (#[trigger] runs@[k + 1]).start == runs@[k].start + runs@[k].len,
            runs@.len() >= 1 ==> runs@[runs@.len() - 1].start + runs@[runs@.len() - 1].len
                == start,
            forall|k: int, x: int|
                #![trigger runs@[k], row@[x]]
                0 <= k < runs@.len() && runs@[k].start <= x < runs@[k].start + runs@[k].len
                    ==> row@[x] == runs@[k].face_id,
            runs@.len() >= 1 ==> runs@[runs@.len() - 1].face_id != face,
            forall|k: int| 0 <= k < runs@.len() - 1
                ==> (#[trigger] runs@[k]).face_id != runs@[k + 1].face_id,
            forall|x: int| start <= x < c ==> (#[trigger] row@[x]) == face,
        decreases n - c,
    {
        if row[c] != face {
            runs.push(Run { face_id: face, start, len: c - start });
            start = c;
            face = row[c];
        }
        c += 1;
    }
    runs.push(Run { face_id: face, start, len: n - start });
    runs
}

/// The total length of a run list.
pub open spec fn sum_run_lens(runs: Seq<Run>) -> int
    decreases runs.len(),
{
    if runs.len() == 0 {
        0
    } else {
        sum_run_lens(runs.drop_last()) + runs.last().len
    }
}

/// Runs chained end to start sum to the distance from the first run's
/// start to the last run's end.
proof fn lemma_chain_sum(runs: Seq<Run>)
    requires
        runs.len() >= 1,
        forall|k: int| 0 <= k < runs.len() - 1
            ==> (#[trigger] runs[k + 1]).start == runs[k].start + runs[k].len,
    ensures
        sum_run_lens(runs) == runs[runs.len() - 1].start + runs[runs.len() - 1].len
            - runs[0].start,
    decreases runs.len(),
{
    if runs.len() > 1 {
        let head = runs.drop_last();
        assert forall|k: int| 0 <= k < head.len() - 1 implies
            (#[trigger] head[k + 1]).start == head[k].start + head[k].len by {
            assert(runs[k + 1].start == runs[k].start + runs[k].len);
        }
        lemma_chain_sum(head);
        let m = runs.len() as int;
        assert(runs[(m - 2) + 1].start == runs[m - 2].start + runs[m - 2].len);
        assert(head.len() == m - 1);
        assert(head[m - 2] == runs[m - 2]);
        assert(head[0] == runs[0]);
        assert(sum_run_lens(head) == head[m - 2].start + head[m - 2].len - head[0].start);
        assert(runs.last() == runs[m - 1]);
        assert(sum_run_lens(runs) == sum_run_lens(head) + runs[m - 1].len);
    } else {
        assert(runs.drop_last().len() == 0);
        assert(sum_run_lens(runs.drop_last()) == 0);
        assert(sum_run_lens(runs) == runs[0].len);
    }
}

/// Coalescer correctness, summed up: for a non-empty face row, the
/// coalesced runs' lengths add up to exactly the row's length. Together
/// with `runs_partition` this says the runs cover the row with no gaps and
/// no overlaps.
pub proof fn theorem_runs_cover_row(row: Seq<usize>, runs: Seq<Run>)
    requires
        row.len() >= 1,
        runs_partition(row, runs),
    ensures
        sum_run_lens(runs) == row.len(),
{
    lemma_chain_sum(runs);
}

} // verus!
