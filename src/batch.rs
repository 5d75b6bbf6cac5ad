//! Grouping of a stream of shader identities into batches: maximal runs of
//! consecutive equal identities.
use itertools::Itertools;
use vstd::prelude::*;

verus! {

/// A batch: the elements at `start .. start + len` all carry shader `id`.
#[derive(Debug, Clone, Copy, PartialEq, Eq, Structural)]
pub struct Run {
    pub id: u64,
    pub start: usize,
    pub len: usize,
}

/// The groups of `gs` laid end to end.
pub open spec fn flattened(gs: Seq<Seq<u64>>) -> Seq<u64>
    decreases gs.len(),
{
    if gs.len() == 0 {
        Seq::empty()
    } else {
        flattened(gs.drop_last()) + gs.last()
    }
}

/// `gs` cuts `ids` into its maximal runs of equal values, in order.
pub open spec fn is_group_split(ids: Seq<u64>, gs: Seq<Seq<u64>>) -> bool {
    &&& flattened(gs) == ids
    &&& forall|g: int| 0 <= g < gs.len() ==> (#[trigger] gs[g]).len() > 0
    &&& forall|g: int, j: int| 0 <= g < gs.len() && 0 <= j < gs[g].len() ==> #[trigger] gs[g][j] == gs[g][0]
    &&& forall|g: int| 0 <= g < gs.len() - 1 ==> (#[trigger] gs[g])[0] != gs[g + 1][0]
}

/// The index one past the last element of a run.
pub open spec fn run_end(r: Run) -> int {
    r.start + r.len
}

/// `runs` are the maximal runs of equal identities of `ids`, in order: they
/// are non-empty, lie end to end from `0` to `ids.len()`, every element of a
/// run carries the run's identity, and neighbouring runs differ in identity.
pub open spec fn is_batching(ids: Seq<u64>, runs: Seq<Run>) -> bool {
    &&& runs.len() == 0 ==> ids.len() == 0
    &&& runs.len() > 0 ==> runs[0].start == 0 && run_end(runs.last()) == ids.len()
    &&& forall|g: int| 0 <= g < runs.len() ==> (#[trigger] runs[g]).len > 0
    &&& forall|g: int| 0 <= g < runs.len() - 1 ==> run_end(#[trigger] runs[g]) == runs[g + 1].start
    &&& forall|g: int, i: int|
        0 <= g < runs.len() && (#[trigger] runs[g]).start <= i < run_end(runs[g]) ==> #[trigger] ids[i]
            == runs[g].id
    &&& forall|g: int| 0 <= g < runs.len() - 1 ==> (#[trigger] runs[g]).id != runs[g + 1].id
}

/// Relies on itertools' `Itertools::group_by`, keyed by the value itself: it
/// yields the maximal runs of consecutive equal values, in order.
#[verifier::external_body]
fn group_equal(ids: &Vec<u64>) -> (r: Vec<Vec<u64>>)
    ensures
        is_group_split(ids@, r@.map_values(|g: Vec<u64>| g@)),
{
    let groups = ids.iter().copied().group_by(|id| *id);
    groups.into_iter().map(|(_, group)| group.collect()).collect()
}

/// A prefix of the groups lays out a prefix of the whole.
proof fn lemma_flattened_prefix(gs: Seq<Seq<u64>>, h: int)
    requires
        0 <= h <= gs.len(),
    ensures
        flattened(gs.subrange(0, h)).len() <= flattened(gs).len(),
        flattened(gs).subrange(0, flattened(gs.subrange(0, h)).len() as int) == flattened(gs.subrange(0, h)),
    decreases gs.len(),
{
    if h < gs.len() {
        assert(gs.drop_last() =~= gs.subrange(0, gs.len() - 1));
        assert(gs.drop_last().subrange(0, h) =~= gs.subrange(0, h));
        lemma_flattened_prefix(gs.drop_last(), h);
        let p = flattened(gs.subrange(0, h));
        assert(flattened(gs).subrange(0, p.len() as int) =~= flattened(gs.drop_last()).subrange(0, p.len() as int));
    } else {
        assert(gs.subrange(0, h) =~= gs);
        assert(flattened(gs).subrange(0, flattened(gs).len() as int) =~= flattened(gs));
    }
}

/// Splits a sequence of shader identities into batches.
pub fn batch_runs(ids: &Vec<u64>) -> (r: Vec<Run>)
    ensures
        is_batching(ids@, r@),
{
    let groups = group_equal(ids);
    let ghost gs = groups@.map_values(|g: Vec<u64>| g@);
    let mut runs: Vec<Run> = Vec::new();
    let mut start: usize = 0;
    let mut g: usize = 0;
    let total = ids.len();
    assert(gs.subrange(0, 0) =~= Seq::<Seq<u64>>::empty());
    while g < groups.len()
        invariant
            gs == groups@.map_values(|g: Vec<u64>| g@),
            is_group_split(ids@, gs),
            total == ids@.len(),
            g <= gs.len(),
            start == flattened(gs.subrange(0, g as int)).len(),
            runs@.len() == g,
            forall|h: int|
                0 <= h < g ==> (#[trigger] runs@[h]).start == flattened(gs.subrange(0, h)).len()
                    && runs@[h].len == gs[h].len() && runs@[h].id == gs[h][0],
        decreases gs.len() - g,
    {
        let group = &groups[g];
        assert(group@ == gs[g as int]);
        let ghost next = gs.subrange(0, g + 1);
        assert(next.drop_last() =~= gs.subrange(0, g as int));
        proof {
            lemma_flattened_prefix(gs, g + 1);
        }
        let len = group.len();
        let id = group[0];
        assert(flattened(next).len() == start + len);
        runs.push(Run { id, start, len });
        start = start + len;
        g = g + 1;
    }
    proof {
        assert(gs.subrange(0, gs.len() as int) =~= gs);
        assert forall|h: int, i: int|
            0 <= h < runs@.len() && (#[trigger] runs@[h]).start <= i < run_end(runs@[h]) implies #[trigger] ids@[i]
                == runs@[h].id by {
            let next = gs.subrange(0, h + 1);
            assert(next.drop_last() =~= gs.subrange(0, h));
            lemma_flattened_prefix(gs, h + 1);
            let p = flattened(gs.subrange(0, h));
            assert(flattened(next)[i] == gs[h][i - p.len()]);
            assert(flattened(gs).subrange(0, flattened(next).len() as int)[i] == ids@[i]);
        }
        assert forall|h: int| 0 <= h < runs@.len() - 1 implies run_end(#[trigger] runs@[h]) == runs@[h + 1].start by {
            let next = gs.subrange(0, h + 1);
            assert(next.drop_last() =~= gs.subrange(0, h));
        }
        assert forall|h: int| 0 <= h < runs@.len() - 1 implies (#[trigger] runs@[h]).id != runs@[h + 1].id by {
            assert(gs[h][0] != gs[h + 1][0]);
        }
        assert forall|h: int| 0 <= h < runs@.len() implies (#[trigger] runs@[h]).len > 0 by {
            assert(gs[h].len() > 0);
        }
        if runs@.len() == 0 {
            assert(flattened(gs) =~= Seq::<u64>::empty());
        } else {
            let h = runs@.len() - 1;
            let next = gs.subrange(0, h + 1);
            assert(next.drop_last() =~= gs.subrange(0, h));
            assert(next =~= gs);
        }
    }
    runs
}

/// Two neighbouring elements share a batch exactly when their shader
/// identities are equal: equal identities are drawn by one call, distinct
/// ones by two.
pub proof fn lemma_neighbours_share_batch(ids: Seq<u64>, runs: Seq<Run>, g: int, i: int)
    requires
        is_batching(ids, runs),
        0 <= g < runs.len(),
        runs[g].start <= i < run_end(runs[g]),
        i + 1 < ids.len(),
    ensures
        ids[i] == ids[i + 1] <==> i + 1 < run_end(runs[g]),
        i + 1 == run_end(runs[g]) ==> g + 1 < runs.len() && runs[g + 1].start == i + 1,
{
    assert(ids[i] == runs[g].id);
    if i + 1 == run_end(runs[g]) {
        if g == runs.len() - 1 {
            assert(run_end(runs.last()) == ids.len());
        }
        assert(run_end(runs[g]) == runs[g + 1].start);
        assert(runs[g + 1].len > 0);
        assert(ids[i + 1] == runs[g + 1].id);
    } else {
        assert(ids[i + 1] == runs[g].id);
    }
}

/// An empty stream of elements forms no batch, so nothing is drawn.
pub proof fn lemma_empty_stream_no_batches(runs: Seq<Run>)
    requires
        is_batching(Seq::<u64>::empty(), runs),
    ensures
        runs.len() == 0,
{
    if runs.len() > 0 {
        assert(runs[runs.len() - 1].len > 0);
    }
}

/// Every run ends within the sequence.
pub proof fn lemma_run_end_bound(ids: Seq<u64>, runs: Seq<Run>, g: int)
    requires
        is_batching(ids, runs),
        0 <= g < runs.len(),
    ensures
        run_end(runs[g]) <= ids.len(),
    decreases runs.len() - g,
{
    if g < runs.len() - 1 {
        lemma_run_end_bound(ids, runs, g + 1);
        assert(run_end(runs[g]) == runs[g + 1].start);
    }
}

/// Two elements form one batch when their shader identities are equal, and
/// two batches when they differ.
pub proof fn lemma_pair_batches(a: u64, b: u64, runs: Seq<Run>)
    requires
        is_batching(seq![a, b], runs),
    ensures
        a == b ==> runs.len() == 1,
        a != b ==> runs.len() == 2,
{
    let ids = seq![a, b];
    assert(runs.len() > 0);
    assert(runs[0].len > 0);
    lemma_neighbours_share_batch(ids, runs, 0, 0);
    lemma_run_end_bound(ids, runs, 0);
    if runs.len() > 1 {
        lemma_run_end_bound(ids, runs, 1);
        assert(runs[1].len > 0);
        assert(run_end(runs[0]) == runs[1].start);
    }
    if runs.len() > 2 {
        lemma_run_end_bound(ids, runs, 2);
        assert(runs[2].len > 0);
        assert(run_end(runs[1]) == runs[2].start);
    }
}

/// Runs `0 .. g` of two batchings of the same identities agree.
proof fn lemma_batching_prefix_agrees(ids: Seq<u64>, r1: Seq<Run>, r2: Seq<Run>, g: int)
    requires
        is_batching(ids, r1),
        is_batching(ids, r2),
        0 <= g,
        g < r1.len(),
        g < r2.len(),
    ensures
        forall|h: int| 0 <= h <= g ==> r1[h] == r2[h],
    decreases g,
{
    if g > 0 {
        lemma_batching_prefix_agrees(ids, r1, r2, g - 1);
        assert(run_end(r1[g - 1]) == r1[g].start);
        assert(run_end(r2[g - 1]) == r2[g].start);
    }
    let s = r1[g].start as int;
    assert(s == r2[g].start);
    lemma_run_end_bound(ids, r1, g);
    lemma_run_end_bound(ids, r2, g);
    assert(r1[g].len > 0 && r2[g].len > 0);
    assert(ids[s] == r1[g].id && ids[s] == r2[g].id);
    let e1 = run_end(r1[g]);
    let e2 = run_end(r2[g]);
    if e1 < e2 {
        if g == r1.len() - 1 {
            assert(run_end(r1.last()) == ids.len());
        }
        assert(r1[g + 1].start == e1);
        assert(r1[g + 1].len > 0);
        assert(ids[e1] == r1[g + 1].id);
        assert(ids[e1] == r2[g].id);
    } else if e2 < e1 {
        if g == r2.len() - 1 {
            assert(run_end(r2.last()) == ids.len());
        }
        assert(r2[g + 1].start == e2);
        assert(r2[g + 1].len > 0);
        assert(ids[e2] == r2[g + 1].id);
        assert(ids[e2] == r1[g].id);
    }
}

/// The batching of a sequence of identities is unique: `batch_runs` has
/// exactly one possible result.
pub proof fn lemma_batching_unique(ids: Seq<u64>, r1: Seq<Run>, r2: Seq<Run>)
    requires
        is_batching(ids, r1),
        is_batching(ids, r2),
    ensures
        r1 == r2,
{
    if r1.len() > 0 && r2.len() > 0 {
        let m = if r1.len() < r2.len() { r1.len() - 1 } else { r2.len() - 1 };
        lemma_batching_prefix_agrees(ids, r1, r2, m);
        if r1.len() < r2.len() {
            assert(run_end(r1.last()) == ids.len());
            assert(run_end(r2[m]) == r2[m + 1].start);
            lemma_run_end_bound(ids, r2, m + 1);
            assert(r2[m + 1].len > 0);
        } else if r2.len() < r1.len() {
            assert(run_end(r2.last()) == ids.len());
            assert(run_end(r1[m]) == r1[m + 1].start);
            lemma_run_end_bound(ids, r1, m + 1);
            assert(r1[m + 1].len > 0);
        }
        assert(r1 =~= r2);
    } else if r1.len() > 0 {
        assert(r1[0].len > 0);
        lemma_run_end_bound(ids, r1, 0);
    } else if r2.len() > 0 {
        assert(r2[0].len > 0);
        lemma_run_end_bound(ids, r2, 0);
    } else {
        assert(r1 =~= r2);
    }
}

} // verus!
