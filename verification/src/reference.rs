//! Which samples of a voice's reference audio make its short reference
//! clip: the loud runs of the audio, merged across short pauses, and the
//! stretch of them that the clip takes.
use vstd::prelude::*;
use crate::audio::{merge_short_reference_ranges, merged_ranges, ms_to_samples};
use crate::error::AppError;

verus! {

/// Runs of loud samples closed so far, and the start of the run still open,
/// after reading `loud` (one flag per sample).
pub open spec fn run_scan(loud: Seq<bool>) -> (Seq<(usize, usize)>, Option<usize>)
    decreases loud.len(),
{
    if loud.len() == 0 {
        (seq![], None)
    } else {
        let prev = run_scan(loud.drop_last());
        let i = (loud.len() - 1) as usize;
        if loud.last() {
            match prev.1 {
                Some(_) => prev,
                None => (prev.0, Some(i)),
            }
        } else {
            match prev.1 {
                Some(s) => (prev.0.push((s, i)), None),
                None => prev,
            }
        }
    }
}

/// The maximal runs of loud samples, as `(start, end)` with `end` excluded.
pub open spec fn loud_runs(loud: Seq<bool>) -> Seq<(usize, usize)> {
    let scan = run_scan(loud);
    match scan.1 {
        Some(s) => scan.0.push((s, loud.len() as usize)),
        None => scan.0,
    }
}

/// The maximal runs of samples marked loud.
pub fn loud_sample_runs(loud: &Vec<bool>) -> (r: Vec<(usize, usize)>)
    ensures
        r@ == loud_runs(loud@),
{
    let mut runs: Vec<(usize, usize)> = Vec::new();
    let mut start: Option<usize> = None;
    let mut i: usize = 0;
    while i < loud.len()
        invariant
            i <= loud.len(),
            (runs@, start) == run_scan(loud@.take(i as int)),
        decreases loud.len() - i,
    {
        assert(loud@.take(i + 1).drop_last() == loud@.take(i as int));
        assert(loud@.take(i + 1).last() == loud@[i as int]);
        if loud[i] {
            if start.is_none() {
                start = Some(i);
            }
        } else {
            match start {
                Some(s) => {
                    runs.push((s, i));
                    start = None;
                },
                None => {},
            }
        }
        i = i + 1;
    }
    assert(loud@.take(loud.len() as int) == loud@);
    match start {
        Some(s) => runs.push((s, loud.len())),
        None => {},
    }
    runs
}

/// The active blocks of an audio: its loud runs, merged when less than a
/// tenth of a second of quiet lies between them.
pub fn active_sample_blocks(loud: &Vec<bool>, sample_rate: u32) -> (r: Vec<(usize, usize)>)
    ensures
        r@ == merged_ranges(loud_runs(loud@), ((100 * sample_rate as int) / 1000) as usize),
{
    proof {
        assert((100 * sample_rate as int) / 1000 <= 0xffff_ffff);
    }
    let gap = ms_to_samples(100, sample_rate);
    merge_short_reference_ranges(loud_sample_runs(loud), gap)
}

/// Ranges of samples, each non-empty, inside `len` samples, holding only
/// loud samples, and in order: each ends before the next starts, with more
/// than `gap` samples between them.
pub open spec fn loud_ranges_apart(ranges: Seq<(usize, usize)>, loud: Seq<bool>, gap: int) -> bool {
    &&& forall|i: int| 0 <= i < ranges.len() ==> (#[trigger] ranges[i]).0 < ranges[i].1 <= loud.len()
    &&& forall|i: int, k: int|
        0 <= i < ranges.len() && (#[trigger] ranges[i]).0 <= k < ranges[i].1 ==> #[trigger] loud[k]
    &&& forall|i: int, j: int|
        0 <= i < j < ranges.len() ==> (#[trigger] ranges[i]).1 + gap < (#[trigger] ranges[j]).0
}

/// Sample `k` lies in one of the ranges.
pub open spec fn covered(ranges: Seq<(usize, usize)>, k: int) -> bool {
    exists|i: int| 0 <= i < ranges.len() && (#[trigger] ranges[i]).0 <= k < ranges[i].1
}

pub proof fn lemma_run_scan(loud: Seq<bool>)
    requires
        loud.len() <= usize::MAX,
    ensures
        loud_ranges_apart(run_scan(loud).0, loud, 0),
        forall|i: int|
            0 <= i < run_scan(loud).0.len() ==> (#[trigger] run_scan(loud).0[i]).1 < loud.len(),
        run_scan(loud).1 matches Some(s) ==> {
            &&& s < loud.len()
            &&& forall|k: int| s <= k < loud.len() ==> #[trigger] loud[k]
            &&& forall|i: int|
                0 <= i < run_scan(loud).0.len() ==> (#[trigger] run_scan(loud).0[i]).1 < s
        },
        forall|k: int|
            0 <= k < loud.len() && #[trigger] loud[k] ==> covered(run_scan(loud).0, k) || (run_scan(
                loud,
            ).1 matches Some(s) && s <= k),
    decreases loud.len(),
{
    if loud.len() > 0 {
        let prev_loud = loud.drop_last();
        lemma_run_scan(prev_loud);
        let prev = run_scan(prev_loud);
        let n = loud.len() - 1;
        let scan = run_scan(loud);
        assert forall|k: int| 0 <= k < n implies prev_loud[k] == loud[k] by {}
        let runs = scan.0;
        assert forall|i: int| 0 <= i < runs.len() implies (#[trigger] runs[i]).0 < runs[i].1
            <= loud.len() && runs[i].1 < loud.len() by {
            if i < prev.0.len() {
                assert(runs[i] == prev.0[i]);
            }
        }
        assert forall|i: int, k: int|
            0 <= i < runs.len() && (#[trigger] runs[i]).0 <= k < runs[i].1 implies #[trigger] loud[k] by {
            if i < prev.0.len() {
                assert(runs[i] == prev.0[i]);
                assert(prev_loud[k]);
            } else {
                assert(prev_loud[k]);
            }
        }
        assert forall|i: int, j: int| 0 <= i < j < runs.len() implies (#[trigger] runs[i]).1 + 0
            < (#[trigger] runs[j]).0 by {
            assert(runs[i] == prev.0[i]);
            if j < prev.0.len() {
                assert(runs[j] == prev.0[j]);
            }
        }
        assert forall|k: int| 0 <= k < loud.len() && #[trigger] loud[k] implies covered(runs, k)
            || (scan.1 matches Some(s) && s <= k) by {
            if k < n {
                assert(prev_loud[k]);
                if covered(prev.0, k) {
                    let i = choose|i: int| 0 <= i < prev.0.len() && (#[trigger] prev.0[i]).0 <= k
                        < prev.0[i].1;
                    assert(runs[i] == prev.0[i]);
                }
                if !loud.last() {
                    if let Some(s) = prev.1 {
                        if s <= k {
                            assert(runs[runs.len() - 1] == (s, n as usize));
                        }
                    }
                }
            }
        }
        if let Some(s) = scan.1 {
            assert forall|k: int| s <= k < loud.len() implies #[trigger] loud[k] by {
                if k < n {
                    assert(prev_loud[k]);
                }
            }
            assert forall|i: int| 0 <= i < runs.len() implies (#[trigger] runs[i]).1 < s by {
                assert(runs[i] == prev.0[i]);
            }
        }
    }
}

/// The loud runs of an audio are non-empty, hold only loud samples, come in
/// order, and together hold every loud sample.
pub proof fn lemma_loud_runs(loud: Seq<bool>)
    requires
        loud.len() <= usize::MAX,
    ensures
        loud_ranges_apart(loud_runs(loud), loud, 0),
        forall|k: int| 0 <= k < loud.len() && #[trigger] loud[k] ==> covered(loud_runs(loud), k),
{
    lemma_run_scan(loud);
    let scan = run_scan(loud);
    let runs = loud_runs(loud);
    if let Some(s) = scan.1 {
        let last = runs.len() - 1;
        assert(runs[last] == (s, loud.len() as usize));
        assert forall|i: int| 0 <= i < runs.len() implies (#[trigger] runs[i]).0 < runs[i].1
            <= loud.len() by {
            if i < last {
                assert(runs[i] == scan.0[i]);
            }
        }
        assert forall|i: int, k: int|
            0 <= i < runs.len() && (#[trigger] runs[i]).0 <= k < runs[i].1 implies #[trigger] loud[k] by {
            if i < last {
                assert(runs[i] == scan.0[i]);
            }
        }
        assert forall|i: int, j: int| 0 <= i < j < runs.len() implies (#[trigger] runs[i]).1 + 0
            < (#[trigger] runs[j]).0 by {
            assert(runs[i] == scan.0[i]);
            if j < last {
                assert(runs[j] == scan.0[j]);
            }
        }
        assert forall|k: int| 0 <= k < loud.len() && #[trigger] loud[k] implies covered(runs, k) by {
            if covered(scan.0, k) {
                let i = choose|i: int| 0 <= i < scan.0.len() && (#[trigger] scan.0[i]).0 <= k
                    < scan.0[i].1;
                assert(runs[i] == scan.0[i]);
            } else {
                assert(runs[last].0 <= k < runs[last].1);
            }
        }
    }
}

/// Blocks of samples, each non-empty, inside `len` samples, starting and
/// ending on a loud sample, and in order with more than `gap` samples
/// between one and the next.
pub open spec fn blocks_apart(blocks: Seq<(usize, usize)>, loud: Seq<bool>, gap: int) -> bool {
    &&& forall|i: int| 0 <= i < blocks.len() ==> (#[trigger] blocks[i]).0 < blocks[i].1 <= loud.len()
    &&& forall|i: int|
        0 <= i < blocks.len() ==> loud[(#[trigger] blocks[i]).0 as int] && loud[blocks[i].1 - 1]
    &&& forall|i: int, j: int|
        0 <= i < j < blocks.len() ==> (#[trigger] blocks[i]).1 + gap < (#[trigger] blocks[j]).0
}

/// Merging ordered runs of loud samples keeps blocks apart, holds every
/// sample of the runs, and ends where the last run ends.
pub proof fn lemma_merged_ranges(ranges: Seq<(usize, usize)>, loud: Seq<bool>, gap: usize)
    requires
        loud_ranges_apart(ranges, loud, 0),
    ensures
        blocks_apart(merged_ranges(ranges, gap), loud, gap as int),
        forall|k: int| covered(ranges, k) ==> covered(merged_ranges(ranges, gap), k),
        ranges.len() > 0 ==> merged_ranges(ranges, gap).len() > 0 && merged_ranges(ranges, gap).last().1
            == ranges.last().1,
    decreases ranges.len(),
{
    if ranges.len() > 0 {
        let rest = ranges.drop_last();
        assert(loud_ranges_apart(rest, loud, 0)) by {
            assert forall|i: int| 0 <= i < rest.len() implies (#[trigger] rest[i]).0 < rest[i].1
                <= loud.len() by {
                assert(rest[i] == ranges[i]);
            }
            assert forall|i: int, k: int|
                0 <= i < rest.len() && (#[trigger] rest[i]).0 <= k < rest[i].1 implies #[trigger] loud[k] by {
                assert(rest[i] == ranges[i]);
            }
            assert forall|i: int, j: int| 0 <= i < j < rest.len() implies (#[trigger] rest[i]).1 + 0
                < (#[trigger] rest[j]).0 by {
                assert(rest[i] == ranges[i]);
                assert(rest[j] == ranges[j]);
            }
        }
        lemma_merged_ranges(rest, loud, gap);
        let prev = merged_ranges(rest, gap);
        let r = ranges.last();
        let m = merged_ranges(ranges, gap);
        assert(r == ranges[ranges.len() - 1]);
        assert(r.0 < r.1 <= loud.len());
        assert(loud[r.0 as int]);
        assert(loud[r.1 - 1]);
        if rest.len() > 0 {
            assert(rest.last() == ranges[ranges.len() - 2]);
            assert(ranges[ranges.len() - 2].1 + 0 < r.0);
        }
        let limit: int = if prev.len() > 0 {
            if prev.last().1 + gap > usize::MAX {
                usize::MAX as int
            } else {
                prev.last().1 + gap
            }
        } else {
            0
        };
        if prev.len() > 0 && r.0 <= limit {
            let n = prev.len() - 1;
            let last = prev.last();
            assert(last == prev[n]);
            assert(m == prev.update(n, (last.0, r.1)));
            assert forall|i: int| 0 <= i < m.len() implies (#[trigger] m[i]).0 < m[i].1
                <= loud.len() by {
                if i < n {
                    assert(m[i] == prev[i]);
                }
            }
            assert forall|i: int| 0 <= i < m.len() implies loud[(#[trigger] m[i]).0 as int]
                && loud[m[i].1 - 1] by {
                if i < n {
                    assert(m[i] == prev[i]);
                } else {
                    assert(m[i] == (prev[n].0, r.1));
                }
            }
            assert forall|i: int, j: int| 0 <= i < j < m.len() implies (#[trigger] m[i]).1
                + gap < (#[trigger] m[j]).0 by {
                assert(m[i] == prev[i]);
                if j < n {
                    assert(m[j] == prev[j]);
                } else {
                    assert(m[j].0 == prev[n].0);
                }
            }
            assert forall|k: int| covered(ranges, k) implies covered(m, k) by {
                let i = choose|i: int| 0 <= i < ranges.len() && (#[trigger] ranges[i]).0 <= k
                    < ranges[i].1;
                if i < rest.len() {
                    assert(rest[i] == ranges[i]);
                    assert(covered(rest, k));
                    let q = choose|q: int| 0 <= q < prev.len() && (#[trigger] prev[q]).0 <= k
                        < prev[q].1;
                    if q < n {
                        assert(m[q] == prev[q]);
                    } else {
                        assert(m[n].0 <= k < m[n].1);
                    }
                } else {
                    assert(m[n].0 <= k < m[n].1);
                }
            }
        } else {
            assert(m == prev.push(r));
            if prev.len() > 0 {
                assert(r.0 > prev.last().1 + gap);
                assert(prev.last() == prev[prev.len() - 1]);
            }
            assert forall|i: int| 0 <= i < m.len() implies (#[trigger] m[i]).0 < m[i].1
                <= loud.len() by {
                if i < prev.len() {
                    assert(m[i] == prev[i]);
                }
            }
            assert forall|i: int| 0 <= i < m.len() implies loud[(#[trigger] m[i]).0 as int]
                && loud[m[i].1 - 1] by {
                if i < prev.len() {
                    assert(m[i] == prev[i]);
                }
            }
            assert forall|i: int, j: int| 0 <= i < j < m.len() implies (#[trigger] m[i]).1
                + gap < (#[trigger] m[j]).0 by {
                assert(m[i] == prev[i]);
                if j < prev.len() {
                    assert(m[j] == prev[j]);
                } else {
                    let p = prev.len() - 1;
                    if i < p {
                        assert(prev[i].1 + gap < prev[p].0);
                    }
                }
            }
            assert forall|k: int| covered(ranges, k) implies covered(m, k) by {
                let i = choose|i: int| 0 <= i < ranges.len() && (#[trigger] ranges[i]).0 <= k
                    < ranges[i].1;
                if i < rest.len() {
                    assert(rest[i] == ranges[i]);
                    assert(covered(rest, k));
                    let q = choose|q: int| 0 <= q < prev.len() && (#[trigger] prev[q]).0 <= k
                        < prev[q].1;
                    assert(m[q] == prev[q]);
                } else {
                    assert(m[prev.len() as int] == r);
                }
            }
        }
    }
}

/// The active blocks of an audio hold every loud sample; each starts and
/// ends on a loud sample; and one block ends more than `gap` samples before
/// the next starts.
pub proof fn law_active_blocks_hold_every_loud_sample(loud: Seq<bool>, gap: usize)
    requires
        loud.len() <= usize::MAX,
    ensures
        blocks_apart(merged_ranges(loud_runs(loud), gap), loud, gap as int),
        forall|k: int|
            0 <= k < loud.len() && #[trigger] loud[k] ==> covered(
                merged_ranges(loud_runs(loud), gap),
                k,
            ),
{
    lemma_loud_runs(loud);
    lemma_merged_ranges(loud_runs(loud), loud, gap);
}

pub open spec fn saturating_sum(a: usize, b: nat) -> usize {
    if a + b > usize::MAX {
        usize::MAX
    } else {
        (a + b) as usize
    }
}

pub open spec fn at_most(a: usize, b: usize) -> usize {
    if a < b {
        a
    } else {
        b
    }
}

/// The stretches of the blocks, in order, that together give the first
/// `limit` samples of the blocks.
pub open spec fn block_slices(blocks: Seq<(usize, usize)>, limit: nat) -> Seq<(usize, usize)>
    decreases blocks.len(),
{
    if blocks.len() == 0 || limit == 0 {
        seq![]
    } else {
        let b = blocks[0];
        let end = at_most(saturating_sum(b.0, limit), b.1);
        seq![(b.0, end)] + block_slices(blocks.drop_first(), (limit - (end - b.0)) as nat)
    }
}

/// Samples the stretches hold.
pub open spec fn slices_total(slices: Seq<(usize, usize)>) -> int
    decreases slices.len(),
{
    if slices.len() == 0 {
        0
    } else {
        (slices[0].1 - slices[0].0) + slices_total(slices.drop_first())
    }
}

pub open spec fn well_formed_slices(slices: Seq<(usize, usize)>) -> bool {
    forall|i: int| 0 <= i < slices.len() ==> (#[trigger] slices[i]).0 <= slices[i].1
}

/// Which stretches of the blocks are copied, in order, when the blocks are
/// joined up to `limit` samples.
pub fn concatenated_block_slices(blocks: &Vec<(usize, usize)>, limit: usize) -> (r: Vec<
    (usize, usize),
>)
    requires
        well_formed_slices(blocks@),
    ensures
        r@ == block_slices(blocks@, limit as nat),
{
    let mut out: Vec<(usize, usize)> = Vec::new();
    let mut remaining: usize = limit;
    let mut i: usize = 0;
    assert(blocks@.skip(0) == blocks@);
    assert(out@ + block_slices(blocks@, limit as nat) == block_slices(blocks@, limit as nat));
    while i < blocks.len() && remaining > 0
        invariant
            i <= blocks.len(),
            remaining <= limit,
            well_formed_slices(blocks@),
            out@ + block_slices(blocks@.skip(i as int), remaining as nat) == block_slices(
                blocks@,
                limit as nat,
            ),
        decreases blocks.len() - i,
    {
        let (start, end_of_block) = blocks[i];
        assert(blocks@.skip(i as int)[0] == blocks@[i as int]);
        assert(blocks@.skip(i as int).drop_first() == blocks@.skip(i + 1));
        let reach = start.saturating_add(remaining);
        let end = if reach < end_of_block {
            reach
        } else {
            end_of_block
        };
        let ghost before = out@;
        out.push((start, end));
        assert(out@ + block_slices(blocks@.skip(i + 1), (remaining - (end - start)) as nat) =~= before
            + block_slices(blocks@.skip(i as int), remaining as nat));
        remaining = remaining - (end - start);
        i = i + 1;
    }
    if i < blocks.len() {
        assert(block_slices(blocks@.skip(i as int), 0) == Seq::<(usize, usize)>::empty());
    } else {
        assert(blocks@.skip(i as int).len() == 0);
    }
    assert(out@ + Seq::<(usize, usize)>::empty() == out@);
    out
}

/// The stretches cut so that together they hold at most `maximum` samples.
pub open spec fn truncated_slices(slices: Seq<(usize, usize)>, maximum: nat) -> Seq<(usize, usize)>
    decreases slices.len(),
{
    if slices.len() == 0 || maximum == 0 {
        seq![]
    } else {
        let s = slices[0];
        if s.1 - s.0 <= maximum {
            seq![s] + truncated_slices(slices.drop_first(), (maximum - (s.1 - s.0)) as nat)
        } else {
            seq![(s.0, (s.0 + maximum) as usize)]
        }
    }
}

/// Keeps the first `maximum` samples of the stretches.
pub fn truncate_slices(slices: &Vec<(usize, usize)>, maximum: usize) -> (r: Vec<(usize, usize)>)
    requires
        well_formed_slices(slices@),
    ensures
        r@ == truncated_slices(slices@, maximum as nat),
{
    let mut out: Vec<(usize, usize)> = Vec::new();
    let mut remaining: usize = maximum;
    let mut i: usize = 0;
    assert(slices@.skip(0) == slices@);
    assert(out@ + truncated_slices(slices@, maximum as nat) == truncated_slices(
        slices@,
        maximum as nat,
    ));
    while i < slices.len() && remaining > 0
        invariant
            i <= slices.len(),
            well_formed_slices(slices@),
            out@ + truncated_slices(slices@.skip(i as int), remaining as nat) == truncated_slices(
                slices@,
                maximum as nat,
            ),
        decreases slices.len() - i + (if remaining > 0 { 1int } else { 0int }),
    {
        let (start, end) = slices[i];
        assert(slices@.skip(i as int)[0] == slices@[i as int]);
        assert(slices@.skip(i as int).drop_first() == slices@.skip(i + 1));
        let ghost before = out@;
        if end - start <= remaining {
            out.push((start, end));
            assert(out@ + truncated_slices(slices@.skip(i + 1), (remaining - (end - start)) as nat)
                =~= before + truncated_slices(slices@.skip(i as int), remaining as nat));
            remaining = remaining - (end - start);
            i = i + 1;
        } else {
            out.push((start, start + remaining));
            assert(out@ =~= before + truncated_slices(slices@.skip(i as int), remaining as nat));
            assert(out@ + truncated_slices(slices@.skip(i as int), 0) =~= out@);
            remaining = 0;
        }
    }
    if i < slices.len() {
        assert(truncated_slices(slices@.skip(i as int), remaining as nat) == Seq::<
            (usize, usize),
        >::empty());
    } else {
        assert(slices@.skip(i as int).len() == 0);
    }
    assert(out@ + Seq::<(usize, usize)>::empty() == out@);
    out
}

pub proof fn lemma_block_slices_well_formed(blocks: Seq<(usize, usize)>, limit: nat)
    requires
        well_formed_slices(blocks),
    ensures
        well_formed_slices(block_slices(blocks, limit)),
    decreases blocks.len(),
{
    if blocks.len() > 0 && limit > 0 {
        let b = blocks[0];
        assert(b.0 <= b.1);
        let end = at_most(saturating_sum(b.0, limit), b.1);
        let rest = blocks.drop_first();
        assert(well_formed_slices(rest)) by {
            assert forall|i: int| 0 <= i < rest.len() implies (#[trigger] rest[i]).0 <= rest[i].1 by {
                assert(rest[i] == blocks[i + 1]);
            }
        }
        lemma_block_slices_well_formed(rest, (limit - (end - b.0)) as nat);
        let out = block_slices(blocks, limit);
        let tail = block_slices(rest, (limit - (end - b.0)) as nat);
        assert forall|i: int| 0 <= i < out.len() implies (#[trigger] out[i]).0 <= out[i].1 by {
            if i > 0 {
                assert(out[i] == tail[i - 1]);
            }
        }
    }
}

pub proof fn lemma_truncated_well_formed(slices: Seq<(usize, usize)>, maximum: nat)
    requires
        well_formed_slices(slices),
    ensures
        well_formed_slices(truncated_slices(slices, maximum)),
    decreases slices.len(),
{
    if slices.len() > 0 && maximum > 0 {
        let first = slices[0];
        assert(first.0 <= first.1);
        let rest = slices.drop_first();
        assert(well_formed_slices(rest)) by {
            assert forall|i: int| 0 <= i < rest.len() implies (#[trigger] rest[i]).0 <= rest[i].1 by {
                assert(rest[i] == slices[i + 1]);
            }
        }
        if first.1 - first.0 <= maximum {
            lemma_truncated_well_formed(rest, (maximum - (first.1 - first.0)) as nat);
            let out = truncated_slices(slices, maximum);
            let tail = truncated_slices(rest, (maximum - (first.1 - first.0)) as nat);
            assert forall|i: int| 0 <= i < out.len() implies (#[trigger] out[i]).0 <= out[i].1 by {
                if i > 0 {
                    assert(out[i] == tail[i - 1]);
                }
            }
        }
    }
}

/// Stretches that are not reversed hold no sample exactly when each of
/// them is empty.
pub proof fn lemma_total_zero(slices: Seq<(usize, usize)>)
    requires
        well_formed_slices(slices),
    ensures
        slices_total(slices) >= 0,
        slices_total(slices) == 0 <==> forall|i: int|
            0 <= i < slices.len() ==> (#[trigger] slices[i]).0 == slices[i].1,
    decreases slices.len(),
{
    if slices.len() > 0 {
        let rest = slices.drop_first();
        assert(well_formed_slices(rest)) by {
            assert forall|i: int| 0 <= i < rest.len() implies (#[trigger] rest[i]).0 <= rest[i].1 by {
                assert(rest[i] == slices[i + 1]);
            }
        }
        lemma_total_zero(rest);
        assert(slices[0].0 <= slices[0].1);
        if slices_total(slices) == 0 {
            assert forall|i: int| 0 <= i < slices.len() implies (#[trigger] slices[i]).0
                == slices[i].1 by {
                if i > 0 {
                    assert(slices[i] == rest[i - 1]);
                }
            }
        }
        if forall|i: int| 0 <= i < slices.len() ==> (#[trigger] slices[i]).0 == slices[i].1 {
            assert forall|i: int| 0 <= i < rest.len() implies (#[trigger] rest[i]).0 == rest[i].1 by {
                assert(rest[i] == slices[i + 1]);
            }
        }
    }
}

/// Whether the stretches hold no sample.
pub fn slices_are_empty(slices: &Vec<(usize, usize)>) -> (r: bool)
    requires
        well_formed_slices(slices@),
    ensures
        r == (slices_total(slices@) == 0),
{
    proof {
        lemma_total_zero(slices@);
    }
    let mut i: usize = 0;
    while i < slices.len()
        invariant
            i <= slices.len(),
            well_formed_slices(slices@),
            forall|k: int| 0 <= k < i ==> (#[trigger] slices@[k]).0 == slices@[k].1,
        decreases slices.len() - i,
    {
        if slices[i].0 != slices[i].1 {
            proof {
                lemma_total_zero(slices@);
                assert(slices@[i as int].0 != slices@[i as int].1);
                if slices_total(slices@) == 0 {
                    assert(slices@[i as int].0 == slices@[i as int].1);
                }
            }
            return false;
        }
        i = i + 1;
    }
    true
}

/// Where the clip starts: at the first active block, or at the beginning
/// when nothing is loud.
pub open spec fn reference_start(blocks: Seq<(usize, usize)>) -> usize {
    if blocks.len() > 0 {
        blocks[0].0
    } else {
        0
    }
}

/// The stretches of the audio that make the clip: `target` samples from
/// the first active block; the active blocks joined up to `target` samples
/// when that gives fewer than `minimum`; the first `target` samples when
/// nothing was taken; at most `maximum` samples in all.
pub open spec fn reference_slices(
    sample_count: usize,
    blocks: Seq<(usize, usize)>,
    target: usize,
    minimum: usize,
    maximum: usize,
) -> Seq<(usize, usize)> {
    let start = reference_start(blocks);
    let end = at_most(saturating_sum(start, target as nat), sample_count);
    let chosen = if end - start < minimum && blocks.len() > 0 {
        block_slices(blocks, target as nat)
    } else {
        seq![(start, end)]
    };
    let filled = if slices_total(chosen) == 0 {
        seq![(0usize, at_most(target, sample_count))]
    } else {
        chosen
    };
    truncated_slices(filled, maximum as nat)
}

pub open spec fn slices_within(slices: Seq<(usize, usize)>, sample_count: usize) -> bool {
    forall|i: int|
        0 <= i < slices.len() ==> (#[trigger] slices[i]).0 <= slices[i].1 <= sample_count
}

pub proof fn lemma_truncated_bounds(slices: Seq<(usize, usize)>, maximum: nat, sample_count: usize)
    requires
        slices_within(slices, sample_count),
    ensures
        slices_total(truncated_slices(slices, maximum)) <= maximum,
        slices_within(truncated_slices(slices, maximum), sample_count),
    decreases slices.len(),
{
    if slices.len() > 0 && maximum > 0 {
        let first = slices[0];
        let rest = slices.drop_first();
        assert(slices_within(rest, sample_count)) by {
            assert forall|i: int| 0 <= i < rest.len() implies (#[trigger] rest[i]).0 <= rest[i].1
                <= sample_count by {
                assert(rest[i] == slices[i + 1]);
            }
        }
        let out = truncated_slices(slices, maximum);
        if first.1 - first.0 <= maximum {
            let m = (maximum - (first.1 - first.0)) as nat;
            lemma_truncated_bounds(rest, m, sample_count);
            let tail = truncated_slices(rest, m);
            assert(out.drop_first() == tail);
            assert(out[0] == first);
            assert(slices_total(out) == (first.1 - first.0) + slices_total(tail));
            assert forall|i: int| 0 <= i < out.len() implies (#[trigger] out[i]).0 <= out[i].1
                <= sample_count by {
                if i > 0 {
                    assert(out[i] == tail[i - 1]);
                }
            }
        } else {
            assert(out.drop_first() == Seq::<(usize, usize)>::empty());
            assert(first.0 + maximum < first.1);
            assert(out[0] == (first.0, (first.0 + maximum) as usize));
            assert(slices_total(Seq::<(usize, usize)>::empty()) == 0);
            assert(slices_total(out) == out[0].1 - out[0].0 + slices_total(out.drop_first()));
        }
    }
}

pub proof fn lemma_block_slices_within(blocks: Seq<(usize, usize)>, limit: nat, sample_count: usize)
    requires
        slices_within(blocks, sample_count),
    ensures
        slices_within(block_slices(blocks, limit), sample_count),
    decreases blocks.len(),
{
    if blocks.len() > 0 && limit > 0 {
        let b = blocks[0];
        assert(b.0 <= b.1 <= sample_count);
        let end = at_most(saturating_sum(b.0, limit), b.1);
        let rest = blocks.drop_first();
        assert(slices_within(rest, sample_count)) by {
            assert forall|i: int| 0 <= i < rest.len() implies (#[trigger] rest[i]).0 <= rest[i].1
                <= sample_count by {
                assert(rest[i] == blocks[i + 1]);
            }
        }
        let m = (limit - (end - b.0)) as nat;
        lemma_block_slices_within(rest, m, sample_count);
        let out = block_slices(blocks, limit);
        let tail = block_slices(rest, m);
        assert forall|i: int| 0 <= i < out.len() implies (#[trigger] out[i]).0 <= out[i].1
            <= sample_count by {
            if i > 0 {
                assert(out[i] == tail[i - 1]);
            }
        }
    }
}

/// The short reference clip lies inside the audio and never holds more
/// than `maximum` samples.
pub proof fn law_short_reference_fits(
    sample_count: usize,
    blocks: Seq<(usize, usize)>,
    target: usize,
    minimum: usize,
    maximum: usize,
)
    requires
        slices_within(blocks, sample_count),
    ensures
        slices_within(reference_slices(sample_count, blocks, target, minimum, maximum), sample_count),
        slices_total(reference_slices(sample_count, blocks, target, minimum, maximum)) <= maximum,
{
    let start = reference_start(blocks);
    if blocks.len() > 0 {
        assert(blocks[0].0 <= blocks[0].1 <= sample_count);
    }
    let end = at_most(saturating_sum(start, target as nat), sample_count);
    let chosen = if end - start < minimum && blocks.len() > 0 {
        block_slices(blocks, target as nat)
    } else {
        seq![(start, end)]
    };
    if end - start < minimum && blocks.len() > 0 {
        lemma_block_slices_within(blocks, target as nat, sample_count);
    }
    assert(slices_within(chosen, sample_count));
    let filled = if slices_total(chosen) == 0 {
        seq![(0usize, at_most(target, sample_count))]
    } else {
        chosen
    };
    assert(slices_within(filled, sample_count));
    lemma_truncated_bounds(filled, maximum as nat, sample_count);
}

pub open spec fn empty_reference_message() -> Seq<char> {
    "áudio de referência vazio"@
}

pub open spec fn no_reference_message() -> Seq<char> {
    "não foi possível extrair referência curta válida"@
}

/// Where the short reference clip of an audio starts, and the stretches of
/// the audio it is made of.
pub struct ShortReferenceSelection {
    pub start: usize,
    pub slices: Vec<(usize, usize)>,
}

/// Chooses the short reference clip of an audio of `sample_count` samples
/// whose active blocks are `blocks`.
pub fn short_reference_selection(
    sample_count: usize,
    blocks: &Vec<(usize, usize)>,
    target: usize,
    minimum: usize,
    maximum: usize,
) -> (r: Result<ShortReferenceSelection, AppError>)
    requires
        forall|i: int|
            0 <= i < blocks.len() ==> (#[trigger] blocks@[i]).0 <= blocks@[i].1 <= sample_count,
    ensures
        sample_count == 0 ==> (r matches Err(AppError::UnsupportedCodec(m)) && m@
            == empty_reference_message()),
        sample_count > 0 && slices_total(
            reference_slices(sample_count, blocks@, target, minimum, maximum),
        ) == 0 ==> (r matches Err(AppError::UnsupportedCodec(m)) && m@ == no_reference_message()),
        sample_count > 0 && slices_total(
            reference_slices(sample_count, blocks@, target, minimum, maximum),
        ) != 0 ==> (r matches Ok(sel) && sel.start == reference_start(blocks@) && sel.slices@
            == reference_slices(sample_count, blocks@, target, minimum, maximum)),
{
    if sample_count == 0 {
        proof {
            reveal_strlit("áudio de referência vazio");
        }
        return Err(AppError::UnsupportedCodec(String::from_str("áudio de referência vazio")));
    }
    let start = if blocks.len() > 0 {
        blocks[0].0
    } else {
        0
    };
    let reach = start.saturating_add(target);
    let end = if reach < sample_count {
        reach
    } else {
        sample_count
    };
    let ghost spec_start = reference_start(blocks@);
    let ghost spec_end = at_most(saturating_sum(spec_start, target as nat), sample_count);
    assert(start == spec_start);
    assert(end == spec_end);
    let chosen = if end - start < minimum && blocks.len() > 0 {
        concatenated_block_slices(blocks, target)
    } else {
        let v = vec![(start, end)];
        assert(v@ == seq![(start, end)]);
        v
    };
    proof {
        if end - start < minimum && blocks.len() > 0 {
            lemma_block_slices_well_formed(blocks@, target as nat);
        }
    }
    let filled = if slices_are_empty(&chosen) {
        let limit = if target < sample_count {
            target
        } else {
            sample_count
        };
        let v = vec![(0usize, limit)];
        assert(v@ == seq![(0usize, at_most(target, sample_count))]);
        v
    } else {
        chosen
    };
    assert(truncated_slices(filled@, maximum as nat) == reference_slices(
        sample_count,
        blocks@,
        target,
        minimum,
        maximum,
    ));
    let slices = truncate_slices(&filled, maximum);
    proof {
        lemma_truncated_well_formed(filled@, maximum as nat);
    }
    if slices_are_empty(&slices) {
        proof {
            reveal_strlit("não foi possível extrair referência curta válida");
        }
        return Err(
            AppError::UnsupportedCodec(
                String::from_str("não foi possível extrair referência curta válida"),
            ),
        );
    }
    Ok(ShortReferenceSelection { start, slices })
}

} // verus!
