//! Which videos to write when saving a batch: a video is written unless its
//! target file is already on disk or an earlier video of the batch goes to
//! the same file (identical contents give identical names).

use vstd::prelude::*;

use crate::path::paths;

verus! {

/// Target `i` is written: its file is not on disk and no earlier target
/// names the same file.
pub open spec fn first_missing(targets: Seq<Seq<char>>, on_disk: Seq<bool>, i: int) -> bool {
    &&& !on_disk[i]
    &&& forall|j: int| 0 <= j < i ==> targets[j] != targets[i]
}

/// The disk answers are consistent: the same file is either on disk for
/// every target naming it or for none.
pub open spec fn consistent(targets: Seq<Seq<char>>, on_disk: Seq<bool>) -> bool {
    forall|i: int, j: int|
        0 <= i < targets.len() && 0 <= j < targets.len() && targets[i] == targets[j]
            ==> on_disk[i] == on_disk[j]
}

/// The positions of the targets to write, in increasing order: those whose
/// file is not on disk and not named by an earlier target.
pub fn select_writes(targets: &Vec<String>, on_disk: &Vec<bool>) -> (picks: Vec<usize>)
    requires
        targets@.len() == on_disk@.len(),
    ensures
        forall|k: int| 0 <= k < picks@.len() ==> #[trigger] picks@[k] < targets@.len(),
        forall|k1: int, k2: int| 0 <= k1 < k2 < picks@.len() ==> #[trigger] picks@[k1] < #[trigger] picks@[k2],
        forall|i: int| 0 <= i < targets@.len() ==>
            (first_missing(paths(targets@), on_disk@, i) <==> picks@.contains(i as usize)),
{
    let ghost ts = paths(targets@);
    let mut picks: Vec<usize> = Vec::new();
    let mut i: usize = 0;
    while i < targets.len()
        invariant
            targets@.len() == on_disk@.len(),
            ts == paths(targets@),
            i <= targets@.len(),
            forall|k: int| 0 <= k < picks@.len() ==> #[trigger] picks@[k] < i,
            forall|k1: int, k2: int| 0 <= k1 < k2 < picks@.len() ==> #[trigger] picks@[k1] < #[trigger] picks@[k2],
            forall|m: int| 0 <= m < i ==> (first_missing(ts, on_disk@, m) <==> picks@.contains(m as usize)),
        decreases targets@.len() - i,
    {
        let mut fresh = !on_disk[i];
        if fresh {
            let mut j: usize = 0;
            while j < i
                invariant
                    targets@.len() == on_disk@.len(),
                    ts == paths(targets@),
                    i < targets@.len(),
                    j <= i,
                    fresh == forall|m: int| 0 <= m < j ==> ts[m] != ts[i as int],
                decreases i - j,
            {
                assert(ts[j as int] == targets@[j as int]@);
                assert(ts[i as int] == targets@[i as int]@);
                if targets[j] == targets[i] {
                    fresh = false;
                }
                j = j + 1;
            }
        }
        assert(fresh == first_missing(ts, on_disk@, i as int));
        let ghost old_picks = picks@;
        if fresh {
            picks.push(i);
        }
        assert forall|m: int| 0 <= m < i + 1 implies (first_missing(ts, on_disk@, m) <==> picks@.contains(m as usize)) by {
            if m < i {
                if old_picks.contains(m as usize) {
                    let k = choose|k: int| 0 <= k < old_picks.len() && old_picks[k] == m as usize;
                    assert(picks@[k] == m as usize);
                }
                if picks@.contains(m as usize) {
                    let k = choose|k: int| 0 <= k < picks@.len() && picks@[k] == m as usize;
                    if k < old_picks.len() {
                        assert(old_picks[k] == m as usize);
                    }
                }
            } else {
                if picks@.contains(m as usize) && !fresh {
                    let k = choose|k: int| 0 <= k < picks@.len() && picks@[k] == m as usize;
                    assert(picks@[k] < i);
                }
                if fresh {
                    assert(picks@[picks@.len() - 1] == i);
                }
            }
        }
        i = i + 1;
    }
    picks
}

/// The first target naming the same file as target `i`.
pub proof fn first_occurrence(ts: Seq<Seq<char>>, i: int) -> (j: int)
    requires
        0 <= i < ts.len(),
    ensures
        0 <= j <= i,
        ts[j] == ts[i],
        forall|m: int| 0 <= m < j ==> ts[m] != ts[i],
    decreases i,
{
    if exists|m: int| 0 <= m < i && ts[m] == ts[i] {
        let m = choose|m: int| 0 <= m < i && ts[m] == ts[i];
        let j = first_occurrence(ts, m);
        j
    } else {
        i
    }
}

/// After the selected writes, every target file exists: each target not on
/// disk shares its file with a selected target. No two selected targets
/// name the same file, and no selected target is on disk.
pub proof fn lemma_writes_cover_targets(targets: Seq<Seq<char>>, on_disk: Seq<bool>, picks: Seq<usize>)
    requires
        targets.len() == on_disk.len(),
        targets.len() <= usize::MAX,
        consistent(targets, on_disk),
        forall|k: int| 0 <= k < picks.len() ==> #[trigger] picks[k] < targets.len(),
        forall|i: int| 0 <= i < targets.len() ==>
            (first_missing(targets, on_disk, i) <==> picks.contains(i as usize)),
    ensures
        forall|i: int| 0 <= i < targets.len() && !on_disk[i] ==>
            exists|k: int| 0 <= k < picks.len() && targets[#[trigger] picks[k] as int] == targets[i],
        forall|k1: int, k2: int| 0 <= k1 < picks.len() && 0 <= k2 < picks.len() && picks[k1] != picks[k2]
            ==> targets[picks[k1] as int] != targets[picks[k2] as int],
        forall|k: int| 0 <= k < picks.len() ==> !on_disk[#[trigger] picks[k] as int],
{
    assert forall|i: int| 0 <= i < targets.len() && !on_disk[i] implies
        exists|k: int| 0 <= k < picks.len() && targets[#[trigger] picks[k] as int] == targets[i] by {
        let j = first_occurrence(targets, i);
        assert(!on_disk[j]);
        assert(first_missing(targets, on_disk, j));
        assert(picks.contains(j as usize));
        let k = choose|k: int| 0 <= k < picks.len() && picks[k] == j as usize;
        assert(targets[picks[k] as int] == targets[i]);
    }
    assert forall|k1: int, k2: int| 0 <= k1 < picks.len() && 0 <= k2 < picks.len() && picks[k1] != picks[k2]
        implies targets[picks[k1] as int] != targets[picks[k2] as int] by {
        let a = picks[k1] as int;
        let b = picks[k2] as int;
        assert(picks.contains(picks[k1]));
        assert(picks.contains(picks[k2]));
        assert(first_missing(targets, on_disk, a));
        assert(first_missing(targets, on_disk, b));
    }
    assert forall|k: int| 0 <= k < picks.len() implies !on_disk[#[trigger] picks[k] as int] by {
        assert(picks.contains(picks[k]));
        assert(first_missing(targets, on_disk, picks[k] as int));
    }
}

/// The files a plan writes.
pub open spec fn written(targets: Seq<Seq<char>>, picks: Seq<usize>) -> Set<Seq<char>> {
    Set::new(|t: Seq<char>| exists|k: int| 0 <= k < picks.len() && targets[#[trigger] picks[k] as int] == t)
}

/// The target files not on disk.
pub open spec fn missing(targets: Seq<Seq<char>>, on_disk: Seq<bool>) -> Set<Seq<char>> {
    Set::new(|t: Seq<char>| exists|i: int| 0 <= i < targets.len() && !on_disk[i] && #[trigger] targets[i] == t)
}

/// `picks` is what `select_writes` returns for these targets and disk
/// answers.
pub open spec fn is_plan(targets: Seq<Seq<char>>, on_disk: Seq<bool>, picks: Seq<usize>) -> bool {
    &&& targets.len() == on_disk.len()
    &&& targets.len() <= usize::MAX
    &&& forall|k: int| 0 <= k < picks.len() ==> #[trigger] picks[k] < targets.len()
    &&& forall|i: int| 0 <= i < targets.len() ==>
        (first_missing(targets, on_disk, i) <==> picks.contains(i as usize))
}

/// A save writes exactly the target files that are not on disk yet.
pub proof fn lemma_written_are_missing(targets: Seq<Seq<char>>, on_disk: Seq<bool>, picks: Seq<usize>)
    requires
        consistent(targets, on_disk),
        is_plan(targets, on_disk, picks),
    ensures
        written(targets, picks) == missing(targets, on_disk),
{
    lemma_writes_cover_targets(targets, on_disk, picks);
    assert forall|t: Seq<char>| written(targets, picks).contains(t) implies missing(targets, on_disk).contains(t) by {
        let k = choose|k: int| 0 <= k < picks.len() && targets[#[trigger] picks[k] as int] == t;
        assert(!on_disk[picks[k] as int]);
    }
    assert forall|t: Seq<char>| missing(targets, on_disk).contains(t) implies written(targets, picks).contains(t) by {
        let i = choose|i: int| 0 <= i < targets.len() && !on_disk[i] && #[trigger] targets[i] == t;
        let k = choose|k: int| 0 <= k < picks.len() && targets[#[trigger] picks[k] as int] == targets[i];
    }
    assert(written(targets, picks) =~= missing(targets, on_disk));
}

/// Saving again writes nothing: once the files of a first save exist
/// (`on_disk2` is the disk after it), the plan for the same targets is
/// empty.
pub proof fn lemma_second_save_writes_nothing(
    targets: Seq<Seq<char>>,
    on_disk: Seq<bool>,
    picks: Seq<usize>,
    on_disk2: Seq<bool>,
    picks2: Seq<usize>,
)
    requires
        consistent(targets, on_disk),
        is_plan(targets, on_disk, picks),
        on_disk2.len() == targets.len(),
        forall|i: int| 0 <= i < targets.len() ==>
            #[trigger] on_disk2[i] == (on_disk[i] || written(targets, picks).contains(targets[i])),
        is_plan(targets, on_disk2, picks2),
    ensures
        picks2.len() == 0,
{
    lemma_writes_cover_targets(targets, on_disk, picks);
    assert forall|i: int| 0 <= i < targets.len() implies #[trigger] on_disk2[i] by {
        if !on_disk[i] {
            let k = choose|k: int| 0 <= k < picks.len() && targets[#[trigger] picks[k] as int] == targets[i];
            assert(written(targets, picks).contains(targets[i]));
        }
    }
    if picks2.len() > 0 {
        let p = picks2[0];
        assert(picks2.contains(p));
        assert(first_missing(targets, on_disk2, p as int));
    }
}

} // verus!
