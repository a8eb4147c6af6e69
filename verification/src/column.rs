//! The `video` column of a parquet file, read as optional byte strings.

use vstd::prelude::*;

use crate::naming::{lemma_numbered_name_injective, mp4, numbered_file_name, numbered_name};

verus! {

/// The videos present in a column, in order (missing entries skipped).
pub open spec fn present(col: Seq<Option<Vec<u8>>>) -> Seq<Seq<u8>>
    decreases col.len(),
{
    if col.len() == 0 {
        seq![]
    } else {
        let rest = present(col.drop_last());
        match col.last() {
            Some(v) => rest.push(v@),
            None => rest,
        }
    }
}

/// The present videos paired with the file name `{i:04}.mp4`, where `i` is
/// their position in the column (missing entries count).
pub open spec fn numbered(col: Seq<Option<Vec<u8>>>) -> Seq<(Seq<char>, Seq<u8>)>
    decreases col.len(),
{
    if col.len() == 0 {
        seq![]
    } else {
        let rest = numbered(col.drop_last());
        match col.last() {
            Some(v) => rest.push((numbered_name((col.len() - 1) as nat, mp4()), v@)),
            None => rest,
        }
    }
}

pub open spec fn views(vs: Seq<Vec<u8>>) -> Seq<Seq<u8>> {
    vs.map_values(|v: Vec<u8>| v@)
}

pub open spec fn entry_views(es: Seq<(String, Vec<u8>)>) -> Seq<(Seq<char>, Seq<u8>)> {
    es.map_values(|e: (String, Vec<u8>)| (e.0@, e.1@))
}

/// The videos present in the column, in order.
pub fn present_videos(column: &Vec<Option<Vec<u8>>>) -> (videos: Vec<Vec<u8>>)
    ensures
        views(videos@) == present(column@),
{
    let mut videos: Vec<Vec<u8>> = Vec::new();
    let mut i: usize = 0;
    while i < column.len()
        invariant
            i <= column@.len(),
            views(videos@) == present(column@.subrange(0, i as int)),
        decreases column@.len() - i,
    {
        let ghost pre = column@.subrange(0, i as int + 1);
        assert(pre.drop_last() =~= column@.subrange(0, i as int));
        match &column[i] {
            Some(v) => {
                let c = v.clone();
                assert(c@ =~= v@);
                videos.push(c);
                assert(views(videos@) =~= present(pre));
            },
            None => {},
        }
        i = i + 1;
    }
    assert(column@.subrange(0, column@.len() as int) =~= column@);
    videos
}

/// The present videos with their file names `{i:04}.mp4`.
pub fn numbered_videos(column: &Vec<Option<Vec<u8>>>) -> (out: Vec<(String, Vec<u8>)>)
    ensures
        entry_views(out@) == numbered(column@),
{
    let mut out: Vec<(String, Vec<u8>)> = Vec::new();
    let mut i: usize = 0;
    while i < column.len()
        invariant
            i <= column@.len(),
            entry_views(out@) == numbered(column@.subrange(0, i as int)),
        decreases column@.len() - i,
    {
        let ghost pre = column@.subrange(0, i as int + 1);
        assert(pre.drop_last() =~= column@.subrange(0, i as int));
        match &column[i] {
            Some(v) => {
                let c = v.clone();
                assert(c@ =~= v@);
                proof {
                    reveal_strlit("mp4");
                }
                let name = numbered_file_name(i as u64, "mp4");
                assert("mp4"@ =~= mp4());
                assert(pre.len() - 1 == i);
                assert(pre.last() == column@[i as int]);
                out.push((name, c));
                assert(entry_views(out@) =~= numbered(pre));
            },
            None => {},
        }
        i = i + 1;
    }
    assert(column@.subrange(0, column@.len() as int) =~= column@);
    out
}

/// The numbered videos are exactly the present ones, in the same order.
pub proof fn lemma_numbered_are_present(col: Seq<Option<Vec<u8>>>)
    ensures
        numbered(col).len() == present(col).len(),
        forall|k: int| 0 <= k < present(col).len() ==> #[trigger] numbered(col)[k].1 == present(col)[k],
    decreases col.len(),
{
    if col.len() > 0 {
        lemma_numbered_are_present(col.drop_last());
    }
}

/// Each numbered entry is named after a position of the column.
proof fn lemma_numbered_position(col: Seq<Option<Vec<u8>>>, k: int)
    requires
        0 <= k < numbered(col).len(),
    ensures
        exists|j: int| 0 <= j < col.len() && numbered(col)[k].0 == #[trigger] numbered_name(j as nat, mp4()),
    decreases col.len(),
{
    let rest = numbered(col.drop_last());
    if k < rest.len() {
        lemma_numbered_position(col.drop_last(), k);
        let j = choose|j: int| 0 <= j < col.len() - 1 && rest[k].0 == #[trigger] numbered_name(j as nat, mp4());
        assert(numbered(col)[k].0 == numbered_name(j as nat, mp4()));
    } else {
        let j = col.len() - 1;
        assert(numbered(col)[k].0 == numbered_name(j as nat, mp4()));
    }
}

/// No two split videos get the same file name: the names `{i:04}.mp4` of
/// the numbered entries are pairwise distinct.
pub proof fn lemma_numbered_names_distinct(col: Seq<Option<Vec<u8>>>)
    ensures
        forall|k1: int, k2: int| 0 <= k1 < k2 < numbered(col).len() ==>
            #[trigger] numbered(col)[k1].0 != #[trigger] numbered(col)[k2].0,
    decreases col.len(),
{
    if col.len() > 0 {
        let rest = numbered(col.drop_last());
        lemma_numbered_names_distinct(col.drop_last());
        assert forall|k1: int, k2: int| 0 <= k1 < k2 < numbered(col).len() implies
            #[trigger] numbered(col)[k1].0 != #[trigger] numbered(col)[k2].0 by {
            if k2 >= rest.len() {
                let last = (col.len() - 1) as nat;
                assert(numbered(col)[k2].0 == numbered_name(last, mp4()));
                lemma_numbered_position(col.drop_last(), k1);
                let j = choose|j: int| 0 <= j < col.len() - 1 && rest[k1].0 == #[trigger] numbered_name(j as nat, mp4());
                if numbered(col)[k1].0 == numbered(col)[k2].0 {
                    lemma_numbered_name_injective(j as nat, last, mp4());
                }
            } else {
                assert(numbered(col)[k1].0 == rest[k1].0);
                assert(numbered(col)[k2].0 == rest[k2].0);
            }
        }
    }
}

/// Every video present in the column is split, under the name of its own
/// position `{i:04}.mp4`, and nothing else is: each numbered entry is the
/// video at some position `i` of the column, named after `i`.
pub proof fn lemma_numbered_entries_are_positions(col: Seq<Option<Vec<u8>>>)
    ensures
        forall|i: int| 0 <= i < col.len() && (#[trigger] col[i]) is Some ==>
            numbered(col).contains((numbered_name(i as nat, mp4()), col[i]->0@)),
        forall|k: int| #![trigger numbered(col)[k]] 0 <= k < numbered(col).len() ==> exists|i: int|
            0 <= i < col.len() && (#[trigger] col[i]) is Some
                && numbered(col)[k] == (numbered_name(i as nat, mp4()), col[i]->0@),
    decreases col.len(),
{
    if col.len() > 0 {
        let init = col.drop_last();
        lemma_numbered_entries_are_positions(init);
        let w = numbered(col);
        let wi = numbered(init);
        let last = col.len() - 1;
        assert forall|i: int| 0 <= i < col.len() && (#[trigger] col[i]) is Some implies
            w.contains((numbered_name(i as nat, mp4()), col[i]->0@)) by {
            if i < last {
                assert(init[i] == col[i]);
                let e = (numbered_name(i as nat, mp4()), col[i]->0@);
                assert(wi.contains(e));
                let k = choose|k: int| 0 <= k < wi.len() && wi[k] == e;
                assert(w[k] == e);
            } else {
                assert(w[w.len() - 1] == (numbered_name(i as nat, mp4()), col[i]->0@));
            }
        }
        assert forall|k: int| #![trigger w[k]] 0 <= k < w.len() implies exists|i: int|
            0 <= i < col.len() && (#[trigger] col[i]) is Some
                && w[k] == (numbered_name(i as nat, mp4()), col[i]->0@) by {
            if k < wi.len() {
                let i = choose|i: int| 0 <= i < init.len() && (#[trigger] init[i]) is Some
                    && wi[k] == (numbered_name(i as nat, mp4()), init[i]->0@);
                assert(col[i] == init[i]);
                assert(w[k] == wi[k]);
            } else {
                assert(col[last] is Some);
                assert(w[k] == (numbered_name(last as nat, mp4()), col[last]->0@));
            }
        }
    }
}

} // verus!
