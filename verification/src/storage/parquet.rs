//! A parquet file of videos, saved as `<hex digest>.mp4` files in a
//! directory named like the file without its extension.

use vstd::prelude::*;

use crate::digest::{content_name, md5_hex};
use crate::naming::mp4;
use crate::path::{join, join_path, without_extension, without_extension_of};
use crate::plan::{first_missing, is_plan};

verus! {

/// A parquet file.
pub struct Parquet {
    path: String,
}

impl View for Parquet {
    type V = Seq<char>;

    closed spec fn view(&self) -> Seq<char> {
        self.path@
    }
}

/// The file a video is saved to under `root`: `root/<hex digest>.mp4`.
pub open spec fn video_target(root: Seq<char>, video: Seq<u8>) -> Seq<char> {
    join(root, content_name(video) + seq!['.'] + mp4())
}

impl Parquet {
    pub fn new(path: String) -> (p: Parquet)
        ensures
            p@ == path@,
    {
        Parquet { path }
    }

    /// The path of the parquet file.
    pub fn path(&self) -> (p: &String)
        ensures
            p@ == self@,
    {
        &self.path
    }

    /// The directory the videos are saved to: the path without extension.
    pub fn save_path(&self) -> (p: String)
        ensures
            p@ == without_extension(self@),
    {
        without_extension_of(self.path.as_str())
    }

    /// The files the videos are saved to, in order:
    /// `<save_path>/<hex digest>.mp4`.
    pub fn video_targets(&self, buffer: &Vec<Vec<u8>>) -> (targets: Vec<String>)
        ensures
            targets@.len() == buffer@.len(),
            forall|i: int| 0 <= i < buffer@.len() ==>
                #[trigger] targets@[i]@ == video_target(without_extension(self@), buffer@[i]@),
    {
        let root = self.save_path();
        let mut targets: Vec<String> = Vec::new();
        let mut i: usize = 0;
        while i < buffer.len()
            invariant
                i <= buffer@.len(),
                root@ == without_extension(self@),
                targets@.len() == i,
                forall|k: int| 0 <= k < i ==>
                    #[trigger] targets@[k]@ == video_target(without_extension(self@), buffer@[k]@),
            decreases buffer@.len() - i,
        {
            let mut name = md5_hex(buffer[i].as_slice());
            name.append(".mp4");
            proof {
                reveal_strlit(".mp4");
                assert(name@ =~= content_name(buffer@[i as int]@) + seq!['.'] + mp4());
            }
            targets.push(join_path(root.as_str(), name.as_str()));
            i = i + 1;
        }
        targets
    }
}

/// How many files one run samples: the `--limit` given, or 5.
pub open spec fn file_limit(limit: Option<usize>) -> nat {
    match limit {
        Some(n) => n as nat,
        None => 5,
    }
}

/// The limit given on the command line is used as it is, whatever its size;
/// 5 stands only for a missing one.
pub proof fn lemma_limit_is_used(n: usize)
    ensures
        file_limit(Some(n)) == n,
        file_limit(None) == 5,
{
}

/// The first `limit` files (5 when no limit is given), in order; all of
/// them when there are fewer.
pub fn limit_files(files: Vec<Parquet>, limit: Option<usize>) -> (out: Vec<Parquet>)
    ensures
        out@.len() == if files@.len() <= file_limit(limit) { files@.len() } else { file_limit(limit) },
        limit matches Some(n) ==> out@.len() == if files@.len() <= n { files@.len() } else { n as nat },
        limit is None ==> out@.len() == if files@.len() <= 5 { files@.len() } else { 5 },
        forall|i: int| 0 <= i < out@.len() ==> #[trigger] out@[i]@ == files@[i]@,
{
    let n: usize = match limit {
        Some(n) => n,
        None => 5,
    };
    let mut out = files;
    out.truncate(n);
    out
}

/// The (file, contents) pairs a plan saves for the videos `videos`.
pub open spec fn saved(root: Seq<char>, videos: Seq<Seq<u8>>, picks: Seq<usize>) -> Set<(Seq<char>, Seq<u8>)> {
    Set::new(|pr: (Seq<char>, Seq<u8>)|
        exists|k: int| 0 <= k < picks.len() && #[trigger] videos[picks[k] as int] == pr.1
            && pr.0 == video_target(root, pr.1))
}

/// What a save of `videos` under `root` should write when the files in
/// `disk` exist: each video among them whose target is not on disk, at its
/// target.
pub open spec fn to_save(root: Seq<char>, videos: Seq<Seq<u8>>, disk: Set<Seq<char>>) -> Set<(Seq<char>, Seq<u8>)> {
    Set::new(|pr: (Seq<char>, Seq<u8>)|
        videos.contains(pr.1) && pr.0 == video_target(root, pr.1) && !disk.contains(pr.0))
}

/// A save writes each video whose target file does not exist yet, at its
/// target, and nothing else; this depends only on which videos occur, not
/// on their order or repetitions. Stated for videos whose MD5 digests do
/// not collide (different contents, different targets).
pub proof fn lemma_save_writes_missing_videos(
    root: Seq<char>,
    videos: Seq<Seq<u8>>,
    disk: Set<Seq<char>>,
    targets: Seq<Seq<char>>,
    on_disk: Seq<bool>,
    picks: Seq<usize>,
)
    requires
        targets.len() == videos.len(),
        forall|i: int| 0 <= i < videos.len() ==> #[trigger] targets[i] == video_target(root, videos[i]),
        on_disk.len() == videos.len(),
        forall|i: int| 0 <= i < videos.len() ==> #[trigger] on_disk[i] == disk.contains(targets[i]),
        is_plan(targets, on_disk, picks),
        forall|i: int, j: int| 0 <= i < videos.len() && 0 <= j < videos.len()
            && video_target(root, #[trigger] videos[i]) == video_target(root, #[trigger] videos[j])
            ==> videos[i] == videos[j],
    ensures
        saved(root, videos, picks) == to_save(root, videos, disk),
{
    assert(crate::plan::consistent(targets, on_disk));
    crate::plan::lemma_writes_cover_targets(targets, on_disk, picks);
    assert forall|pr: (Seq<char>, Seq<u8>)| saved(root, videos, picks).contains(pr)
        implies to_save(root, videos, disk).contains(pr) by {
        let k = choose|k: int| 0 <= k < picks.len() && #[trigger] videos[picks[k] as int] == pr.1
            && pr.0 == video_target(root, pr.1);
        let p = picks[k] as int;
        assert(picks.contains(picks[k]));
        assert(first_missing(targets, on_disk, p));
        assert(!on_disk[p]);
        assert(targets[p] == pr.0);
        assert(videos.contains(pr.1));
    }
    assert forall|pr: (Seq<char>, Seq<u8>)| to_save(root, videos, disk).contains(pr)
        implies saved(root, videos, picks).contains(pr) by {
        let i = choose|i: int| 0 <= i < videos.len() && videos[i] == pr.1;
        assert(targets[i] == pr.0);
        assert(!on_disk[i]);
        let k = choose|k: int| 0 <= k < picks.len() && targets[#[trigger] picks[k] as int] == targets[i];
        let p = picks[k] as int;
        assert(targets[p] == video_target(root, videos[p]));
        assert(videos[p] == videos[i]);
    }
    assert(saved(root, videos, picks) =~= to_save(root, videos, disk));
}

/// Two batches holding the same videos, in any order and with any
/// repetitions, save the same files with the same contents.
pub proof fn lemma_save_ignores_order_and_repeats(
    root: Seq<char>,
    disk: Set<Seq<char>>,
    videos1: Seq<Seq<u8>>,
    targets1: Seq<Seq<char>>,
    on_disk1: Seq<bool>,
    picks1: Seq<usize>,
    videos2: Seq<Seq<u8>>,
    targets2: Seq<Seq<char>>,
    on_disk2: Seq<bool>,
    picks2: Seq<usize>,
)
    requires
        forall|v: Seq<u8>| videos1.contains(v) <==> videos2.contains(v),
        targets1.len() == videos1.len(),
        forall|i: int| 0 <= i < videos1.len() ==> #[trigger] targets1[i] == video_target(root, videos1[i]),
        on_disk1.len() == videos1.len(),
        forall|i: int| 0 <= i < videos1.len() ==> #[trigger] on_disk1[i] == disk.contains(targets1[i]),
        is_plan(targets1, on_disk1, picks1),
        targets2.len() == videos2.len(),
        forall|i: int| 0 <= i < videos2.len() ==> #[trigger] targets2[i] == video_target(root, videos2[i]),
        on_disk2.len() == videos2.len(),
        forall|i: int| 0 <= i < videos2.len() ==> #[trigger] on_disk2[i] == disk.contains(targets2[i]),
        is_plan(targets2, on_disk2, picks2),
        forall|a: Seq<u8>, b: Seq<u8>| videos1.contains(a) && videos1.contains(b)
            && #[trigger] video_target(root, a) == #[trigger] video_target(root, b) ==> a == b,
    ensures
        saved(root, videos1, picks1) == saved(root, videos2, picks2),
{
    assert forall|i: int, j: int| 0 <= i < videos1.len() && 0 <= j < videos1.len()
        && video_target(root, #[trigger] videos1[i]) == video_target(root, #[trigger] videos1[j])
        implies videos1[i] == videos1[j] by {
        assert(videos1.contains(videos1[i]));
        assert(videos1.contains(videos1[j]));
    }
    assert forall|i: int, j: int| 0 <= i < videos2.len() && 0 <= j < videos2.len()
        && video_target(root, #[trigger] videos2[i]) == video_target(root, #[trigger] videos2[j])
        implies videos2[i] == videos2[j] by {
        assert(videos2.contains(videos2[i]));
        assert(videos2.contains(videos2[j]));
    }
    lemma_save_writes_missing_videos(root, videos1, disk, targets1, on_disk1, picks1);
    lemma_save_writes_missing_videos(root, videos2, disk, targets2, on_disk2, picks2);
    assert(to_save(root, videos1, disk) =~= to_save(root, videos2, disk));
}

} // verus!
