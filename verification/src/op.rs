//! Buckets staged in shared memory.

use vstd::prelude::*;

use crate::bucket::pq::Bucket;
use crate::path::{file_stem, files_with_extension, join, lemma_with_extension_kept, paths, with_extension};

verus! {

/// `/dev/shm/video`, where buckets are split for processing.
pub open spec fn shm_video() -> Seq<char> {
    seq!['/', 'd', 'e', 'v', '/', 's', 'h', 'm', '/', 'v', 'i', 'd', 'e', 'o']
}

/// The bucket for the parquet file `f`, split under `/dev/shm/video`.
pub fn process_single_bucket(f: String) -> (b: Bucket)
    requires
        file_stem(f@) is Some,
    ensures
        b@ == (f@, join(shm_video(), file_stem(f@)->0)),
{
    let root = String::from_str("/dev/shm/video");
    proof {
        reveal_strlit("/dev/shm/video");
    }
    Bucket::from(f, root.as_str())
}

/// `parquet`, the extension of bucket files.
pub open spec fn parquet_ext() -> Seq<char> {
    seq!['p', 'a', 'r', 'q', 'u', 'e', 't']
}

/// The buckets for the parquet files among `list`, in order, each split
/// under `root/<file stem>`.
pub fn parquet_buckets(list: &Vec<String>, root: &str) -> (buckets: Vec<Bucket>)
    ensures
        buckets@.len() == with_extension(paths(list@), parquet_ext()).len(),
        forall|i: int| 0 <= i < buckets@.len() ==> {
            let p = #[trigger] with_extension(paths(list@), parquet_ext())[i];
            buckets@[i]@ == (p, join(root@, file_stem(p)->0))
        },
{
    proof {
        reveal_strlit("parquet");
    }
    assert("parquet"@ =~= parquet_ext());
    let files = files_with_extension(list, "parquet");
    let ghost w = with_extension(paths(list@), parquet_ext());
    let mut buckets: Vec<Bucket> = Vec::new();
    let mut i: usize = 0;
    while i < files.len()
        invariant
            paths(files@) == w,
            w == with_extension(paths(list@), parquet_ext()),
            i <= files@.len(),
            buckets@.len() == i,
            forall|k: int| 0 <= k < i ==> {
                let p = #[trigger] w[k];
                buckets@[k]@ == (p, join(root@, file_stem(p)->0))
            },
        decreases files@.len() - i,
    {
        proof {
            lemma_with_extension_kept(paths(list@), parquet_ext(), i as int);
        }
        assert(files@[i as int]@ == w[i as int]);
        let f = files[i].clone();
        buckets.push(Bucket::from(f, root));
        i = i + 1;
    }
    buckets
}

} // verus!
