//! Loading a batch of videos from their bytes.

use vstd::prelude::*;

use rayon::iter::{ParallelBridge, ParallelIterator};

use crate::hyper::{loaded, X264Video};

verus! {

/// Loads each buffer as a video, in order.
pub fn load_x64(buff: Vec<Vec<u8>>) -> (x64: Vec<X264Video>)
    ensures
        x64@.len() == buff@.len(),
        forall|i: int| 0 <= i < buff@.len() ==> #[trigger] x64@[i]@ == loaded(buff@[i]@),
{
    let mut x64: Vec<X264Video> = Vec::new();
    let mut i: usize = 0;
    while i < buff.len()
        invariant
            i <= buff@.len(),
            x64@.len() == i,
            forall|k: int| 0 <= k < i ==> #[trigger] x64@[k]@ == loaded(buff@[k]@),
        decreases buff@.len() - i,
    {
        x64.push(X264Video::load(&buff[i]));
        i = i + 1;
    }
    x64
}

/// The cache directories of the videos, in order.
pub fn hash(x64: &Vec<X264Video>) -> (hashes: Vec<String>)
    ensures
        hashes@.len() == x64@.len(),
        forall|i: int| 0 <= i < x64@.len() ==> #[trigger] hashes@[i]@ == x64@[i]@.1,
{
    let mut hashes: Vec<String> = Vec::new();
    let mut i: usize = 0;
    while i < x64.len()
        invariant
            i <= x64@.len(),
            hashes@.len() == i,
            forall|k: int| 0 <= k < i ==> #[trigger] hashes@[k]@ == x64@[k]@.1,
        decreases x64@.len() - i,
    {
        hashes.push(x64[i].hash());
        i = i + 1;
    }
    hashes
}

/// `p` lists each of `0 .. n` exactly once.
pub open spec fn is_permutation(p: Seq<int>, n: nat) -> bool {
    &&& p.len() == n
    &&& forall|i: int| 0 <= i < n ==> 0 <= #[trigger] p[i] < n
    &&& forall|i: int, j: int| 0 <= i < j < n ==> #[trigger] p[i] != #[trigger] p[j]
}

/// `ys` holds the loads of `xs`, in the order given by the permutation `p`.
pub open spec fn loads_in_order(p: Seq<int>, xs: Seq<Vec<u8>>, ys: Seq<X264Video>) -> bool {
    &&& is_permutation(p, xs.len())
    &&& ys.len() == xs.len()
    &&& forall|i: int| 0 <= i < ys.len() ==> #[trigger] ys[i]@ == loaded(xs[p[i]]@)
}

/// Runs `buff.into_iter().par_bridge().map(|x| X264Video::load(&x)).collect()`
/// with rayon. Trusted: every buffer is loaded exactly once and the results
/// are all collected; `par_bridge` does not keep the order, so the result is
/// the loads in some order.
#[verifier::external_body]
fn par_load(buff: Vec<Vec<u8>>) -> (x64: Vec<X264Video>)
    ensures
        exists|p: Seq<int>|
            #[trigger] loads_in_order(p, buff@, x64@),
{
    buff.into_iter().par_bridge().map(|x| X264Video::load(&x)).collect()
}

/// Loads the buffers as videos on rayon's thread pool; the videos come back
/// in an unspecified order.
pub fn load_x64_rayon(buff: Vec<Vec<u8>>) -> (x64: Vec<X264Video>)
    ensures
        exists|p: Seq<int>|
            #[trigger] loads_in_order(p, buff@, x64@),
{
    par_load(buff)
}

/// Loading in parallel gives the same videos as loading in order, up to
/// their order.
pub proof fn lemma_parallel_load_permutes(
    buff: Seq<Vec<u8>>,
    in_order: Seq<X264Video>,
    parallel: Seq<X264Video>,
    p: Seq<int>,
)
    requires
        in_order.len() == buff.len(),
        forall|i: int| 0 <= i < buff.len() ==> #[trigger] in_order[i]@ == loaded(buff[i]@),
        loads_in_order(p, buff, parallel),
    ensures
        is_permutation(p, in_order.len()),
        parallel.len() == in_order.len(),
        forall|i: int| 0 <= i < parallel.len() ==> #[trigger] parallel[i]@ == in_order[p[i]]@,
{
    assert forall|i: int| 0 <= i < parallel.len() implies #[trigger] parallel[i]@ == in_order[p[i]]@ by {
        assert(0 <= p[i] < buff.len());
    }
}

} // verus!
