//! Frames of a video written under `<prefix>/<hex digest>/{n:04}.png`.

use vstd::prelude::*;

use crate::digest::{content_name, md5_hex};
use crate::naming::{numbered_file, numbered_name, png};
use crate::path::{join, join_path};

verus! {

/// The directory for the frames of a video with bytes `contents`:
/// `prefix/<hex digest>`.
pub fn frame_dir(prefix: &str, contents: &[u8]) -> (d: String)
    ensures
        d@ == join(prefix@, content_name(contents@)),
{
    let hash = md5_hex(contents);
    join_path(prefix, hash.as_str())
}

/// Where frame `idx` is saved: `dir/{idx:04}.png`.
pub fn frame_file(dir: &str, idx: usize) -> (f: String)
    ensures
        f@ == join(dir@, numbered_name(idx as nat, png())),
{
    proof {
        reveal_strlit("png");
    }
    numbered_file(dir, idx as u64, "png")
}

} // verus!
