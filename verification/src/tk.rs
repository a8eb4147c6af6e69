//! Videos named by their contents, from which one frame in five is kept and
//! converted to RGB bytes.

use vstd::prelude::*;

use crate::digest::{cache_dir, cache_dir_of, content_name};
use crate::naming::{jpg, slash_numbered, slash_numbered_file};
use crate::sampler::{FrameSampler, SamplerView};

verus! {

/// A video file and its cache directory `fc/<hex digest of its contents>`.
pub struct X264Video {
    path: String,
    local: String,
}

impl View for X264Video {
    type V = (Seq<char>, Seq<char>);

    closed spec fn view(&self) -> (Seq<char>, Seq<char>) {
        (self.path@, self.local@)
    }
}

impl X264Video {
    /// The video at `path`, whose bytes are `contents`.
    pub fn load(path: String, contents: &[u8]) -> (v: X264Video)
        ensures
            v@ == (path@, cache_dir(content_name(contents@))),
    {
        let local = cache_dir_of(contents);
        X264Video { path, local }
    }

    /// The path of the video file.
    pub fn path(&self) -> (p: &String)
        ensures
            p@ == self@.0,
    {
        &self.path
    }

    /// The cache directory of the video.
    pub fn local(&self) -> (p: &String)
        ensures
            p@ == self@.1,
    {
        &self.local
    }

    /// The name of the kept frame numbered `valid`:
    /// `format!("{}/{:04}.jpg", local, valid)`.
    pub fn frame_path(&self, valid: u64) -> (s: String)
        ensures
            s@ == slash_numbered(self@.1, valid as nat, jpg()),
    {
        proof {
            reveal_strlit("jpg");
        }
        slash_numbered_file(self.local.as_str(), valid, "jpg")
    }

    /// The sampler for `processing`: one frame in five is kept.
    pub fn frame_sampler() -> (s: FrameSampler)
        ensures
            s@ == (SamplerView { stride: 5, seen: 0, kept: 0 }),
    {
        FrameSampler::new(5)
    }
}

} // verus!
