//! A video path and its cache directory, where every decoded frame is
//! written as `{n:04}.png`.

use vstd::prelude::*;

use crate::digest::{cache_dir, cache_dir_of, content_name};
use crate::naming::{png, slash_numbered, slash_numbered_file};

verus! {

/// A video file and its cache directory `fc/<hex digest of its contents>`.
pub struct X264Video<'a> {
    path: &'a str,
    local: String,
}

impl<'a> View for X264Video<'a> {
    type V = (Seq<char>, Seq<char>);

    closed spec fn view(&self) -> (Seq<char>, Seq<char>) {
        (self.path@, self.local@)
    }
}

impl<'a> X264Video<'a> {
    /// The video at `path`, whose bytes are `contents`.
    pub fn load(path: &'a str, contents: &[u8]) -> (v: X264Video<'a>)
        ensures
            v@ == (path@, cache_dir(content_name(contents@))),
    {
        let local = cache_dir_of(contents);
        X264Video { path, local }
    }

    /// The path of the video file.
    pub fn path(&self) -> (p: &'a str)
        ensures
            p@ == self@.0,
    {
        self.path
    }

    /// The cache directory of the video.
    pub fn local(&self) -> (p: &String)
        ensures
            p@ == self@.1,
    {
        &self.local
    }

    /// The name of frame `i`: `format!("{}/{:04}.png", local, i)`.
    pub fn frame_path(&self, i: u32) -> (s: String)
        ensures
            s@ == slash_numbered(self@.1, i as nat, png()),
    {
        proof {
            reveal_strlit("png");
        }
        slash_numbered_file(self.local.as_str(), i as u64, "png")
    }
}

} // verus!
