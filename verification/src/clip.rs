//! Videos on disk identified by their contents, decoded into every frame.

use vstd::prelude::*;

use crate::digest::{cache_dir, cache_dir_of, content_name};

verus! {

/// One decoded RGB frame.
pub struct Frame {
    buffer: Vec<u8>,
    width: u32,
    height: u32,
}

impl View for Frame {
    type V = (Seq<u8>, u32, u32);

    closed spec fn view(&self) -> (Seq<u8>, u32, u32) {
        (self.buffer@, self.width, self.height)
    }
}

impl Frame {
    pub fn new(buffer: Vec<u8>, width: u32, height: u32) -> (f: Frame)
        ensures
            f@ == (buffer@, width, height),
    {
        Frame { buffer, width, height }
    }
}

/// A video file and its cache directory `fc/<hex digest of its contents>`.
pub struct Beframe {
    path: String,
    local: String,
}

impl View for Beframe {
    type V = (Seq<char>, Seq<char>);

    closed spec fn view(&self) -> (Seq<char>, Seq<char>) {
        (self.path@, self.local@)
    }
}

impl Beframe {
    /// The video at `path`, whose bytes are `contents`.
    pub fn from(path: String, contents: &[u8]) -> (b: Beframe)
        ensures
            b@ == (path@, cache_dir(content_name(contents@))),
    {
        let local = cache_dir_of(contents);
        Beframe { path, local }
    }

    /// The cache directory of the video.
    pub fn hash(&self) -> (s: String)
        ensures
            s@ == self@.1,
    {
        self.local.clone()
    }

    /// The path of the video file.
    pub fn path(&self) -> (p: &String)
        ensures
            p@ == self@.0,
    {
        &self.path
    }
}

} // verus!
