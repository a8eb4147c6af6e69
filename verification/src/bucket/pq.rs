//! A parquet file of videos, split into numbered `.mp4` files under a
//! directory named after the file's stem.

use vstd::prelude::*;

use crate::naming::{mp4, numbered_file, numbered_name};
use crate::path::{file_stem, file_stem_of, join, join_path};

verus! {

/// A parquet file and the directory its videos are split into.
pub struct Bucket {
    path: String,
    local: String,
}

impl View for Bucket {
    type V = (Seq<char>, Seq<char>);

    closed spec fn view(&self) -> (Seq<char>, Seq<char>) {
        (self.path@, self.local@)
    }
}

impl Bucket {
    /// The bucket at `path`, split into `root/<file stem of path>`.
    /// Defined exactly for paths with a file stem (`file_stem_of` tells
    /// which); a path without one (empty, `/`, ending in `..`) is refused,
    /// where unwrapping the missing stem would panic.
    pub fn from(path: String, root: &str) -> (b: Bucket)
        requires
            file_stem(path@) is Some,
        ensures
            b@ == (path@, join(root@, file_stem(path@)->0)),
    {
        let stem = file_stem_of(path.as_str());
        let file = stem.unwrap();
        let local = join_path(root, file.as_str());
        Bucket { path, local }
    }

    /// Where the video numbered `idx` is written: `<local>/{idx:04}.mp4`.
    pub fn split_path(&self, idx: u32) -> (p: String)
        ensures
            p@ == join(self@.1, numbered_name(idx as nat, mp4())),
    {
        proof {
            reveal_strlit("mp4");
            assert("mp4"@ =~= mp4());
        }
        numbered_file(self.local.as_str(), idx as u64, "mp4")
    }

    /// The path of the parquet file.
    pub fn path(&self) -> (p: &String)
        ensures
            p@ == self@.0,
    {
        &self.path
    }

    /// The directory the videos are split into.
    pub fn local(&self) -> (p: &String)
        ensures
            p@ == self@.1,
    {
        &self.local
    }
}

} // verus!
