//! A parquet file whose working directory is named after its contents.

use vstd::prelude::*;

use crate::digest::content_name;
use crate::digest::md5_hex;
use crate::path::{join, join_path};

verus! {

/// A parquet file, the root its working directory lives under, and that
/// directory `root/<hex digest of the file>`.
pub struct Bucket {
    root: String,
    path: String,
    local: String,
}

impl View for Bucket {
    type V = (Seq<char>, Seq<char>, Seq<char>);

    closed spec fn view(&self) -> (Seq<char>, Seq<char>, Seq<char>) {
        (self.root@, self.path@, self.local@)
    }
}

impl Bucket {
    /// The bucket at `path` with bytes `contents`, working under `root`.
    pub fn from(path: String, root: String, contents: &[u8]) -> (b: Bucket)
        ensures
            b@ == (root@, path@, join(root@, content_name(contents@))),
    {
        let hex = md5_hex(contents);
        let local = join_path(root.as_str(), hex.as_str());
        Bucket { root, path, local }
    }

    /// The working directory.
    pub fn local(&self) -> (p: &String)
        ensures
            p@ == self@.2,
    {
        &self.local
    }
}

} // verus!
