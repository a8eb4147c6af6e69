//! Videos staged in shared memory under their content name, with one frame
//! in nine kept as `<root>/<name>/{n:04}.jpg`.

use vstd::prelude::*;

use crate::digest::{content_name, md5_hex};
use crate::naming::{jpg, mp4, numbered_file, numbered_name};
use crate::path::{file_stem, file_stem_of, join, join_path};
use crate::sampler::{FrameSampler, SamplerView};

verus! {

/// `/dev/shm`, where staged copies of videos are written.
pub open spec fn dev_shm() -> Seq<char> {
    seq!['/', 'd', 'e', 'v', '/', 's', 'h', 'm']
}

/// A video file and the directory its frames go to.
pub struct X264Video {
    path: String,
    local: String,
}

impl View for X264Video {
    type V = (Seq<char>, Seq<char>);

    closed spec fn view(&self) -> (Seq<char>, Seq<char>) {
        (self.path@, self.local@)
    }
}

impl X264Video {
    /// The video at `path`, whose frames go to `root/<file stem of path>`.
    /// Defined exactly for paths with a file stem (`file_stem_of` tells
    /// which); a path without one (empty, `/`, ending in `..`) is refused,
    /// where unwrapping the missing stem would panic.
    pub fn from(path: String, root: &str) -> (v: X264Video)
        requires
            file_stem(path@) is Some,
        ensures
            v@ == (path@, join(root@, file_stem(path@)->0)),
    {
        let stem = file_stem_of(path.as_str());
        let fname = stem.unwrap();
        let local = join_path(root, fname.as_str());
        X264Video { path, local }
    }

    /// The video with bytes `buffer`: staged at `/dev/shm/<hex>.mp4`, its
    /// frames going to `root/<hex>`, where `<hex>` is its MD5 digest.
    pub fn load(buffer: &[u8], root: &str) -> (v: X264Video)
        ensures
            v@ == (
                join(dev_shm(), content_name(buffer@) + seq!['.'] + mp4()),
                join(root@, content_name(buffer@)),
            ),
    {
        let hex = md5_hex(buffer);
        let mut name = hex.clone();
        name.append(".mp4");
        let shm = String::from_str("/dev/shm");
        proof {
            reveal_strlit(".mp4");
            reveal_strlit("/dev/shm");
            assert(name@ =~= content_name(buffer@) + seq!['.'] + mp4());
        }
        let path = join_path(shm.as_str(), name.as_str());
        let local = join_path(root, hex.as_str());
        X264Video { path, local }
    }

    /// The path of the video file.
    pub fn path(&self) -> (p: &String)
        ensures
            p@ == self@.0,
    {
        &self.path
    }

    /// The directory the frames go to.
    pub fn local(&self) -> (p: &String)
        ensures
            p@ == self@.1,
    {
        &self.local
    }

    /// Where the kept frame numbered `i` goes: `<local>/{i:04}.jpg`.
    pub fn frame_path(&self, i: u64) -> (s: String)
        ensures
            s@ == join(self@.1, numbered_name(i as nat, jpg())),
    {
        proof {
            reveal_strlit("jpg");
        }
        numbered_file(self.local.as_str(), i, "jpg")
    }

    /// The sampler for `clip`: one frame in nine is kept.
    pub fn frame_sampler() -> (s: FrameSampler)
        ensures
            s@ == (SamplerView { stride: 9, seen: 0, kept: 0 }),
    {
        FrameSampler::new(9)
    }
}

} // verus!
