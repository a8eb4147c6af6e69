//! A video held in memory, named in the local cache by its contents.

use vstd::prelude::*;

use crate::digest::{cache_dir, cache_dir_of, content_name};

verus! {

/// A video's bytes and its cache directory `fc/<hex digest>`.
pub struct X264Video {
    buffer: Vec<u8>,
    local: String,
}

/// What a video loaded from `contents` holds: the bytes and the cache
/// directory named after them.
pub open spec fn loaded(contents: Seq<u8>) -> (Seq<u8>, Seq<char>) {
    (contents, cache_dir(content_name(contents)))
}

impl View for X264Video {
    type V = (Seq<u8>, Seq<char>);

    closed spec fn view(&self) -> (Seq<u8>, Seq<char>) {
        (self.buffer@, self.local@)
    }
}

impl X264Video {
    /// Copies the bytes of a video and names its cache directory after their
    /// MD5 digest.
    pub fn load(buff: &Vec<u8>) -> (v: X264Video)
        ensures
            v@ == loaded(buff@),
    {
        let local = cache_dir_of(buff.as_slice());
        let buffer = buff.clone();
        assert(buffer@ =~= buff@);
        X264Video { buffer, local }
    }

    /// The cache directory of the video.
    pub fn hash(&self) -> (s: String)
        ensures
            s@ == self@.1,
    {
        self.local.clone()
    }
}

/// Videos with the same contents share a cache directory, and different
/// contents give different directories unless their MD5 digests collide.
pub proof fn lemma_same_contents_same_dir(a: Seq<u8>, b: Seq<u8>)
    ensures
        a == b ==> loaded(a).1 == loaded(b).1,
        loaded(a).1 == loaded(b).1 ==> crate::digest::md5_digest(a) == crate::digest::md5_digest(b),
{
    if loaded(a).1 == loaded(b).1 {
        let x = content_name(a);
        let y = content_name(b);
        assert(x =~= loaded(a).1.subrange(3, loaded(a).1.len() as int));
        assert(y =~= loaded(b).1.subrange(3, loaded(b).1.len() as int));
        crate::digest::lemma_lower_hex_injective(
            crate::digest::md5_digest(a),
            crate::digest::md5_digest(b),
        );
    }
}

} // verus!
