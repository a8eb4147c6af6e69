//! MD5 digests of video contents and their lower-case hexadecimal names.

use vstd::prelude::*;
use md5::{Digest, Md5};

verus! {

/// The MD5 digest of `data`, as computed by the `md-5` crate.
pub uninterp spec fn md5_digest(data: Seq<u8>) -> Seq<u8>;

/// Calls `<md5::Md5 as digest::Digest>::digest` on `data` and copies the
/// 16-byte output into a `Vec`. Trusted: the result is the MD5 digest of
/// `data` (named `md5_digest`, not computed here) and has 16 bytes
/// (`Md5Core` declares `OutputSize = U16`).
#[verifier::external_body]
fn md5_bytes(data: &[u8]) -> (res: Vec<u8>)
    ensures
        res@ == md5_digest(data@),
        res@.len() == 16,
{
    Md5::digest(data).to_vec()
}

/// The lower-case hexadecimal digit of a value below 16.
pub open spec fn hex_digit(v: int) -> char {
    if v == 0 { '0' }
    else if v == 1 { '1' }
    else if v == 2 { '2' }
    else if v == 3 { '3' }
    else if v == 4 { '4' }
    else if v == 5 { '5' }
    else if v == 6 { '6' }
    else if v == 7 { '7' }
    else if v == 8 { '8' }
    else if v == 9 { '9' }
    else if v == 10 { 'a' }
    else if v == 11 { 'b' }
    else if v == 12 { 'c' }
    else if v == 13 { 'd' }
    else if v == 14 { 'e' }
    else { 'f' }
}

/// Two lower-case hex digits per byte, high nibble first: what `{:x}`
/// prints for a digest.
pub open spec fn lower_hex(bytes: Seq<u8>) -> Seq<char>
    decreases bytes.len(),
{
    if bytes.len() == 0 {
        seq![]
    } else {
        lower_hex(bytes.drop_last()) + seq![
            hex_digit((bytes.last() / 16) as int),
            hex_digit((bytes.last() % 16) as int),
        ]
    }
}

/// The name a video gets from its contents: the hex form of its MD5 digest.
pub open spec fn content_name(data: Seq<u8>) -> Seq<char> {
    lower_hex(md5_digest(data))
}

fn hex_digit_char(v: u8) -> (c: char)
    requires
        v < 16,
    ensures
        c == hex_digit(v as int),
{
    match v {
        0 => '0',
        1 => '1',
        2 => '2',
        3 => '3',
        4 => '4',
        5 => '5',
        6 => '6',
        7 => '7',
        8 => '8',
        9 => '9',
        10 => 'a',
        11 => 'b',
        12 => 'c',
        13 => 'd',
        14 => 'e',
        _ => 'f',
    }
}

/// The directory under the local cache `fc` named after a video's contents:
/// `fc/<hex digest>` (`format!("{}/{:x}", "fc", digest)`).
pub open spec fn cache_dir(name: Seq<char>) -> Seq<char> {
    seq!['f', 'c', '/'] + name
}

/// Formats bytes as lower-case hex, two digits per byte.
pub fn hex_string(bytes: &[u8]) -> (s: String)
    ensures
        s@ == lower_hex(bytes@),
        s@.len() == 2 * bytes@.len(),
        forall|i: int| 0 <= i < bytes@.len() ==> {
            &&& (#[trigger] s@[2 * i]) as int == 48 + (bytes@[i] / 16) + (if bytes@[i] / 16 < 10 { 0int } else { 39int })
            &&& s@[2 * i + 1] as int == 48 + (bytes@[i] % 16) + (if bytes@[i] % 16 < 10 { 0int } else { 39int })
        },
{
    proof {
        lemma_lower_hex_bytes(bytes@);
    }
    let mut s = String::new();
    let mut i: usize = 0;
    while i < bytes.len()
        invariant
            i <= bytes@.len(),
            s@ == lower_hex(bytes@.subrange(0, i as int)),
        decreases bytes@.len() - i,
    {
        let b = bytes[i];
        s.push(hex_digit_char(b / 16));
        s.push(hex_digit_char(b % 16));
        proof {
            let pre = bytes@.subrange(0, i as int + 1);
            assert(pre.drop_last() =~= bytes@.subrange(0, i as int));
            assert(pre.last() == b);
        }
        i = i + 1;
    }
    assert(bytes@.subrange(0, bytes@.len() as int) =~= bytes@);
    s
}

/// The lower-case hex form of the MD5 digest of `data` (32 characters).
pub fn md5_hex(data: &[u8]) -> (s: String)
    ensures
        s@ == content_name(data@),
        s@.len() == 32,
{
    let digest = md5_bytes(data);
    proof { lemma_lower_hex_len(digest@); }
    hex_string(digest.as_slice())
}

/// `fc/<hex of the MD5 digest of data>`.
pub fn cache_dir_of(data: &[u8]) -> (s: String)
    ensures
        s@ == cache_dir(content_name(data@)),
        s@.len() == 35,
{
    let name = md5_hex(data);
    let mut s = String::from_str("fc/");
    proof {
        reveal_strlit("fc/");
    }
    s.append(name.as_str());
    assert(s@ =~= cache_dir(content_name(data@)));
    s
}

/// Hex text has two characters per byte.
pub proof fn lemma_lower_hex_len(bytes: Seq<u8>)
    ensures
        lower_hex(bytes).len() == 2 * bytes.len(),
    decreases bytes.len(),
{
    if bytes.len() > 0 {
        lemma_lower_hex_len(bytes.drop_last());
    }
}

/// Different byte strings get different hex names: the hex form of a digest
/// determines the digest.
pub proof fn lemma_lower_hex_injective(a: Seq<u8>, b: Seq<u8>)
    requires
        lower_hex(a) == lower_hex(b),
    ensures
        a == b,
    decreases a.len(),
{
    lemma_lower_hex_len(a);
    lemma_lower_hex_len(b);
    if a.len() > 0 {
        let ha = lower_hex(a);
        let hb = lower_hex(b);
        let n = ha.len();
        lemma_lower_hex_len(a.drop_last());
        lemma_lower_hex_len(b.drop_last());
        assert(ha[n - 2] == hex_digit((a.last() / 16) as int));
        assert(hb[n - 2] == hex_digit((b.last() / 16) as int));
        assert(ha[n - 1] == hex_digit((a.last() % 16) as int));
        assert(hb[n - 1] == hex_digit((b.last() % 16) as int));
        assert(a.last() / 16 == b.last() / 16);
        assert(a.last() % 16 == b.last() % 16);
        assert(a.last() == b.last());
        assert(lower_hex(a.drop_last()) =~= ha.subrange(0, n - 2));
        assert(lower_hex(b.drop_last()) =~= hb.subrange(0, n - 2));
        lemma_lower_hex_injective(a.drop_last(), b.drop_last());
        assert(a =~= a.drop_last().push(a.last()));
        assert(b =~= b.drop_last().push(b.last()));
    }
}

/// The character code of the lower-case hex digit of `v` (below 16).
pub open spec fn hex_code(v: int) -> int {
    if v < 10 { 48 + v } else { 87 + v }
}

/// The hex digits are `0`-`9` then `a`-`f`.
pub proof fn lemma_hex_digit_codes(v: int)
    requires
        0 <= v < 16,
    ensures
        hex_digit(v) as int == hex_code(v),
{
}

/// Each byte prints in its own place as its own two lower-case hex digits,
/// high nibble first: byte `i` gives characters `2i` and `2i + 1`.
pub proof fn lemma_lower_hex_bytes(bytes: Seq<u8>)
    ensures
        lower_hex(bytes).len() == 2 * bytes.len(),
        forall|i: int| 0 <= i < bytes.len() ==> {
            &&& (#[trigger] lower_hex(bytes)[2 * i]) as int == 48 + (bytes[i] / 16) + (if bytes[i] / 16 < 10 { 0int } else { 39int })
            &&& lower_hex(bytes)[2 * i + 1] as int == 48 + (bytes[i] % 16) + (if bytes[i] % 16 < 10 { 0int } else { 39int })
        },
    decreases bytes.len(),
{
    lemma_lower_hex_len(bytes);
    if bytes.len() > 0 {
        let init = bytes.drop_last();
        lemma_lower_hex_bytes(init);
        let h = lower_hex(bytes);
        let hi = lower_hex(init);
        let b = bytes.last();
        lemma_hex_digit_codes((b / 16) as int);
        lemma_hex_digit_codes((b % 16) as int);
        assert forall|i: int| 0 <= i < bytes.len() implies {
            &&& (#[trigger] lower_hex(bytes)[2 * i]) as int == 48 + (bytes[i] / 16) + (if bytes[i] / 16 < 10 { 0int } else { 39int })
            &&& lower_hex(bytes)[2 * i + 1] as int == 48 + (bytes[i] % 16) + (if bytes[i] % 16 < 10 { 0int } else { 39int })
        } by {
            if i < init.len() {
                assert(h[2 * i] == hi[2 * i]);
                assert(h[2 * i + 1] == hi[2 * i + 1]);
                assert(bytes[i] == init[i]);
            } else {
                assert(h[2 * i] == hex_digit((b / 16) as int));
                assert(h[2 * i + 1] == hex_digit((b % 16) as int));
            }
        }
    }
}

/// A cache directory is `fc/` followed by the name, and the name of a
/// video is 32 characters: two per byte of the 16-byte digest.
pub proof fn lemma_cache_dir_shape(name: Seq<char>)
    ensures
        cache_dir(name).len() == name.len() + 3,
        cache_dir(name)[0] == 'f',
        cache_dir(name)[1] == 'c',
        cache_dir(name)[2] == '/',
        cache_dir(name).subrange(3, name.len() + 3 as int) == name,
{
    assert(cache_dir(name).subrange(3, name.len() + 3 as int) =~= name);
}

} // verus!
