//! The names the pipeline builds are paths held as text. This module models
//! the parts of Unix path syntax that it relies on: the final component
//! (`file_name`), its stem and extension, dropping the extension, and joining
//! a relative name onto a directory.

use vstd::prelude::*;

use crate::text::chars_of;

verus! {

/// Start of the run of non-separator characters that ends at `end`.
pub open spec fn seg_start(s: Seq<char>, end: int) -> int
    decreases end,
{
    if end <= 0 {
        0
    } else if s[end - 1] == '/' {
        end
    } else {
        seg_start(s, end - 1)
    }
}

pub proof fn lemma_seg_start(s: Seq<char>, end: int)
    requires
        0 <= end <= s.len(),
    ensures
        0 <= seg_start(s, end) <= end,
        end > 0 && s[end - 1] != '/' ==> seg_start(s, end) < end,
        forall|k: int| seg_start(s, end) <= k < end ==> s[k] != '/',
        seg_start(s, end) > 0 ==> s[seg_start(s, end) - 1] == '/',
    decreases end,
{
    if end > 0 && s[end - 1] != '/' {
        lemma_seg_start(s, end - 1);
    }
}

/// Position `[a, b)` of the last component of `s[0..end]` that is neither
/// empty nor `.`; components are separated by `/`.
pub open spec fn name_span(s: Seq<char>, end: int) -> Option<(int, int)>
    decreases end,
{
    if end <= 0 || end > s.len() {
        None
    } else if s[end - 1] == '/' {
        name_span(s, end - 1)
    } else {
        let a = seg_start(s, end);
        proof {
            lemma_seg_start(s, end);
        }
        if end - a == 1 && s[a] == '.' {
            name_span(s, a)
        } else {
            Some((a, end))
        }
    }
}

/// Position of the final component of the path, when that component is a
/// name (not `..`, and the path is not empty, `/` or `.`).
pub open spec fn file_name_span(s: Seq<char>) -> Option<(int, int)> {
    match name_span(s, s.len() as int) {
        Some((a, b)) => if b - a == 2 && s[a] == '.' && s[a + 1] == '.' {
            None
        } else {
            Some((a, b))
        },
        None => None,
    }
}

/// The final component of the path, if it is a name.
pub open spec fn file_name(s: Seq<char>) -> Option<Seq<char>> {
    match file_name_span(s) {
        Some((a, b)) => Some(s.subrange(a, b)),
        None => None,
    }
}

/// Index of the last `.` in `n[0..end]`, or -1.
pub open spec fn last_dot(n: Seq<char>, end: int) -> int
    decreases end,
{
    if end <= 0 {
        -1
    } else if n[end - 1] == '.' {
        end - 1
    } else {
        last_dot(n, end - 1)
    }
}

/// Length of the stem of a file name: the part before its last `.`, or the
/// whole name when it has no `.` other than a leading one.
pub open spec fn stem_len(n: Seq<char>) -> int {
    let d = last_dot(n, n.len() as int);
    if d <= 0 {
        n.len() as int
    } else {
        d
    }
}

pub open spec fn stem_of(n: Seq<char>) -> Seq<char> {
    n.subrange(0, stem_len(n))
}

pub open spec fn extension_of(n: Seq<char>) -> Option<Seq<char>> {
    let d = last_dot(n, n.len() as int);
    if d <= 0 {
        None
    } else {
        Some(n.subrange(d + 1, n.len() as int))
    }
}

/// `Path::file_stem`.
pub open spec fn file_stem(s: Seq<char>) -> Option<Seq<char>> {
    match file_name(s) {
        Some(n) => Some(stem_of(n)),
        None => None,
    }
}

/// `Path::extension`.
pub open spec fn extension(s: Seq<char>) -> Option<Seq<char>> {
    match file_name(s) {
        Some(n) => extension_of(n),
        None => None,
    }
}

/// `Path::with_extension("")`: the path cut right after the stem of its
/// final component; unchanged when it has no file name.
pub open spec fn without_extension(s: Seq<char>) -> Seq<char> {
    match file_name_span(s) {
        Some((a, b)) => s.subrange(0, a + stem_len(s.subrange(a, b))),
        None => s,
    }
}

/// `Path::join`: an absolute `p` replaces `base`; otherwise `p` is appended,
/// with a `/` in between unless `base` is empty or already ends in one.
pub open spec fn join(base: Seq<char>, p: Seq<char>) -> Seq<char> {
    if p.len() > 0 && p[0] == '/' {
        p
    } else if base.len() > 0 && base.last() != '/' {
        base + seq!['/'] + p
    } else {
        base + p
    }
}

/// A single plain component: non-empty, without `/`, and neither `.` nor `..`.
pub open spec fn is_plain_name(n: Seq<char>) -> bool {
    &&& n.len() > 0
    &&& forall|k: int| 0 <= k < n.len() ==> n[k] != '/'
    &&& n != seq!['.']
    &&& n != seq!['.', '.']
}

fn seg_start_exec(s: &Vec<char>, end: usize) -> (a: usize)
    requires
        end <= s@.len(),
    ensures
        a == seg_start(s@, end as int),
{
    let mut a = end;
    while a > 0 && s[a - 1] != '/'
        invariant
            a <= end <= s@.len(),
            seg_start(s@, a as int) == seg_start(s@, end as int),
        decreases a,
    {
        a = a - 1;
    }
    a
}

fn name_span_exec(s: &Vec<char>) -> (r: Option<(usize, usize)>)
    ensures
        r matches Some((a, b)) ==> name_span(s@, s@.len() as int) == Some((a as int, b as int)),
        r is None ==> name_span(s@, s@.len() as int) is None,
{
    let mut end = s.len();
    loop
        invariant
            end <= s@.len(),
            name_span(s@, end as int) == name_span(s@, s@.len() as int),
        decreases end,
    {
        let ghost start = end;
        while end > 0 && s[end - 1] == '/'
            invariant
                end <= start,
                end <= s@.len(),
                name_span(s@, end as int) == name_span(s@, s@.len() as int),
            decreases end,
        {
            end = end - 1;
        }
        if end == 0 {
            return None;
        }
        let a = seg_start_exec(s, end);
        proof {
            lemma_seg_start(s@, end as int);
        }
        if end - a == 1 && s[a] == '.' {
            end = a;
        } else {
            return Some((a, end));
        }
    }
}

fn file_name_span_exec(s: &Vec<char>) -> (r: Option<(usize, usize)>)
    ensures
        r matches Some((a, b)) ==> file_name_span(s@) == Some((a as int, b as int)),
        r is None ==> file_name_span(s@) is None,
{
    match name_span_exec(s) {
        Some((a, b)) => {
            proof {
                lemma_name_span_bounds(s@, s@.len() as int);
            }
            if b - a == 2 && s[a] == '.' && s[a + 1] == '.' {
                None
            } else {
                Some((a, b))
            }
        },
        None => None,
    }
}

pub proof fn lemma_name_span_bounds(s: Seq<char>, end: int)
    ensures
        name_span(s, end) matches Some((a, b)) ==> {
            &&& 0 <= a < b <= end <= s.len()
            &&& a == seg_start(s, b)
            &&& s[b - 1] != '/'
            &&& !(b - a == 1 && s[a] == '.')
            &&& forall|k: int| a <= k < b ==> s[k] != '/'
            &&& a > 0 ==> s[a - 1] == '/'
        },
    decreases end,
{
    if 0 < end <= s.len() {
        if s[end - 1] == '/' {
            lemma_name_span_bounds(s, end - 1);
        } else {
            lemma_seg_start(s, end);
            let a = seg_start(s, end);
            if end - a == 1 && s[a] == '.' {
                lemma_name_span_bounds(s, a);
            }
        }
    }
}

fn last_dot_exec(n: &[char]) -> (d: Option<usize>)
    ensures
        d matches Some(i) ==> last_dot(n@, n@.len() as int) == i,
        d is None ==> last_dot(n@, n@.len() as int) == -1,
{
    let mut end = n.len();
    while end > 0
        invariant
            end <= n@.len(),
            last_dot(n@, end as int) == last_dot(n@, n@.len() as int),
        decreases end,
    {
        if n[end - 1] == '.' {
            return Some(end - 1);
        }
        end = end - 1;
    }
    None
}

pub proof fn lemma_last_dot_bounds(n: Seq<char>, end: int)
    requires
        end <= n.len(),
    ensures
        -1 <= last_dot(n, end) < end || (end <= 0 && last_dot(n, end) == -1),
        last_dot(n, end) >= 0 ==> n[last_dot(n, end)] == '.',
        forall|k: int| last_dot(n, end) < k < end ==> n[k] != '.',
    decreases end,
{
    if end > 0 && n[end - 1] != '.' {
        lemma_last_dot_bounds(n, end - 1);
    }
}

fn slice_to_string(v: &Vec<char>, a: usize, b: usize) -> (s: String)
    requires
        a <= b <= v@.len(),
    ensures
        s@ == v@.subrange(a as int, b as int),
{
    let mut s = String::new();
    let mut i = a;
    while i < b
        invariant
            a <= i <= b <= v@.len(),
            s@ == v@.subrange(a as int, i as int),
        decreases b - i,
    {
        s.push(v[i]);
        i = i + 1;
        assert(s@ =~= v@.subrange(a as int, i as int));
    }
    s
}

/// The final component of `path`, when it is a name.
pub fn file_name_of(path: &str) -> (r: Option<String>)
    ensures
        r matches Some(n) ==> file_name(path@) == Some(n@),
        r is None ==> file_name(path@) is None,
{
    let s = chars_of(path);
    match file_name_span_exec(&s) {
        Some((a, b)) => {
            proof {
                lemma_name_span_bounds(s@, s@.len() as int);
            }
            Some(slice_to_string(&s, a, b))
        },
        None => None,
    }
}

/// The stem of the final component of `path` (`Path::file_stem`).
pub fn file_stem_of(path: &str) -> (r: Option<String>)
    ensures
        r matches Some(n) ==> file_stem(path@) == Some(n@),
        r is None ==> file_stem(path@) is None,
{
    let s = chars_of(path);
    match file_name_span_exec(&s) {
        Some((a, b)) => {
            proof {
                lemma_name_span_bounds(s@, s@.len() as int);
            }
            let len = stem_len_in(&s, a, b);
            Some(slice_to_string(&s, a, a + len))
        },
        None => None,
    }
}

/// Stem length of the name `s[a..b]`.
fn stem_len_in(s: &Vec<char>, a: usize, b: usize) -> (len: usize)
    requires
        a <= b <= s@.len(),
    ensures
        len == stem_len(s@.subrange(a as int, b as int)),
        len <= b - a,
{
    let ghost n = s@.subrange(a as int, b as int);
    let mut end = b;
    while end > a
        invariant
            a <= end <= b <= s@.len(),
            n == s@.subrange(a as int, b as int),
            last_dot(n, (end - a) as int) == last_dot(n, n.len() as int),
        decreases end,
    {
        if s[end - 1] == '.' {
            assert(n[end - 1 - a] == '.');
            if end - 1 == a {
                return b - a;
            }
            return end - 1 - a;
        }
        assert(n[end - 1 - a] != '.');
        end = end - 1;
    }
    b - a
}

/// The extension of the final component of `path` (`Path::extension`).
pub fn extension_of_path(path: &str) -> (r: Option<String>)
    ensures
        r matches Some(e) ==> extension(path@) == Some(e@),
        r is None ==> extension(path@) is None,
{
    let s = chars_of(path);
    match file_name_span_exec(&s) {
        Some((a, b)) => {
            proof {
                lemma_name_span_bounds(s@, s@.len() as int);
            }
            let ghost n = s@.subrange(a as int, b as int);
            let len = stem_len_in(&s, a, b);
            proof {
                lemma_last_dot_bounds(n, n.len() as int);
            }
            if len < b - a {
                assert(last_dot(n, n.len() as int) == len);
                let e = slice_to_string(&s, a + len + 1, b);
                assert(e@ =~= n.subrange(len + 1, n.len() as int));
                Some(e)
            } else {
                None
            }
        },
        None => None,
    }
}

/// The extension of `p`, read as empty when absent, is `ext`
/// (`p.extension().unwrap_or_default() == ext`).
pub open spec fn extension_is(p: Seq<char>, ext: Seq<char>) -> bool {
    match extension(p) {
        Some(e) => e == ext,
        None => ext.len() == 0,
    }
}

/// The text of each path.
pub open spec fn paths(ps: Seq<String>) -> Seq<Seq<char>> {
    ps.map_values(|s: String| s@)
}

/// The paths among `ps` whose extension is `ext`, in order.
pub open spec fn with_extension(ps: Seq<Seq<char>>, ext: Seq<char>) -> Seq<Seq<char>>
    decreases ps.len(),
{
    if ps.len() == 0 {
        seq![]
    } else {
        let rest = with_extension(ps.drop_last(), ext);
        if extension_is(ps.last(), ext) {
            rest.push(ps.last())
        } else {
            rest
        }
    }
}

/// Whether the extension of `path`, read as empty when absent, is `ext`
/// (`path.extension().unwrap_or_default() == ext`).
pub fn has_extension(path: &str, ext: &str) -> (b: bool)
    ensures
        b == extension_is(path@, ext@),
{
    match extension_of_path(path) {
        Some(e) => {
            let want = String::from_str(ext);
            e == want
        },
        None => ext.unicode_len() == 0,
    }
}

/// `path` with the extension of its final component removed
/// (`Path::with_extension("")`).
pub fn without_extension_of(path: &str) -> (r: String)
    ensures
        r@ == without_extension(path@),
{
    let s = chars_of(path);
    match file_name_span_exec(&s) {
        Some((a, b)) => {
            proof {
                lemma_name_span_bounds(s@, s@.len() as int);
            }
            let len = stem_len_in(&s, a, b);
            slice_to_string(&s, 0, a + len)
        },
        None => {
            let r = String::from_str(path);
            r
        },
    }
}

/// `Path::join` on text paths.
pub fn join_path(base: &str, p: &str) -> (r: String)
    ensures
        r@ == join(base@, p@),
{
    let pn = p.unicode_len();
    let bn = base.unicode_len();
    if pn > 0 && p.get_char(0) == '/' {
        String::from_str(p)
    } else if bn > 0 && base.get_char(bn - 1) != '/' {
        let mut r = String::from_str(base);
        r.push('/');
        r.append(p);
        r
    } else {
        let mut r = String::from_str(base);
        r.append(p);
        r
    }
}

proof fn lemma_seg_start_after(pre: Seq<char>, n: Seq<char>, k: int)
    requires
        pre.len() == 0 || pre.last() == '/',
        0 <= k <= n.len(),
        forall|j: int| 0 <= j < n.len() ==> n[j] != '/',
    ensures
        seg_start(pre + n, pre.len() + k) == pre.len(),
    decreases k,
{
    let s = pre + n;
    if k > 0 {
        assert(s[pre.len() + k - 1] == n[k - 1]);
        lemma_seg_start_after(pre, n, k - 1);
    } else if pre.len() > 0 {
        assert(s[pre.len() - 1] == pre.last());
    }
}

/// A plain name that follows a separator (or nothing) is the file name.
pub proof fn lemma_file_name_after_separator(pre: Seq<char>, n: Seq<char>)
    requires
        pre.len() == 0 || pre.last() == '/',
        is_plain_name(n),
    ensures
        file_name(pre + n) == Some(n),
{
    let s = pre + n;
    let end = s.len() as int;
    assert(s[end - 1] == n[n.len() - 1]);
    lemma_seg_start_after(pre, n, n.len() as int);
    assert(s.subrange(pre.len() as int, end) =~= n);
    if n.len() == 1 {
        assert(n[0] == s[pre.len() as int]);
        assert(n[0] != '.') by {
            if n[0] == '.' {
                assert(n =~= seq!['.']);
            }
        }
    }
    if n.len() == 2 {
        assert(n[0] == s[pre.len() as int]);
        assert(n[1] == s[pre.len() as int + 1]);
        assert(!(n[0] == '.' && n[1] == '.')) by {
            if n[0] == '.' && n[1] == '.' {
                assert(n =~= seq!['.', '.']);
            }
        }
    }
}

/// Joining a plain name onto any directory yields a path whose file name is
/// that name.
pub proof fn lemma_join_file_name(base: Seq<char>, n: Seq<char>)
    requires
        is_plain_name(n),
    ensures
        file_name(join(base, n)) == Some(n),
{
    if base.len() > 0 && base.last() != '/' {
        let pre = base + seq!['/'];
        assert(pre.last() == '/');
        assert(join(base, n) == pre + n);
        lemma_file_name_after_separator(pre, n);
    } else {
        lemma_file_name_after_separator(base, n);
    }
}

/// Removing the extension leaves the stem as the file name, unless the stem
/// is `.` or `..` (as for `dir/..x`).
pub proof fn lemma_without_extension_file_name(p: Seq<char>)
    requires
        file_stem(p) matches Some(st) && st != seq!['.'] && st != seq!['.', '.'],
    ensures
        file_name(without_extension(p)) == file_stem(p),
{
    lemma_name_span_bounds(p, p.len() as int);
    let (a, b) = file_name_span(p)->0;
    let n = p.subrange(a, b);
    let len = stem_len(n);
    lemma_last_dot_bounds(n, n.len() as int);
    let st = stem_of(n);
    assert(len > 0);
    let pre = p.subrange(0, a);
    assert(without_extension(p) =~= pre + st);
    if a > 0 {
        assert(pre.last() == p[a - 1]);
    }
    assert forall|j: int| 0 <= j < st.len() implies st[j] != '/' by {
        assert(st[j] == p[a + j]);
    }
    lemma_file_name_after_separator(pre, st);
}

/// The paths among `list` whose extension is `ext`, in order (a directory
/// listing filtered to one kind of file).
pub fn files_with_extension(list: &Vec<String>, ext: &str) -> (out: Vec<String>)
    ensures
        paths(out@) == with_extension(paths(list@), ext@),
        paths(out@) == paths(list@).filter(|p: Seq<char>| extension_is(p, ext@)),
        forall|p: Seq<char>| #[trigger] paths(out@).contains(p)
            <==> (paths(list@).contains(p) && extension_is(p, ext@)),
{
    proof {
        lemma_with_extension_keeps_all_matches(paths(list@), ext@);
    }
    let mut out: Vec<String> = Vec::new();
    let mut i: usize = 0;
    while i < list.len()
        invariant
            i <= list@.len(),
            paths(out@) == with_extension(paths(list@.subrange(0, i as int)), ext@),
        decreases list@.len() - i,
    {
        let ghost pre = paths(list@.subrange(0, i as int + 1));
        assert(pre.drop_last() =~= paths(list@.subrange(0, i as int)));
        assert(pre.last() == list@[i as int]@);
        if has_extension(list[i].as_str(), ext) {
            let p = list[i].clone();
            out.push(p);
            assert(paths(out@) =~= with_extension(pre, ext@));
        } else {
            assert(paths(out@) =~= with_extension(pre, ext@));
        }
        i = i + 1;
    }
    assert(list@.subrange(0, list@.len() as int) =~= list@);
    out
}

/// Every path kept by `with_extension` has the extension asked for; a
/// non-empty extension belongs to a file name, which therefore has a stem.
pub proof fn lemma_with_extension_kept(ps: Seq<Seq<char>>, ext: Seq<char>, k: int)
    requires
        0 <= k < with_extension(ps, ext).len(),
    ensures
        extension_is(with_extension(ps, ext)[k], ext),
        ext.len() > 0 ==> file_stem(with_extension(ps, ext)[k]) is Some,
    decreases ps.len(),
{
    let rest = with_extension(ps.drop_last(), ext);
    if k < rest.len() {
        lemma_with_extension_kept(ps.drop_last(), ext, k);
    }
}

/// The entries of `ps` whose mark in `extra` is false, in order: a listing
/// with the marked entries taken out.
pub open spec fn unmarked(ps: Seq<Seq<char>>, extra: Seq<bool>) -> Seq<Seq<char>>
    decreases ps.len(),
{
    if ps.len() == 0 {
        seq![]
    } else {
        let rest = unmarked(ps.drop_last(), extra);
        if extra[ps.len() - 1] {
            rest
        } else {
            rest.push(ps.last())
        }
    }
}

/// Entries of another kind do not change what a listing filtered by
/// extension gives: taking out (or adding) entries whose extension is not
/// `ext` leaves `with_extension` unchanged.
pub proof fn lemma_other_entries_ignored(ps: Seq<Seq<char>>, extra: Seq<bool>, ext: Seq<char>)
    requires
        extra.len() == ps.len(),
        forall|i: int| 0 <= i < ps.len() && #[trigger] extra[i] ==> !extension_is(ps[i], ext),
    ensures
        with_extension(ps, ext) == with_extension(unmarked(ps, extra), ext),
    decreases ps.len(),
{
    if ps.len() > 0 {
        let init = ps.drop_last();
        let e2 = extra.subrange(0, init.len() as int);
        lemma_unmarked_prefix(ps, extra);
        lemma_other_entries_ignored(init, e2, ext);
        let u = unmarked(init, e2);
        if !extra[ps.len() - 1] {
            assert(unmarked(ps, extra).drop_last() =~= u);
            assert(unmarked(ps, extra).last() == ps.last());
        }
    }
}

proof fn lemma_unmarked_prefix(ps: Seq<Seq<char>>, extra: Seq<bool>)
    requires
        ps.len() > 0,
        extra.len() == ps.len(),
    ensures
        unmarked(ps.drop_last(), extra) == unmarked(ps.drop_last(), extra.subrange(0, ps.len() - 1)),
{
    lemma_unmarked_depends_on_prefix(ps.drop_last(), extra, extra.subrange(0, ps.len() - 1));
}

proof fn lemma_unmarked_depends_on_prefix(ps: Seq<Seq<char>>, e1: Seq<bool>, e2: Seq<bool>)
    requires
        ps.len() <= e1.len(),
        ps.len() <= e2.len(),
        forall|i: int| 0 <= i < ps.len() ==> e1[i] == e2[i],
    ensures
        unmarked(ps, e1) == unmarked(ps, e2),
    decreases ps.len(),
{
    if ps.len() > 0 {
        lemma_unmarked_depends_on_prefix(ps.drop_last(), e1, e2);
    }
}

/// The positions in `list` of the paths whose extension is `ext`, in
/// increasing order.
pub fn positions_with_extension(list: &Vec<String>, ext: &str) -> (picks: Vec<usize>)
    ensures
        forall|k: int| 0 <= k < picks@.len() ==> #[trigger] picks@[k] < list@.len(),
        forall|k1: int, k2: int| 0 <= k1 < k2 < picks@.len() ==> #[trigger] picks@[k1] < #[trigger] picks@[k2],
        forall|i: int| 0 <= i < list@.len() ==>
            (extension_is(#[trigger] list@[i]@, ext@) <==> picks@.contains(i as usize)),
{
    let mut picks: Vec<usize> = Vec::new();
    let mut i: usize = 0;
    while i < list.len()
        invariant
            i <= list@.len(),
            forall|k: int| 0 <= k < picks@.len() ==> #[trigger] picks@[k] < i,
            forall|k1: int, k2: int| 0 <= k1 < k2 < picks@.len() ==> #[trigger] picks@[k1] < #[trigger] picks@[k2],
            forall|m: int| 0 <= m < i ==> (extension_is(#[trigger] list@[m]@, ext@) <==> picks@.contains(m as usize)),
        decreases list@.len() - i,
    {
        let ghost old_picks = picks@;
        let keep = has_extension(list[i].as_str(), ext);
        if keep {
            picks.push(i);
        }
        assert forall|m: int| 0 <= m < i + 1 implies (extension_is(#[trigger] list@[m]@, ext@) <==> picks@.contains(m as usize)) by {
            if m < i {
                if old_picks.contains(m as usize) {
                    let k = choose|k: int| 0 <= k < old_picks.len() && old_picks[k] == m as usize;
                    assert(picks@[k] == m as usize);
                }
                if picks@.contains(m as usize) {
                    let k = choose|k: int| 0 <= k < picks@.len() && picks@[k] == m as usize;
                    if k < old_picks.len() {
                        assert(old_picks[k] == m as usize);
                    }
                }
            } else {
                if picks@.contains(m as usize) && !keep {
                    let k = choose|k: int| 0 <= k < picks@.len() && picks@[k] == m as usize;
                    assert(picks@[k] < i);
                }
                if keep {
                    assert(picks@[picks@.len() - 1] == i);
                }
            }
        }
        i = i + 1;
    }
    picks
}

/// Filtering a listing by extension keeps every entry with that extension
/// and only those, in order: it is the sequence filter by `extension_is`,
/// and a path occurs in the result exactly when it occurs in the listing
/// with the extension asked for.
pub proof fn lemma_with_extension_keeps_all_matches(ps: Seq<Seq<char>>, ext: Seq<char>)
    ensures
        with_extension(ps, ext) == ps.filter(|p: Seq<char>| extension_is(p, ext)),
        forall|p: Seq<char>| #[trigger] with_extension(ps, ext).contains(p)
            <==> (ps.contains(p) && extension_is(p, ext)),
    decreases ps.len(),
{
    reveal(Seq::filter);
    if ps.len() > 0 {
        let init = ps.drop_last();
        lemma_with_extension_keeps_all_matches(init, ext);
        let w = with_extension(ps, ext);
        let wi = with_extension(init, ext);
        assert forall|p: Seq<char>| #[trigger] w.contains(p) <==> (ps.contains(p) && extension_is(p, ext)) by {
            if w.contains(p) {
                let k = choose|k: int| 0 <= k < w.len() && w[k] == p;
                if k < wi.len() {
                    assert(wi.contains(p));
                    let j = choose|j: int| 0 <= j < init.len() && init[j] == p;
                    assert(ps[j] == p);
                } else {
                    assert(ps[ps.len() - 1] == p);
                }
            }
            if ps.contains(p) && extension_is(p, ext) {
                let j = choose|j: int| 0 <= j < ps.len() && ps[j] == p;
                if j < init.len() {
                    assert(init[j] == p);
                    assert(init.contains(p));
                    assert(wi.contains(p));
                    let k = choose|k: int| 0 <= k < wi.len() && wi[k] == p;
                    assert(w[k] == p);
                    assert(w.contains(p));
                } else {
                    assert(w[w.len() - 1] == p);
                    assert(w.contains(p));
                }
            }
        }
    }
}

/// A file name splits into its stem and extension around its last `.`:
/// it has an extension exactly when a `.` stands after its first character;
/// then the name is stem, `.`, extension, with no `.` in the extension and a
/// non-empty stem; otherwise the stem is the whole name.
pub proof fn lemma_stem_and_extension(p: Seq<char>)
    requires
        file_name(p) is Some,
    ensures
        ({
            let n = file_name(p)->0;
            &&& file_stem(p) is Some
            &&& (extension(p) is Some <==> exists|k: int| 0 < k < n.len() && n[k] == '.')
            &&& extension(p) matches Some(e) ==> {
                &&& n == file_stem(p)->0 + seq!['.'] + e
                &&& file_stem(p)->0.len() > 0
                &&& forall|k: int| 0 <= k < e.len() ==> e[k] != '.'
            }
            &&& extension(p) is None ==> file_stem(p)->0 == n
        }),
{
    let n = file_name(p)->0;
    lemma_last_dot_bounds(n, n.len() as int);
    let d = last_dot(n, n.len() as int);
    if d > 0 {
        let e = n.subrange(d + 1, n.len() as int);
        assert(n =~= n.subrange(0, d) + seq!['.'] + e);
        assert(exists|k: int| 0 < k < n.len() && n[k] == '.') by {
            assert(n[d] == '.');
        }
    } else {
        assert(n.subrange(0, n.len() as int) =~= n);
        if exists|k: int| 0 < k < n.len() && n[k] == '.' {
            let k = choose|k: int| 0 < k < n.len() && n[k] == '.';
            assert(n[k] != '.');
        }
    }
}

/// Joining keeps the directory as it is and puts the relative name at the
/// end, with exactly one `/` between them (none when the directory is
/// empty or already ends in one); an absolute name is taken as it is.
pub proof fn lemma_join_shape(base: Seq<char>, p: Seq<char>)
    ensures
        p.len() > 0 && p[0] == '/' ==> join(base, p) == p,
        !(p.len() > 0 && p[0] == '/') ==> {
            let j = join(base, p);
            let sep: int = if base.len() > 0 && base[base.len() - 1] != '/' { 1 } else { 0 };
            &&& j.len() == base.len() + sep + p.len()
            &&& j.subrange(0, base.len() as int) == base
            &&& (sep == 1 ==> j[base.len() as int] == '/')
            &&& j.subrange(base.len() + sep, j.len() as int) == p
        },
{
    if !(p.len() > 0 && p[0] == '/') {
        let j = join(base, p);
        let sep: int = if base.len() > 0 && base[base.len() - 1] != '/' { 1 } else { 0 };
        assert(j.subrange(0, base.len() as int) =~= base);
        assert(j.subrange(base.len() + sep, j.len() as int) =~= p);
    }
}

} // verus!
