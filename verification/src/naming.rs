//! Decimal numbering of the files the pipeline writes: `{:04}`-style
//! zero-padded indices such as `0007.jpg`.

use vstd::prelude::*;

use crate::path::{join, join_path};
use crate::text::string_of;

verus! {

pub open spec fn decimal_digit(d: int) -> char {
    if d == 0 { '0' }
    else if d == 1 { '1' }
    else if d == 2 { '2' }
    else if d == 3 { '3' }
    else if d == 4 { '4' }
    else if d == 5 { '5' }
    else if d == 6 { '6' }
    else if d == 7 { '7' }
    else if d == 8 { '8' }
    else { '9' }
}

/// Value of a decimal digit character (0 for anything else).
pub open spec fn digit_value(c: char) -> int {
    if c == '1' { 1 }
    else if c == '2' { 2 }
    else if c == '3' { 3 }
    else if c == '4' { 4 }
    else if c == '5' { 5 }
    else if c == '6' { 6 }
    else if c == '7' { 7 }
    else if c == '8' { 8 }
    else if c == '9' { 9 }
    else { 0 }
}

/// The decimal digits of `n`, most significant first, without leading zeros.
pub open spec fn decimal(n: nat) -> Seq<char>
    decreases n,
{
    if n < 10 {
        seq![decimal_digit(n as int)]
    } else {
        decimal(n / 10).push(decimal_digit((n % 10) as int))
    }
}

/// What `format!("{:0w$}", n)` prints: the digits of `n`, left-padded with
/// `0` to at least `width` characters.
pub open spec fn zero_padded(n: nat, width: nat) -> Seq<char> {
    let d = decimal(n);
    if d.len() < width {
        Seq::new((width - d.len()) as nat, |i: int| '0') + d
    } else {
        d
    }
}

/// The number a string of decimal digits stands for.
pub open spec fn decimal_value(s: Seq<char>) -> int
    decreases s.len(),
{
    if s.len() == 0 {
        0
    } else {
        decimal_value(s.drop_last()) * 10 + digit_value(s.last())
    }
}

/// `{:04}.{ext}`: the name of the file with the given index.
pub open spec fn numbered_name(index: nat, ext: Seq<char>) -> Seq<char> {
    zero_padded(index, 4) + seq!['.'] + ext
}

pub open spec fn jpg() -> Seq<char> {
    seq!['j', 'p', 'g']
}

pub open spec fn png() -> Seq<char> {
    seq!['p', 'n', 'g']
}

pub open spec fn mp4() -> Seq<char> {
    seq!['m', 'p', '4']
}

/// `dir/{index:04}.{ext}` written as text, with a `/` between the two.
pub open spec fn slash_numbered(dir: Seq<char>, index: nat, ext: Seq<char>) -> Seq<char> {
    dir + seq!['/'] + numbered_name(index, ext)
}

fn digit_char(d: u64) -> (c: char)
    requires
        d < 10,
    ensures
        c == decimal_digit(d as int),
{
    match d {
        0 => '0',
        1 => '1',
        2 => '2',
        3 => '3',
        4 => '4',
        5 => '5',
        6 => '6',
        7 => '7',
        8 => '8',
        _ => '9',
    }
}

fn push_decimal(n: u64, out: &mut Vec<char>)
    ensures
        final(out)@ == old(out)@ + decimal(n as nat),
    decreases n,
{
    if n >= 10 {
        push_decimal(n / 10, out);
    }
    out.push(digit_char(n % 10));
    proof {
        if n < 10 {
            assert(decimal(n as nat) =~= seq![decimal_digit(n as int)]);
        }
    }
}

/// `n` in decimal, left-padded with zeros to `width` characters.
pub fn zero_padded_string(n: u64, width: usize) -> (s: String)
    ensures
        s@ == zero_padded(n as nat, width as nat),
{
    let mut digits: Vec<char> = Vec::new();
    push_decimal(n, &mut digits);
    assert(digits@ =~= decimal(n as nat));
    let mut out: Vec<char> = Vec::new();
    let mut k = digits.len();
    while k < width
        invariant
            digits@ == decimal(n as nat),
            digits@.len() <= k,
            k == digits@.len() || k <= width,
            out@ =~= Seq::new((k - digits@.len()) as nat, |i: int| '0'),
        decreases width - k,
    {
        out.push('0');
        k = k + 1;
    }
    let mut i: usize = 0;
    let ghost zeros = out@;
    while i < digits.len()
        invariant
            digits@ == decimal(n as nat),
            i <= digits@.len(),
            out@ == zeros + digits@.subrange(0, i as int),
        decreases digits@.len() - i,
    {
        out.push(digits[i]);
        i = i + 1;
        assert(out@ =~= zeros + digits@.subrange(0, i as int));
    }
    assert(digits@.subrange(0, digits@.len() as int) =~= digits@);
    proof {
        if digits@.len() >= width {
            assert(zeros =~= Seq::<char>::empty());
        }
    }
    assert(out@ =~= zero_padded(n as nat, width as nat));
    string_of(out.as_slice())
}

/// The file name `{index:04}.{ext}`.
pub fn numbered_file_name(index: u64, ext: &str) -> (s: String)
    ensures
        s@ == numbered_name(index as nat, ext@),
        index < 10000 ==> {
            &&& s@.len() == 5 + ext@.len()
            &&& s@[0] as int == 48 + index / 1000
            &&& s@[1] as int == 48 + (index / 100) % 10
            &&& s@[2] as int == 48 + (index / 10) % 10
            &&& s@[3] as int == 48 + index % 10
            &&& s@[4] == '.'
            &&& s@.subrange(5, 5 + ext@.len() as int) == ext@
        },
{
    proof {
        if index < 10000 {
            lemma_numbered_name_digits(index as nat, ext@);
        }
    }
    let mut s = zero_padded_string(index, 4);
    s.push('.');
    s.append(ext);
    s
}

/// The path of the file `{index:04}.{ext}` inside `dir` (`dir.join(..)`).
pub fn numbered_file(dir: &str, index: u64, ext: &str) -> (s: String)
    ensures
        s@ == join(dir@, numbered_name(index as nat, ext@)),
{
    let name = numbered_file_name(index, ext);
    join_path(dir, name.as_str())
}

/// `format!("{}/{:04}.{}", dir, index, ext)`.
pub fn slash_numbered_file(dir: &str, index: u64, ext: &str) -> (s: String)
    ensures
        s@ == slash_numbered(dir@, index as nat, ext@),
{
    let name = numbered_file_name(index, ext);
    let mut s = String::from_str(dir);
    s.push('/');
    s.append(name.as_str());
    s
}

proof fn lemma_digit_value(d: int)
    requires
        0 <= d < 10,
    ensures
        digit_value(decimal_digit(d)) == d,
{
}

pub proof fn lemma_decimal_value(n: nat)
    ensures
        decimal_value(decimal(n)) == n,
        decimal(n).len() > 0,
    decreases n,
{
    lemma_digit_value((n % 10) as int);
    if n < 10 {
        let d = decimal(n);
        assert(d.drop_last() =~= Seq::<char>::empty());
        assert(decimal_value(Seq::<char>::empty()) == 0);
    } else {
        lemma_decimal_value(n / 10);
        let d = decimal(n);
        assert(d.drop_last() =~= decimal(n / 10));
    }
}

proof fn lemma_zeros_value(k: nat)
    ensures
        decimal_value(Seq::new(k, |i: int| '0')) == 0,
    decreases k,
{
    if k > 0 {
        assert(Seq::new(k, |i: int| '0').drop_last() =~= Seq::new((k - 1) as nat, |i: int| '0'));
        lemma_zeros_value((k - 1) as nat);
    }
}

proof fn lemma_leading_zeros_value(k: nat, d: Seq<char>)
    ensures
        decimal_value(Seq::new(k, |i: int| '0') + d) == decimal_value(d),
    decreases d.len(),
{
    let z = Seq::new(k, |i: int| '0');
    if d.len() == 0 {
        assert(z + d =~= z);
        lemma_zeros_value(k);
    } else {
        assert((z + d).drop_last() =~= z + d.drop_last());
        lemma_leading_zeros_value(k, d.drop_last());
    }
}

/// The index can be read back from a zero-padded name.
pub proof fn lemma_zero_padded_value(n: nat, width: nat)
    ensures
        decimal_value(zero_padded(n, width)) == n,
{
    lemma_decimal_value(n);
    let d = decimal(n);
    if d.len() < width {
        lemma_leading_zeros_value((width - d.len()) as nat, d);
    }
}

/// Different indices give different zero-padded names, so no two files of a
/// numbered series share a name.
pub proof fn lemma_zero_padded_injective(a: nat, b: nat, width: nat)
    requires
        zero_padded(a, width) == zero_padded(b, width),
    ensures
        a == b,
{
    lemma_zero_padded_value(a, width);
    lemma_zero_padded_value(b, width);
}

/// Different indices give different file names `{i:04}.{ext}`.
pub proof fn lemma_numbered_name_injective(a: nat, b: nat, ext: Seq<char>)
    requires
        numbered_name(a, ext) == numbered_name(b, ext),
    ensures
        a == b,
{
    let za = zero_padded(a, 4);
    let zb = zero_padded(b, 4);
    let x = numbered_name(a, ext);
    assert(x.len() == za.len() + 1 + ext.len());
    assert(numbered_name(b, ext).len() == zb.len() + 1 + ext.len());
    assert(za =~= x.subrange(0, za.len() as int));
    assert(zb =~= numbered_name(b, ext).subrange(0, zb.len() as int));
    lemma_zero_padded_injective(a, b, 4);
}

/// Indices below 10000 give names of exactly four digits.
pub proof fn lemma_zero_padded_four(n: nat)
    requires
        n < 10000,
    ensures
        zero_padded(n, 4).len() == 4,
{
    lemma_decimal_len(n);
}

proof fn lemma_decimal_len(n: nat)
    ensures
        n < 10 ==> decimal(n).len() == 1,
        n < 100 ==> decimal(n).len() <= 2,
        n < 1000 ==> decimal(n).len() <= 3,
        n < 10000 ==> decimal(n).len() <= 4,
    decreases n,
{
    if n >= 10 {
        lemma_decimal_len(n / 10);
    }
}

/// The digit characters are the ASCII codes 48 to 57.
pub proof fn lemma_decimal_digit_code(d: int)
    requires
        0 <= d < 10,
    ensures
        decimal_digit(d) as int == 48 + d,
{
}

proof fn lemma_four_digits(i: nat)
    requires
        i < 10000,
    ensures
        zero_padded(i, 4) == seq![
            decimal_digit((i / 1000) as int),
            decimal_digit(((i / 100) % 10) as int),
            decimal_digit(((i / 10) % 10) as int),
            decimal_digit((i % 10) as int),
        ],
{
    let z = '0';
    assert(decimal_digit(0) == z);
    if i < 10 {
        assert(decimal(i) =~= seq![decimal_digit(i as int)]);
        assert(zero_padded(i, 4) =~= seq![z, z, z, decimal_digit(i as int)]);
    } else if i < 100 {
        let a = (i / 10) as nat;
        assert(a < 10);
        assert(decimal(a) =~= seq![decimal_digit(a as int)]);
        assert(decimal(i) =~= seq![decimal_digit(a as int), decimal_digit((i % 10) as int)]);
        assert(zero_padded(i, 4) =~= seq![z, z, decimal_digit(a as int), decimal_digit((i % 10) as int)]);
    } else if i < 1000 {
        let a = (i / 10) as nat;
        let b = (a / 10) as nat;
        assert(b == i / 100);
        assert(b < 10);
        assert(decimal(b) =~= seq![decimal_digit(b as int)]);
        assert(decimal(a) =~= seq![decimal_digit(b as int), decimal_digit((a % 10) as int)]);
        assert(decimal(i) =~= seq![decimal_digit(b as int), decimal_digit((a % 10) as int), decimal_digit((i % 10) as int)]);
        assert(zero_padded(i, 4) =~= seq![z, decimal_digit(b as int), decimal_digit((a % 10) as int), decimal_digit((i % 10) as int)]);
    } else {
        let a = (i / 10) as nat;
        let b = (a / 10) as nat;
        let c = (b / 10) as nat;
        assert(b == i / 100);
        assert(c == i / 1000);
        assert(c < 10);
        assert(decimal(c) =~= seq![decimal_digit(c as int)]);
        assert(decimal(b) =~= seq![decimal_digit(c as int), decimal_digit((b % 10) as int)]);
        assert(decimal(a) =~= seq![decimal_digit(c as int), decimal_digit((b % 10) as int), decimal_digit((a % 10) as int)]);
        assert(decimal(i) =~= seq![
            decimal_digit(c as int),
            decimal_digit((b % 10) as int),
            decimal_digit((a % 10) as int),
            decimal_digit((i % 10) as int),
        ]);
    }
}

/// An index below 10000 is written with exactly four decimal digits, most
/// significant first and zero-padded on the left, followed by `.` and the
/// extension.
pub proof fn lemma_numbered_name_digits(i: nat, ext: Seq<char>)
    requires
        i < 10000,
    ensures
        numbered_name(i, ext).len() == 5 + ext.len(),
        numbered_name(i, ext)[0] as int == 48 + i / 1000,
        numbered_name(i, ext)[1] as int == 48 + (i / 100) % 10,
        numbered_name(i, ext)[2] as int == 48 + (i / 10) % 10,
        numbered_name(i, ext)[3] as int == 48 + i % 10,
        numbered_name(i, ext)[4] == '.',
        numbered_name(i, ext).subrange(5, 5 + ext.len() as int) == ext,
{
    lemma_four_digits(i);
    lemma_decimal_digit_code((i / 1000) as int);
    lemma_decimal_digit_code(((i / 100) % 10) as int);
    lemma_decimal_digit_code(((i / 10) % 10) as int);
    lemma_decimal_digit_code((i % 10) as int);
    let n = numbered_name(i, ext);
    assert(n.subrange(5, 5 + ext.len() as int) =~= ext);
}

} // verus!
