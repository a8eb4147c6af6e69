//! Which decoded frames are kept. The extractors decode every frame of the
//! video stream and keep one in `stride` (the 1st, the `stride+1`-th, ...),
//! numbering the kept frames 0, 1, 2, ... for their file names. The decoder
//! loop itself runs outside; it reports each decoded frame to a
//! `FrameSampler` and is told whether to keep it and under which number.

use vstd::prelude::*;
use vstd::arithmetic::div_mod::{lemma_fundamental_div_mod, lemma_fundamental_div_mod_converse};

verus! {

/// Number of frames kept among the first `n` when one in `stride` is kept,
/// starting with the first: `ceil(n / stride)`.
pub open spec fn kept_before(stride: nat, n: nat) -> nat {
    ((n + stride - 1) / (stride as int)) as nat
}

/// Whether the frame with (0-based) number `frame` is kept.
pub open spec fn is_kept(stride: nat, frame: nat) -> bool {
    frame % stride == 0
}

/// The state of a sampler: its stride, how many frames it has seen and how
/// many of them it kept.
pub struct SamplerView {
    pub stride: nat,
    pub seen: nat,
    pub kept: nat,
}

/// The sampler state is consistent: a positive stride, and exactly the
/// frames numbered by multiples of the stride have been kept.
pub open spec fn sampler_wf(v: SamplerView) -> bool {
    v.stride > 0 && v.kept == kept_before(v.stride, v.seen)
}

pub struct FrameSampler {
    stride: u64,
    seen: u64,
    kept: u64,
}

impl View for FrameSampler {
    type V = SamplerView;

    closed spec fn view(&self) -> SamplerView {
        SamplerView { stride: self.stride as nat, seen: self.seen as nat, kept: self.kept as nat }
    }
}

/// One more frame adds one to the kept count exactly when its number is a
/// multiple of the stride.
pub proof fn lemma_kept_step(stride: nat, n: nat)
    requires
        stride > 0,
    ensures
        kept_before(stride, n + 1) == kept_before(stride, n) + (if is_kept(stride, n) { 1nat } else { 0nat }),
        is_kept(stride, n) ==> kept_before(stride, n) == n / stride,
{
    let s = stride as int;
    let x = n as int;
    lemma_fundamental_div_mod(x, s);
    let q = x / s;
    let r = x % s;
    assert(0 <= r < s);
    assert(x == q * s + r) by (nonlinear_arith)
        requires
            x == s * q + r,
    ;
    assert((q + 1) * s == q * s + s) by (nonlinear_arith);
    assert(q >= 0) by (nonlinear_arith)
        requires
            x >= 0,
            s > 0,
            q == x / s,
    ;
    if r == 0 {
        lemma_fundamental_div_mod_converse(x + s - 1, s, q, s - 1);
        lemma_fundamental_div_mod_converse(x + 1 + s - 1, s, q + 1, 0);
    } else {
        lemma_fundamental_div_mod_converse(x + s - 1, s, q + 1, r - 1);
        lemma_fundamental_div_mod_converse(x + 1 + s - 1, s, q + 1, r);
    }
}

impl FrameSampler {
    #[verifier::type_invariant]
    spec fn inv(self) -> bool {
        sampler_wf(self@)
    }

    /// A sampler that keeps one frame in `stride`, having seen none.
    pub fn new(stride: u64) -> (s: FrameSampler)
        requires
            stride > 0,
        ensures
            s@ == (SamplerView { stride: stride as nat, seen: 0, kept: 0 }),
            sampler_wf(s@),
    {
        proof {
            lemma_fundamental_div_mod_converse(stride - 1, stride as int, 0, stride - 1);
        }
        FrameSampler { stride, seen: 0, kept: 0 }
    }

    /// Reports one decoded frame. Returns the number under which to keep
    /// it, or `None` to drop it. The frame numbered `c` (counting from 0) is
    /// kept exactly when `c` is a multiple of the stride, as number
    /// `c / stride`, which is the count of frames kept before it.
    pub fn on_frame(&mut self) -> (r: Option<u64>)
        requires
            old(self)@.seen < u64::MAX,
        ensures
            final(self)@.stride == old(self)@.stride,
            final(self)@.seen == old(self)@.seen + 1,
            r == (if is_kept(old(self)@.stride, old(self)@.seen) {
                Some((old(self)@.seen / old(self)@.stride) as u64)
            } else {
                None::<u64>
            }),
            r matches Some(i) ==> i == old(self)@.kept,
            r is Some <==> old(self)@.seen % old(self)@.stride == 0,
            r matches Some(i) ==> i == old(self)@.seen / old(self)@.stride,
            final(self)@.kept * final(self)@.stride >= final(self)@.seen,
            final(self)@.kept * final(self)@.stride < final(self)@.seen + final(self)@.stride,
            final(self)@.kept == old(self)@.kept + (if r is Some { 1nat } else { 0nat }),
            sampler_wf(old(self)@),
            sampler_wf(final(self)@),
    {
        proof {
            use_type_invariant(&*self);
            lemma_kept_step(self.stride as nat, self.seen as nat);
            lemma_keeps_every_multiple(self.stride as nat, self.seen as nat);
            lemma_keeps_every_multiple(self.stride as nat, (self.seen + 1) as nat);
        }
        let stride = self.stride;
        let seen = self.seen;
        let kept = self.kept;
        proof {
            assert(kept <= seen) by (nonlinear_arith)
                requires
                    stride > 0,
                    kept == (seen + stride - 1) / (stride as int),
            ;
        }
        if seen % stride == 0 {
            *self = FrameSampler { stride, seen: seen + 1, kept: kept + 1 };
            Some(kept)
        } else {
            *self = FrameSampler { stride, seen: seen + 1, kept };
            None
        }
    }

    /// The number of frames kept so far.
    pub fn kept(&self) -> (k: u64)
        ensures
            k == self@.kept,
            sampler_wf(self@),
    {
        proof {
            use_type_invariant(self);
        }
        self.kept
    }

    /// The number of frames seen so far.
    pub fn seen(&self) -> (k: u64)
        ensures
            k == self@.seen,
            sampler_wf(self@),
    {
        proof {
            use_type_invariant(self);
        }
        self.seen
    }
}

/// Kept frames are numbered without gaps: after `n` frames the kept ones
/// are numbered `0 .. kept_before(stride, n)`, and a frame's number is the
/// count of frames kept before it.
pub proof fn lemma_kept_numbers_consecutive(stride: nat, c: nat)
    requires
        stride > 0,
        is_kept(stride, c),
    ensures
        c / stride == kept_before(stride, c),
        kept_before(stride, c + 1) == c / stride + 1,
{
    lemma_kept_step(stride, c);
}

/// The first frame is always kept, and with stride 1 every frame is.
pub proof fn lemma_first_and_every(stride: nat, c: nat)
    requires
        stride > 0,
    ensures
        is_kept(stride, 0),
        stride == 1 ==> is_kept(stride, c),
{
}

/// Every frame whose number is a multiple of the stride is kept, however
/// far into the video, and no other; after `n` frames the kept count is
/// the least `k` with `k * stride >= n` (that is, `ceil(n / stride)`).
pub proof fn lemma_keeps_every_multiple(stride: nat, n: nat)
    requires
        stride > 0,
    ensures
        is_kept(stride, n) <==> n % stride == 0,
        kept_before(stride, n) * stride >= n,
        kept_before(stride, n) * stride < n + stride,
{
    let s = stride as int;
    let x = n + s - 1;
    lemma_fundamental_div_mod(x, s);
    let q = x / s;
    let r = x % s;
    assert(0 <= r < s);
    assert(q >= 0) by (nonlinear_arith)
        requires
            x >= 0,
            s > 0,
            q == x / s,
    ;
    assert(q * s == x - r) by (nonlinear_arith)
        requires
            x == s * q + r,
    ;
    assert(kept_before(stride, n) == q);
}

} // verus!
