//! Integer biquad IIR filter in signed Q2.30 fixed point.
//!
//! A coefficient vector holds `[b0, b1, b2, a1, a2]`, a state vector holds
//! `[x0, x1, y0, y1, y2]`. One update shifts the history, forms the
//! multiply-accumulate of state and coefficients in 64 bits with a rounding
//! bias, and narrows the shifted sum back to 32 bits.

use crate::wrapping::asr;
use crate::wrapping::lemma_asr_unique;
use crate::wrapping::lemma_narrow;
use crate::wrapping::lemma_shl_i64;
use crate::wrapping::lemma_shr_i64;
use crate::wrapping::lemma_wrap32;
use crate::wrapping::lemma_wrap64;
use crate::wrapping::lemma_wrap64_absorb;
use crate::wrapping::lemma_wrapping_i32;
use crate::wrapping::lemma_wrapping_i64;
use crate::wrapping::wrap32;
use crate::wrapping::wrap64;
use vstd::arithmetic::div_mod::lemma_fundamental_div_mod;
use vstd::arithmetic::div_mod::lemma_mod_bound;
use vstd::arithmetic::power2::lemma2_to64;
use vstd::arithmetic::power2::pow2;
use vstd::prelude::*;

verus! {

/// The sum of the first `n` pairwise products of `x` and `a`.
pub open spec fn dot_prefix(x: Seq<i32>, a: Seq<i32>, n: nat) -> int
    decreases n,
{
    if n == 0 {
        0
    } else {
        dot_prefix(x, a, (n - 1) as nat) + x[n - 1] * a[n - 1]
    }
}

/// The sum of the pairwise products of `x` and `a`, over the indices that
/// both have.
pub open spec fn dot(x: Seq<i32>, a: Seq<i32>) -> int {
    dot_prefix(
        x,
        a,
        if x.len() <= a.len() {
            x.len()
        } else {
            a.len()
        },
    )
}

/// The 64-bit accumulator of a multiply-accumulate: the start value scaled
/// by 2^`shift`, plus half of 2^`shift` as rounding bias, plus the sum of
/// products, wrapped to 64 bits.
pub open spec fn macc_accumulator(y0: int, x: Seq<i32>, a: Seq<i32>, shift: nat) -> int {
    wrap64(y0 * pow2(shift) + pow2((shift - 1) as nat) + dot(x, a))
}

/// The result of a multiply-accumulate: the accumulator divided by
/// 2^`shift`, rounded down, narrowed to 32 bits.
pub open spec fn macc_spec(y0: int, x: Seq<i32>, a: Seq<i32>, shift: nat) -> int {
    wrap32(asr(macc_accumulator(y0, x, a, shift), shift))
}

/// The product of two 32-bit values fits in 64 bits.
proof fn lemma_product_fits(p: i32, q: i32)
    ensures
        i64::MIN <= p * q <= i64::MAX,
{
    assert(-0x4000_0000_0000_0000 <= p * q <= 0x4000_0000_0000_0000) by (nonlinear_arith)
        requires
            -0x8000_0000 <= p <= 0x7fff_ffff,
            -0x8000_0000 <= q <= 0x7fff_ffff,
    ;
}

/// Multiply-accumulate with rounding: `y0 + sum(x[i] * a[i]) / 2^shift`,
/// rounded half up, in 64-bit wrapping arithmetic, narrowed to 32 bits.
pub fn macc(y0: i32, x: &[i32], a: &[i32], shift: u32) -> (y: i32)
    requires
        1 <= shift <= 63,
    ensures
        y as int == macc_spec(y0 as int, x@, a@, shift as nat),
{
    let n: usize = if x.len() <= a.len() {
        x.len()
    } else {
        a.len()
    };
    let start: i64 = (y0 as i64) << shift;
    let bias: i64 = 1i64 << (shift - 1);
    let mut acc: i64 = start.wrapping_add(bias);
    let ghost base: int = y0 * pow2(shift as nat) + pow2((shift - 1) as nat);
    proof {
        lemma_shl_i64(y0 as i64, shift);
        lemma_shl_i64(1i64, (shift - 1) as u32);
        lemma_wrapping_i64(start, bias);
        let hi: int = y0 * pow2(shift as nat);
        let lo: int = 1i64 * pow2((shift - 1) as nat);
        lemma_wrap64_absorb(hi, lo);
        lemma_wrap64_absorb(wrap64(hi), lo);
        assert(acc as int == wrap64(base + 0));
    }
    let mut i: usize = 0;
    while i < n
        invariant
            i <= n,
            n <= x.len(),
            n <= a.len(),
            acc as int == wrap64(base + dot_prefix(x@, a@, i as nat)),
        decreases n - i,
    {
        proof {
            lemma_product_fits(x[i as int], a[i as int]);
        }
        let xa: i64 = (x[i] as i64) * (a[i] as i64);
        proof {
            lemma_wrapping_i64(acc, xa);
            lemma_wrap64_absorb(base + dot_prefix(x@, a@, i as nat), xa as int);
        }
        acc = acc.wrapping_add(xa);
        i = i + 1;
    }
    proof {
        lemma_shr_i64(acc, shift);
        lemma_narrow(acc >> shift);
    }
    #[verifier::truncate]
    ((acc >> shift) as i32)
}

/// Generic vector for the integer IIR filter: it holds either the state
/// `[x0, x1, y0, y1, y2]` or the coefficients `[b0, b1, b2, a1, a2]`.
#[derive(Copy, Clone)]
pub struct Vec5(pub [i32; 5]);

impl View for Vec5 {
    type V = Seq<i32>;

    open spec fn view(&self) -> Seq<i32> {
        self.0@
    }
}

impl Default for Vec5 {
    /// The all-zero vector: a filter at rest, or a filter that blocks.
    fn default() -> (r: Self)
        ensures
            r@ == seq![0i32, 0i32, 0i32, 0i32, 0i32],
    {
        Vec5([0, 0, 0, 0, 0])
    }
}

/// Integer biquad IIR section. Offset and limiting are not part of it: the
/// filter is linear up to rounding and wrapping.
#[derive(Copy, Clone)]
pub struct IIR {
    /// Coefficients `[b0, b1, b2, a1, a2]` in signed Q2.30.
    pub ba: Vec5,
}

impl Default for IIR {
    /// The filter whose coefficients are all zero.
    fn default() -> (r: Self)
        ensures
            r.ba@ == seq![0i32, 0i32, 0i32, 0i32, 0i32],
    {
        IIR { ba: Vec5::default() }
    }
}

impl IIR {
    /// The history that the multiply-accumulate reads when `x0` arrives at
    /// state `xy`: the new input, the two inputs before it, and the two
    /// latest outputs.
    pub open spec fn taps(xy: Seq<i32>, x0: i32) -> Seq<i32> {
        seq![x0, xy[0], xy[1], xy[2], xy[3]]
    }

    /// The output for input `x0` at state `xy`.
    pub open spec fn output(&self, xy: Seq<i32>, x0: i32) -> int {
        macc_spec(0, Self::taps(xy, x0), self.ba@, Self::SHIFT as nat)
    }

    /// The state after input `x0` at state `xy` gave output `y0`: the new
    /// output takes the place of the oldest input.
    pub open spec fn next_state(xy: Seq<i32>, x0: i32, y0: i32) -> Seq<i32> {
        seq![x0, xy[0], y0, xy[2], xy[3]]
    }

    /// Coefficient fixed point format: signed Q2.30.
    /// Tailored to low-passes, PI, II etc.
    pub const SHIFT: u32 = 30;

    /// Feed a new input value into the filter, update the filter state, and
    /// return the new output. Only the state `xy` is modified.
    pub fn update(&self, xy: &mut Vec5, x0: i32) -> (y0: i32)
        ensures
            y0 as int == self.output(old(xy)@, x0),
            final(xy)@ == Self::next_state(old(xy)@, x0, y0),
    {
        // `xy` contains       x0 x1 y0 y1 y2
        // Increment time      x1 x2 y1 y2 y3
        // Shift and store x0  x0 x1 x2 y1 y2
        let shifted: [i32; 5] = [x0, xy.0[0], xy.0[1], xy.0[2], xy.0[3]];
        assert(shifted@ =~= Self::taps(xy@, x0));
        // Compute y0 by multiply-accumulate
        let y0 = macc(0, &shifted, &self.ba.0, Self::SHIFT);
        // Store y0            x0 x1 y0 y1 y2
        xy.0 = [shifted[0], shifted[1], y0, shifted[3], shifted[4]];
        assert(xy@ =~= Self::next_state(old(xy)@, x0, y0));
        y0
    }
}

impl Vec5 {
    /// Assemble the coefficients of a lowpass biquad from its three
    /// quantised terms: the forward gain `b0` and the feedback terms `a1`
    /// and `a2`, all in Q2.30. The middle forward coefficient is twice `b0`
    /// in wrapping arithmetic, the last one equals `b0`.
    pub fn from_lowpass_terms(b0: i32, a1: i32, a2: i32) -> (ba: Self)
        ensures
            ba@.len() == 5,
            ba@[0] == b0,
            ba@[1] as int == wrap32(2 * b0),
            -0x4000_0000 <= b0 < 0x4000_0000 ==> ba@[1] == 2 * b0,
            ba@[2] == b0,
            ba@[3] == a1,
            ba@[4] == a2,
    {
        proof {
            lemma_wrapping_i32(b0, b0);
            lemma_wrap32(2 * b0);
        }
        Vec5([b0, b0.wrapping_add(b0), b0, a1, a2])
    }
}

/// Where the exact accumulator fits in 64 bits, the multiply-accumulate is
/// the exact sum divided by 2^`shift`, rounded half up, narrowed to 32 bits.
pub proof fn lemma_macc_without_overflow(y0: int, x: Seq<i32>, a: Seq<i32>, shift: nat)
    requires
        i64::MIN <= y0 * pow2(shift) + pow2((shift - 1) as nat) + dot(x, a) <= i64::MAX,
    ensures
        macc_spec(y0, x, a, shift) == wrap32(
            asr(y0 * pow2(shift) + pow2((shift - 1) as nat) + dot(x, a), shift),
        ),
{
    lemma_wrap64(y0 * pow2(shift) + pow2((shift - 1) as nat) + dot(x, a));
}

/// The accumulator that a filter at rest on input `v` and output `y` forms:
/// the forward gain times `v`, the feedback gain times `y`, and the
/// rounding bias.
pub open spec fn dc_accumulator(iir: IIR, v: i32, y: i32) -> int {
    (iir.ba@[0] + iir.ba@[1] + iir.ba@[2]) * v + (iir.ba@[3] + iir.ba@[4]) * y + 0x2000_0000
}

/// A constant input `v` with a constant output `y` is a steady state of
/// the filter exactly where `y` is the rounded response to `v`: where the
/// accumulator lies in `[y * 2^30, (y + 1) * 2^30)`. So an output that has
/// settled differs from the exact response
/// `v * (b0 + b1 + b2) / (2^30 - a1 - a2)` by at most
/// `2^29 / (2^30 - a1 - a2)`. From a steady state the next output is `y`
/// again and the state does not change. The accumulator must be small
/// enough for its quotient to fit in 32 bits.
pub proof fn lemma_dc_steady_state(iir: IIR, v: i32, y: i32)
    requires
        -0x2000_0000_0000_0000 <= dc_accumulator(iir, v, y) < 0x2000_0000_0000_0000,
    ensures
        iir.output(seq![v, v, y, y, y], v) == y <==> y * 0x4000_0000 <= dc_accumulator(iir, v, y)
            < (y + 1) * 0x4000_0000,
        IIR::next_state(seq![v, v, y, y, y], v, y) == seq![v, v, y, y, y],
{
    let ba = iir.ba@;
    let xy = seq![v, v, y, y, y];
    let taps = IIR::taps(xy, v);
    lemma2_to64();
    assert(ba.len() == 5);
    assert(taps.len() == 5);
    reveal_with_fuel(dot_prefix, 6);
    let sum = taps[0] * ba[0] + taps[1] * ba[1] + taps[2] * ba[2] + taps[3] * ba[3] + taps[4]
        * ba[4];
    assert(dot(taps, ba) == sum);
    let acc = dc_accumulator(iir, v, y);
    assert(sum + 0x2000_0000 == acc) by (nonlinear_arith)
        requires
            sum == v * ba[0] + v * ba[1] + v * ba[2] + y * ba[3] + y * ba[4],
            acc == (ba[0] + ba[1] + ba[2]) * v + (ba[3] + ba[4]) * y + 0x2000_0000,
    ;
    assert(0 * pow2(30) == 0);
    assert(pow2(29) == 0x2000_0000);
    assert(pow2(30) == 0x4000_0000);
    lemma_wrap64(acc);
    assert(macc_accumulator(0, taps, ba, 30) == acc);
    let q = asr(acc, 30);
    lemma_fundamental_div_mod(acc, 0x4000_0000);
    lemma_mod_bound(acc, 0x4000_0000);
    assert(acc == 0x4000_0000 * q + acc % 0x4000_0000);
    assert(i32::MIN <= q <= i32::MAX);
    lemma_wrap32(q);
    assert(iir.output(xy, v) == q);
    if y * 0x4000_0000 <= acc < (y + 1) * 0x4000_0000 {
        lemma_asr_unique(acc, 30, y as int, acc - y * 0x4000_0000);
    }
    assert(IIR::next_state(xy, v, y) =~= xy);
}

} // verus!
