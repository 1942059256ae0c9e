//! Lock acquisition of the phase-locked loop, as laws over its model.
//!
//! For a phase that advances by a constant increment per sample the
//! filtered frequency approaches the increment geometrically, with a time
//! constant of 2^`shift` updates, until it is within rounding. The phase
//! correction then takes the remaining offset out of the output phase, with
//! a time constant of 2^(`shift` - 1) updates. When both are in balance the
//! loop is locked: it reports the increment exactly and stays locked.

use crate::pll::ramp;
use crate::pll::PllModel;
use crate::wrapping::asr;
use crate::wrapping::lemma_asr_unique;
use crate::wrapping::lemma_wrap32;
use crate::wrapping::lemma_wrap32_absorb;
use crate::wrapping::lemma_wrap32_replace;
use crate::wrapping::wrap32;
use vstd::arithmetic::div_mod::lemma_fundamental_div_mod;
use vstd::arithmetic::div_mod::lemma_mod_bound;
use vstd::arithmetic::power::lemma_pow_positive;
use vstd::arithmetic::power::pow;
use vstd::arithmetic::power2::lemma2_to64;
use vstd::arithmetic::power2::lemma_pow2_pos;
use vstd::arithmetic::power2::lemma_pow2_strictly_increases;
use vstd::arithmetic::power2::lemma_pow2_unfold;
use vstd::arithmetic::power2::pow2;
use vstd::prelude::*;

verus! {

/// Powers of two below the sign bit: for `1 <= shift <= 30` the bias is
/// 2^`shift` itself and half the bias is 2^(`shift` - 1).
pub proof fn lemma_bias(shift: nat)
    requires
        1 <= shift <= 30,
    ensures
        pow2(shift) == 2 * pow2((shift - 1) as nat),
        1 <= pow2((shift - 1) as nat) <= 0x2000_0000,
        PllModel::bias(shift) == pow2(shift),
        PllModel::half_bias(shift) == pow2((shift - 1) as nat),
{
    let h = (shift - 1) as nat;
    lemma2_to64();
    lemma_pow2_unfold(shift);
    lemma_pow2_pos(h);
    if h < 29 {
        lemma_pow2_strictly_increases(h, 29);
    }
    lemma_wrap32(pow2(shift) as int);
    lemma_asr_unique(pow2(shift) as int, 1, pow2(h) as int, 0);
}

/// One update never lets the frequency error grow, and shrinks it
/// geometrically: with `g` the error before and `g2` the error after an
/// update whose input keeps the phase increment,
/// `2^shift * g2 = (2^shift - 1) * g` up to half a rounding step. So the
/// error decays with a time constant of 2^`shift` updates until it is
/// within rounding. The error must leave room for the rounding bias below
/// the wrap point.
pub proof fn lemma_frequency_error_contracts(m: PllModel, input: int, shift: nat)
    requires
        1 <= shift <= 30,
        m.wf(),
        i32::MIN <= input <= i32::MAX,
        m.frequency_error(input) < 0x8000_0000 - pow2((shift - 1) as nat),
    ensures
        ({
            let g = m.frequency_error(input);
            let g2 = wrap32(m.increment(input) - m.next_frequency(input, shift));
            &&& g2 == g - asr(g + pow2((shift - 1) as nat), shift)
            &&& g >= 0 ==> 0 <= g2 <= g
            &&& g <= 0 ==> g <= g2 <= 0
            &&& g >= pow2((shift - 1) as nat) ==> g2 < g
            &&& g < -pow2((shift - 1) as nat) ==> g2 > g
            &&& -pow2((shift - 1) as nat) <= pow2(shift) * g2 - (pow2(shift) - 1) * g < pow2(
                (shift - 1) as nat,
            )
        }),
{
    let d = pow2(shift) as int;
    let half = pow2((shift - 1) as nat) as int;
    let delta = m.increment(input);
    let g = m.frequency_error(input);
    lemma_bias(shift);
    lemma_wrap32(input - m.x);
    lemma_wrap32(delta - m.f);
    lemma_wrap32(g);
    lemma_wrap32(delta);
    // The rounding term sees the frequency error plus half the bias.
    assert(wrap32(half + input - m.f - m.x) == half + g) by {
        lemma_wrap32_replace(input - m.x, delta, half - m.f);
        lemma_wrap32_replace(delta - m.f, g, half);
        lemma_wrap32(half + g);
    }
    let q = asr(half + g, shift);
    lemma_fundamental_div_mod(half + g, d);
    let r = (half + g) % d;
    assert(0 <= r < d) by {
        lemma_mod_bound(half + g, d);
    }
    assert(half + g == d * q + r);
    assert(d * (g - q) - (d - 1) * g == r - half) by (nonlinear_arith)
        requires
            half + g == d * q + r,
    ;
    assert(g >= 0 ==> 0 <= q <= g) by (nonlinear_arith)
        requires
            half + g == d * q + r,
            0 <= r < d,
            d == 2 * half,
            half >= 1,
    ;
    assert(g <= 0 ==> g <= q <= 0) by (nonlinear_arith)
        requires
            half + g == d * q + r,
            0 <= r < d,
            d == 2 * half,
            half >= 1,
    ;
    assert(g >= half ==> q >= 1) by (nonlinear_arith)
        requires
            half + g == d * q + r,
            0 <= r < d,
            d == 2 * half,
            half >= 1,
    ;
    assert(g < -half ==> q <= -1) by (nonlinear_arith)
        requires
            half + g == d * q + r,
            0 <= r < d,
            d == 2 * half,
            half >= 1,
    ;
    let f2 = m.next_frequency(input, shift);
    assert(f2 == wrap32(m.f + q));
    assert(wrap32(delta - f2) == g - q) by {
        lemma_wrap32_absorb(delta, m.f + q);
        lemma_wrap32_replace(delta - m.f, g, -q);
        lemma_wrap32(g - q);
    }
}

/// A locked loop stays locked and reports the exact frequency: where the
/// loop is locked to the phase increment that `input` makes, the output
/// frequency of the update is that increment, the filtered frequency does
/// not move, the output phase advances by the increment, and the new state
/// is locked to the same increment again.
pub proof fn lemma_lock_holds(m: PllModel, input: int, shift: nat)
    requires
        1 <= shift <= 30,
        i32::MIN <= input <= i32::MAX,
        m.locked(m.increment(input), shift),
    ensures
        m.output_frequency(input, shift) == m.increment(input),
        m.next_frequency(input, shift) == m.f,
        m.output_phase(input, shift) == wrap32(m.y + m.increment(input)),
        m.step(input, shift).locked(m.increment(input), shift),
{
    let d = pow2(shift) as int;
    let half = pow2((shift - 1) as nat) as int;
    let delta = m.increment(input);
    let g = wrap32(delta - m.f);
    lemma_bias(shift);
    lemma_wrap32(g);
    lemma_wrap32(delta);
    lemma_wrap32(input - m.x);
    lemma_wrap32(m.f);
    assert(wrap32(half + input - m.f - m.x) == half + g) by {
        lemma_wrap32_replace(input - m.x, delta, half - m.f);
        lemma_wrap32_replace(delta - m.f, g, half);
        lemma_wrap32(half + g);
    }
    lemma_asr_unique(half + g, shift, 0, half + g);
    assert(m.next_frequency(input, shift) == m.f);
    assert(wrap32(d + input - m.f - m.y) == wrap32(d + m.x + g - m.y)) by {
        lemma_wrap32_replace(input - m.x, delta, d + m.x - m.f - m.y);
        lemma_wrap32_replace(delta - m.f, g, d + m.x - m.y);
    }
    assert(m.output_frequency(input, shift) == wrap32(m.f + g));
    assert(wrap32(m.f + g) == delta) by {
        lemma_wrap32_replace(g, delta - m.f, m.f);
    }
    let y2 = wrap32(m.y + delta);
    lemma_wrap32(m.y + delta);
    let m2 = m.step(input, shift);
    assert(m2.x == input && m2.f == m.f && m2.y == y2);
    assert(wrap32(d + input + g - y2) == wrap32(d + m.x + g - m.y)) by {
        lemma_wrap32_absorb(d + input + g, m.y + delta);
        lemma_wrap32_replace(delta, input - m.x, d + input + g - m.y);
    }
}

/// Along a phase ramp every sample makes the same phase increment over the
/// sample before it, and the state stays in the 32-bit range.
pub proof fn lemma_track_increment(m: PllModel, start: int, delta: int, shift: nat, n: nat)
    requires
        m.wf(),
        i32::MIN <= delta <= i32::MAX,
        m.increment(ramp(start, delta, 0)) == delta,
    ensures
        m.track(start, delta, shift, n).wf(),
        m.track(start, delta, shift, n).increment(ramp(start, delta, n)) == delta,
        n > 0 ==> m.track(start, delta, shift, n).x == ramp(start, delta, (n - 1) as nat),
    decreases n,
{
    if n > 0 {
        let k = (n - 1) as nat;
        let prev = m.track(start, delta, shift, k);
        lemma_track_increment(m, start, delta, shift, k);
        let input = ramp(start, delta, k);
        let now = prev.step(input, shift);
        lemma_wrap32(start + k * delta);
        let half = PllModel::half_bias(shift);
        lemma_wrap32(prev.f + asr(wrap32(half + input - prev.f - prev.x), shift));
        lemma_wrap32(prev.y + prev.output_frequency(input, shift));
        assert(now.wf());
        assert(n * delta == k * delta + delta) by (nonlinear_arith)
            requires
                n == k + 1,
        ;
        assert(wrap32(ramp(start, delta, n) - input) == delta) by {
            lemma_wrap32_absorb(start + n * delta, start + k * delta);
            lemma_wrap32_absorb(start + n * delta, ramp(start, delta, k));
            lemma_wrap32(delta);
        }
    }
}

/// A locked loop stays locked for as long as the input keeps its phase
/// increment: after any number of samples of the ramp the loop is still
/// locked, its filtered frequency has not moved, and the next output
/// frequency is the increment exactly.
pub proof fn lemma_lock_holds_forever(m: PllModel, start: int, delta: int, shift: nat, n: nat)
    requires
        1 <= shift <= 30,
        i32::MIN <= delta <= i32::MAX,
        m.increment(ramp(start, delta, 0)) == delta,
        m.locked(delta, shift),
    ensures
        m.track(start, delta, shift, n).locked(delta, shift),
        m.track(start, delta, shift, n).f == m.f,
        m.track(start, delta, shift, n).output_frequency(ramp(start, delta, n), shift) == delta,
    decreases n,
{
    lemma_track_increment(m, start, delta, shift, n);
    if n > 0 {
        let k = (n - 1) as nat;
        lemma_lock_holds_forever(m, start, delta, shift, k);
        lemma_track_increment(m, start, delta, shift, k);
        lemma_wrap32(start + k * delta);
        lemma_lock_holds(m.track(start, delta, shift, k), ramp(start, delta, k), shift);
    }
    lemma_wrap32(start + n * delta);
    lemma_lock_holds(m.track(start, delta, shift, n), ramp(start, delta, n), shift);
}

/// Along a phase ramp the frequency error decays geometrically to within
/// rounding: with `g0` the error at the start and `gn` the error after `n`
/// updates, `gn` keeps the sign of `g0`, is no larger in magnitude, and
/// lies within half a bias of `g0 * (1 - 2^-shift)^n`, stated without
/// fractions. The time constant is 2^`shift` updates. The error at the
/// start must leave room for the rounding bias below the wrap point.
pub proof fn lemma_frequency_error_decays(
    m: PllModel,
    start: int,
    delta: int,
    shift: nat,
    n: nat,
)
    requires
        1 <= shift <= 30,
        m.wf(),
        i32::MIN <= delta <= i32::MAX,
        m.increment(ramp(start, delta, 0)) == delta,
        wrap32(delta - m.f) < 0x8000_0000 - pow2((shift - 1) as nat),
    ensures
        ({
            let g0 = wrap32(delta - m.f);
            let gn = wrap32(delta - m.track(start, delta, shift, n).f);
            let d = pow2(shift) as int;
            let half = pow2((shift - 1) as nat) as int;
            &&& g0 >= 0 ==> 0 <= gn <= g0
            &&& g0 <= 0 ==> g0 <= gn <= 0
            &&& pow(d - 1, n) * (g0 + half) <= pow(d, n) * (gn + half)
            &&& pow(d, n) * (gn - half) <= pow(d - 1, n) * (g0 - half)
        }),
    decreases n,
{
    let g0 = wrap32(delta - m.f);
    let d = pow2(shift) as int;
    let half = pow2((shift - 1) as nat) as int;
    lemma_bias(shift);
    reveal(pow);
    if n == 0 {
        assert(pow(d, 0) == 1 && pow(d - 1, 0) == 1);
    } else {
        let k = (n - 1) as nat;
        let prev = m.track(start, delta, shift, k);
        let input = ramp(start, delta, k);
        lemma_frequency_error_decays(m, start, delta, shift, k);
        lemma_track_increment(m, start, delta, shift, k);
        lemma_wrap32(start + k * delta);
        let gk = wrap32(delta - prev.f);
        assert(prev.frequency_error(input) == gk);
        lemma_frequency_error_contracts(prev, input, shift);
        let gn = wrap32(delta - prev.next_frequency(input, shift));
        assert(m.track(start, delta, shift, n).f == prev.next_frequency(input, shift));
        let pd = pow(d, k);
        let pe = pow(d - 1, k);
        lemma_pow_positive(d, k);
        lemma_pow_positive(d - 1, k);
        assert(pow(d, n) == d * pd);
        assert(pow(d - 1, n) == (d - 1) * pe);
        assert((d - 1) * pe * (g0 + half) <= d * pd * (gn + half)) by (nonlinear_arith)
            requires
                pe * (g0 + half) <= pd * (gk + half),
                -half <= d * gn - (d - 1) * gk,
                pd > 0,
                pe >= 0,
                d >= 2,
        ;
        assert(d * pd * (gn - half) <= (d - 1) * pe * (g0 - half)) by (nonlinear_arith)
            requires
                pd * (gk - half) <= pe * (g0 - half),
                d * gn - (d - 1) * gk < half,
                pd > 0,
                pe >= 0,
                d >= 2,
        ;
    }
}

/// Along a phase ramp the frequency error comes within rounding and stays
/// there: outside the rounding band every update takes at least one unit
/// off the error, so after as many updates as the error at the start has
/// units the filtered frequency is within 2^(`shift` - 1) of the increment.
/// The error at the start must leave room for the rounding bias below the
/// wrap point.
pub proof fn lemma_frequency_settles(m: PllModel, start: int, delta: int, shift: nat, n: nat)
    requires
        1 <= shift <= 30,
        m.wf(),
        i32::MIN <= delta <= i32::MAX,
        m.increment(ramp(start, delta, 0)) == delta,
        wrap32(delta - m.f) < 0x8000_0000 - pow2((shift - 1) as nat),
    ensures
        ({
            let g0 = wrap32(delta - m.f);
            let gn = wrap32(delta - m.track(start, delta, shift, n).f);
            let half = pow2((shift - 1) as nat) as int;
            &&& g0 >= 0 ==> 0 <= gn && (gn < half || gn <= g0 - n)
            &&& g0 <= 0 ==> gn <= 0 && (gn >= -half || gn >= g0 + n)
            &&& -n <= g0 <= n ==> -half <= gn < half
        }),
    decreases n,
{
    let half = pow2((shift - 1) as nat) as int;
    lemma_bias(shift);
    if n > 0 {
        let k = (n - 1) as nat;
        let prev = m.track(start, delta, shift, k);
        let input = ramp(start, delta, k);
        lemma_frequency_settles(m, start, delta, shift, k);
        lemma_frequency_error_decays(m, start, delta, shift, k);
        lemma_track_increment(m, start, delta, shift, k);
        lemma_wrap32(start + k * delta);
        assert(prev.frequency_error(input) == wrap32(delta - prev.f));
        lemma_frequency_error_contracts(prev, input, shift);
        assert(m.track(start, delta, shift, n).f == prev.next_frequency(input, shift));
    }
}

/// Tracking a ramp for `a + b` samples is tracking it for `a` samples and
/// then tracking the rest of the ramp for `b` samples.
pub proof fn lemma_track_split(m: PllModel, start: int, delta: int, shift: nat, a: nat, b: nat)
    ensures
        m.track(start, delta, shift, a + b) == m.track(start, delta, shift, a).track(
            start + a * delta,
            delta,
            shift,
            b,
        ),
        ramp(start + a * delta, delta, b) == ramp(start, delta, a + b),
    decreases b,
{
    assert(start + a * delta + b * delta == start + (a + b) * delta) by (nonlinear_arith);
    if b > 0 {
        let k = (b - 1) as nat;
        lemma_track_split(m, start, delta, shift, a, k);
        assert((a + b - 1) as nat == a + k);
    }
}

/// With the filtered frequency within rounding of the increment, the phase
/// offset comes into balance and stays there: the filtered frequency does
/// not move any more, every update out of balance takes at least one unit
/// off the offset, and after as many updates as the offset at the start
/// has units the loop is locked. The balance point of the correction must
/// lie in the 32-bit range.
pub proof fn lemma_phase_settles(m: PllModel, start: int, delta: int, shift: nat, n: nat)
    requires
        1 <= shift <= 30,
        m.wf(),
        i32::MIN <= delta <= i32::MAX,
        m.increment(ramp(start, delta, 0)) == delta,
        -pow2((shift - 1) as nat) <= wrap32(delta - m.f) < pow2((shift - 1) as nat),
        i32::MIN <= wrap32(delta - m.f) * pow2((shift - 1) as nat) <= i32::MAX,
    ensures
        ({
            let w0 = m.phase_offset(delta, shift);
            let mn = m.track(start, delta, shift, n);
            let wn = mn.phase_offset(delta, shift);
            let half = pow2((shift - 1) as nat) as int;
            &&& mn.f == m.f
            &&& w0 >= 0 ==> 0 <= wn && (wn < half || wn <= w0 - n)
            &&& w0 <= 0 ==> wn <= 0 && (wn == 0 || wn >= w0 + n)
            &&& -n <= w0 <= n ==> mn.locked(delta, shift)
        }),
    decreases n,
{
    let half = pow2((shift - 1) as nat) as int;
    lemma_bias(shift);
    lemma_track_increment(m, start, delta, shift, n);
    if n > 0 {
        let k = (n - 1) as nat;
        let prev = m.track(start, delta, shift, k);
        let input = ramp(start, delta, k);
        lemma_phase_settles(m, start, delta, shift, k);
        lemma_track_increment(m, start, delta, shift, k);
        lemma_wrap32(start + k * delta);
        assert(prev.frequency_error(input) == wrap32(delta - m.f));
        lemma_phase_offset_contracts(prev, input, shift);
    }
    lemma_locked_is_balanced(m.track(start, delta, shift, n), delta, shift);
}

/// The loop locks. For `shift` up to 16 and a phase that advances by a
/// constant increment, from any state whose frequency error leaves room
/// for the rounding bias below the wrap point, the loop is locked after
/// 2^31 + 2^32 updates at the latest and reports the increment exactly
/// from then on. The bound is the number of units that the frequency error
/// and then the phase offset can have; how fast they shrink is stated by
/// [`lemma_frequency_error_decays`] and [`lemma_phase_offset_contracts`].
pub proof fn lemma_loop_locks(m: PllModel, start: int, delta: int, shift: nat, n: nat)
    requires
        1 <= shift <= 16,
        m.wf(),
        i32::MIN <= delta <= i32::MAX,
        m.increment(ramp(start, delta, 0)) == delta,
        wrap32(delta - m.f) < 0x8000_0000 - pow2((shift - 1) as nat),
        n >= 0x1_8000_0000,
    ensures
        m.track(start, delta, shift, n).locked(delta, shift),
        m.track(start, delta, shift, n).output_frequency(ramp(start, delta, n), shift) == delta,
{
    let h = (shift - 1) as nat;
    let half = pow2(h) as int;
    let a: nat = 0x8000_0000;
    let b: nat = (n - a) as nat;
    lemma_bias(shift);
    lemma2_to64();
    if h < 15 {
        lemma_pow2_strictly_increases(h, 15);
    }
    assert(half <= 0x8000);
    // First the frequency settles.
    let g0 = wrap32(delta - m.f);
    lemma_wrap32(delta - m.f);
    lemma_frequency_settles(m, start, delta, shift, a);
    let m1 = m.track(start, delta, shift, a);
    let g1 = wrap32(delta - m1.f);
    assert(-half <= g1 < half);
    assert(-0x4000_0000 <= g1 * half <= 0x4000_0000) by (nonlinear_arith)
        requires
            -half <= g1 < half,
            1 <= half <= 0x8000,
    ;
    // Then the phase, over the rest of the ramp.
    lemma_track_increment(m, start, delta, shift, a);
    lemma_track_split(m, start, delta, shift, a, 0);
    lemma_track_split(m, start, delta, shift, a, b);
    let start1 = start + a * delta;
    assert(m1.increment(ramp(start1, delta, 0)) == delta);
    let w1 = m1.phase_offset(delta, shift);
    lemma_wrap32(pow2(shift) + m1.x + g1 - m1.y);
    assert(-(b as int) <= w1 <= b);
    lemma_phase_settles(m1, start1, delta, shift, b);
    let mn = m.track(start, delta, shift, n);
    assert(mn == m1.track(start1, delta, shift, b));
    // A locked loop reports the increment.
    lemma_track_increment(m, start, delta, shift, n);
    lemma_wrap32(start + n * delta);
    lemma_lock_holds(mn, ramp(start, delta, n), shift);
}

/// Once the filtered frequency is within rounding of the phase increment,
/// an update leaves it alone and works on the phase alone: the output
/// frequency misses the increment by the phase offset scaled down by
/// 2^(`shift` - 1), and the offset shrinks by just that amount. So the
/// offset never grows, keeps its sign, and the output frequency is exact
/// as soon as the offset is below 2^(`shift` - 1). The balance point of the
/// correction must lie in the 32-bit range.
pub proof fn lemma_phase_offset_contracts(m: PllModel, input: int, shift: nat)
    requires
        1 <= shift <= 30,
        m.wf(),
        i32::MIN <= input <= i32::MAX,
        -pow2((shift - 1) as nat) <= m.frequency_error(input) < pow2((shift - 1) as nat),
        i32::MIN <= m.frequency_error(input) * pow2((shift - 1) as nat) <= i32::MAX,
    ensures
        ({
            let delta = m.increment(input);
            let w = m.phase_offset(delta, shift);
            let w2 = m.step(input, shift).phase_offset(delta, shift);
            let miss = asr(w, (shift - 1) as nat);
            &&& m.next_frequency(input, shift) == m.f
            &&& m.output_frequency(input, shift) == wrap32(delta + miss)
            &&& 0 <= w < pow2((shift - 1) as nat) ==> m.output_frequency(input, shift) == delta
            &&& w2 == w - miss
            &&& w >= 0 ==> 0 <= w2 <= w
            &&& w <= 0 ==> w <= w2 <= 0
            &&& w >= pow2((shift - 1) as nat) ==> w2 < w
            &&& w < 0 ==> w2 > w
        }),
{
    let d = pow2(shift) as int;
    let h = (shift - 1) as nat;
    let half = pow2(h) as int;
    let delta = m.increment(input);
    let g = m.frequency_error(input);
    lemma_bias(shift);
    lemma_wrap32(g);
    lemma_wrap32(delta);
    lemma_wrap32(input - m.x);
    lemma_wrap32(m.f);
    assert(wrap32(half + input - m.f - m.x) == half + g) by {
        lemma_wrap32_replace(input - m.x, delta, half - m.f);
        lemma_wrap32_replace(delta - m.f, g, half);
        lemma_wrap32(half + g);
    }
    lemma_asr_unique(half + g, shift, 0, half + g);
    assert(m.next_frequency(input, shift) == m.f);
    let v = wrap32(d + m.x + g - m.y);
    lemma_wrap32(d + m.x + g - m.y);
    assert(wrap32(d + input - m.f - m.y) == v) by {
        lemma_wrap32_replace(input - m.x, delta, d + m.x - m.f - m.y);
        lemma_wrap32_replace(delta - m.f, g, d + m.x - m.y);
    }
    let c = asr(v, h);
    lemma_fundamental_div_mod(v, half);
    let r = v % half;
    assert(0 <= r < half) by {
        lemma_mod_bound(v, half);
    }
    let w = v - g * half;
    assert(w == (c - g) * half + r) by (nonlinear_arith)
        requires
            v == half * c + r,
            w == v - g * half,
    ;
    lemma_asr_unique(w, h, c - g, r);
    let miss = c - g;
    let floc = m.output_frequency(input, shift);
    assert(floc == wrap32(m.f + c));
    assert(wrap32(m.f + c) == wrap32(delta + miss)) by {
        lemma_wrap32_replace(delta - m.f, g, m.f + c - g);
    }
    assert(w >= 0 ==> 0 <= miss <= w) by (nonlinear_arith)
        requires
            w == miss * half + r,
            0 <= r < half,
            half >= 1,
    ;
    assert(w <= 0 ==> w <= miss <= 0) by (nonlinear_arith)
        requires
            w == miss * half + r,
            0 <= r < half,
            half >= 1,
    ;
    assert(0 <= w < half ==> miss == 0) by (nonlinear_arith)
        requires
            w == miss * half + r,
            0 <= r < half,
            half >= 1,
    ;
    assert(w >= half ==> miss >= 1) by (nonlinear_arith)
        requires
            w == miss * half + r,
            0 <= r < half,
            half >= 1,
    ;
    assert(w < 0 ==> miss <= -1) by (nonlinear_arith)
        requires
            w == miss * half + r,
            0 <= r < half,
            half >= 1,
    ;
    let m2 = m.step(input, shift);
    let y2 = wrap32(m.y + floc);
    assert(m2.x == input && m2.f == m.f && m2.y == y2);
    assert(wrap32(d + input + g - y2) == wrap32(v - miss)) by {
        lemma_wrap32_absorb(d + input + g, m.y + floc);
        lemma_wrap32(delta + miss);
        lemma_wrap32_replace(floc, delta + miss, d + input + g - m.y);
        lemma_wrap32_replace(delta, input - m.x, d + input + g - m.y - miss);
        lemma_wrap32_replace(d + m.x + g - m.y, v, -miss);
    }
    assert(i32::MIN <= v - miss <= i32::MAX);
    lemma_wrap32(v - miss);
}

/// A loop is locked exactly where its state is in range, its filtered
/// frequency is within rounding of the increment and its phase offset is
/// in balance.
pub proof fn lemma_locked_is_balanced(m: PllModel, delta: int, shift: nat)
    requires
        1 <= shift,
    ensures
        m.locked(delta, shift) <==> {
            &&& m.wf()
            &&& -pow2((shift - 1) as nat) <= wrap32(delta - m.f) < pow2((shift - 1) as nat)
            &&& 0 <= m.phase_offset(delta, shift) < pow2((shift - 1) as nat)
        },
{
    let h = (shift - 1) as nat;
    let half = pow2(h) as int;
    let g = wrap32(delta - m.f);
    let v = wrap32(pow2(shift) + m.x + g - m.y);
    lemma_pow2_pos(h);
    if asr(v, h) == g {
        lemma_fundamental_div_mod(v, half);
        lemma_mod_bound(v, half);
        assert(half * g == g * half) by (nonlinear_arith);
    }
    if 0 <= v - g * half < half {
        lemma_asr_unique(v, h, g, v - g * half);
    }
}

/// The loop sees phases only modulo a full turn: turning the input and the
/// two phases of the state by the same angle `c`, by however many turns,
/// changes neither frequency and turns the output phase by `c`.
pub proof fn lemma_rotation_invariance(m: PllModel, input: int, c: int, shift: nat)
    ensures
        ({
            let turned = PllModel { x: wrap32(m.x + c), f: m.f, y: wrap32(m.y + c) };
            let turned_input = wrap32(input + c);
            &&& turned.next_frequency(turned_input, shift) == m.next_frequency(input, shift)
            &&& turned.output_frequency(turned_input, shift) == m.output_frequency(input, shift)
            &&& turned.output_phase(turned_input, shift) == wrap32(
                m.output_phase(input, shift) + c,
            )
        }),
{
    let tx = wrap32(m.x + c);
    let ty = wrap32(m.y + c);
    let ti = wrap32(input + c);
    let hb = PllModel::half_bias(shift);
    let b = PllModel::bias(shift);
    assert(wrap32(hb + ti - m.f - tx) == wrap32(hb + input - m.f - m.x)) by {
        lemma_wrap32_absorb(hb + ti - m.f, m.x + c);
        lemma_wrap32(input + c);
        lemma_wrap32_replace(ti, input + c, hb - m.f - m.x - c);
    }
    assert(wrap32(b + ti - m.f - ty) == wrap32(b + input - m.f - m.y)) by {
        lemma_wrap32_absorb(b + ti - m.f, m.y + c);
        lemma_wrap32(input + c);
        lemma_wrap32_replace(ti, input + c, b - m.f - m.y - c);
    }
    let fl = m.output_frequency(input, shift);
    assert(wrap32(ty + fl) == wrap32(wrap32(m.y + fl) + c)) by {
        lemma_wrap32_absorb(m.y + c, fl);
        lemma_wrap32_absorb(m.y + fl, c);
    }
}

} // verus!
