//! Type-II, sampled-phase, discrete-time phase-locked loop on wrapping
//! 32-bit integers.
//!
//! Phase and frequency are points on a circle: one full turn is 2^32. The
//! loop has one parameter, `shift`, that sets the bandwidth in octave steps.
//! What the loop does over many samples is stated in [`crate::pll_lock`].

use crate::wrapping::asr;
use crate::wrapping::lemma_shl_i32;
use crate::wrapping::lemma_shr_i32;
use crate::wrapping::lemma_wrap32_absorb;
use crate::wrapping::lemma_wrapping_i32;
use crate::wrapping::wrap32;
use vstd::arithmetic::power2::pow2;
use vstd::prelude::*;

verus! {

/// The loop state as three mathematical integers, each in the signed 32-bit
/// range and read modulo 2^32.
pub struct PllModel {
    /// Last input phase sample.
    pub x: int,
    /// Filtered frequency.
    pub f: int,
    /// Filtered output phase.
    pub y: int,
}

impl PllModel {
    /// The rounding bias `1 << shift` as a signed 32-bit value. For
    /// `shift == 31` this is the most negative value.
    pub open spec fn bias(shift: nat) -> int {
        wrap32(pow2(shift) as int)
    }

    /// The bias shifted right by one bit, sign preserved.
    pub open spec fn half_bias(shift: nat) -> int {
        asr(Self::bias(shift), 1)
    }

    /// The filtered frequency after one update: the old frequency plus the
    /// rounded, scaled difference between the observed phase increment
    /// `input - x` and the old frequency.
    pub open spec fn next_frequency(self, input: int, shift: nat) -> int {
        wrap32(self.f + asr(wrap32(Self::half_bias(shift) + input - self.f - self.x), shift))
    }

    /// The instantaneous output frequency of one update: the new filtered
    /// frequency plus the scaled phase error of the old output phase.
    pub open spec fn output_frequency(self, input: int, shift: nat) -> int {
        wrap32(
            self.next_frequency(input, shift) + asr(
                wrap32(Self::bias(shift) + input - self.f - self.y),
                (shift - 1) as nat,
            ),
        )
    }

    /// The output phase of one update: the old output phase advanced by the
    /// output frequency.
    pub open spec fn output_phase(self, input: int, shift: nat) -> int {
        wrap32(self.y + self.output_frequency(input, shift))
    }

    /// The state after one update with phase sample `input`.
    pub open spec fn step(self, input: int, shift: nat) -> PllModel {
        PllModel {
            x: input,
            f: self.next_frequency(input, shift),
            y: self.output_phase(input, shift),
        }
    }
}

/// Phase-locked loop state: last input phase, filtered frequency and
/// filtered output phase.
#[derive(Copy, Clone)]
pub struct PLLState {
    // last input phase
    x: i32,
    // filtered frequency
    f: i32,
    // filtered output phase
    y: i32,
}

impl View for PLLState {
    type V = PllModel;

    closed spec fn view(&self) -> PllModel {
        PllModel { x: self.x as int, f: self.f as int, y: self.y as int }
    }
}

impl Default for PLLState {
    /// The loop at rest: all three integrators at zero.
    fn default() -> (r: Self)
        ensures
            r@ == (PllModel { x: 0, f: 0, y: 0 }),
    {
        PLLState { x: 0, f: 0, y: 0 }
    }
}

impl PLLState {
    /// Update the PLL with a new phase sample.
    ///
    /// `shift` scales the error: the frequency gain per update is
    /// `1/(1 << shift)` and the phase gain is twice that. Returns the
    /// instantaneous phase and frequency (the current phase increment).
    pub fn update(&mut self, x: i32, shift: u8) -> (r: (i32, i32))
        requires
            1 <= shift <= 31,
        ensures
            final(self)@ == old(self)@.step(x as int, shift as nat),
            r.0 as int == old(self)@.output_phase(x as int, shift as nat),
            r.1 as int == old(self)@.output_frequency(x as int, shift as nat),
    {
        let s: u32 = shift as u32;
        let ghost m = self@;
        let bias: i32 = 1i32 << s;
        let half: i32 = bias >> 1u32;
        let e: i32 = x.wrapping_sub(self.f);
        let t: i32 = half.wrapping_add(e).wrapping_sub(self.x);
        let df: i32 = t >> s;
        proof {
            lemma_shl_i32(1i32, s);
            lemma_shr_i32(bias, 1u32);
            lemma_wrapping_i32(x, self.f);
            lemma_wrapping_i32(half, e);
            lemma_wrapping_i32(half.wrapping_add(e), self.x);
            lemma_wrap32_absorb(x - m.f, half as int);
            lemma_wrap32_absorb(half + x - m.f, m.x);
            lemma_shr_i32(t, s);
            lemma_wrapping_i32(self.f, df);
        }
        self.f = self.f.wrapping_add(df);
        self.x = x;
        let u: i32 = bias.wrapping_add(e).wrapping_sub(self.y);
        let dy: i32 = u >> (s - 1);
        proof {
            lemma_wrapping_i32(bias, e);
            lemma_wrapping_i32(bias.wrapping_add(e), self.y);
            lemma_wrap32_absorb(x - m.f, bias as int);
            lemma_wrap32_absorb(bias + x - m.f, m.y);
            lemma_shr_i32(u, (s - 1) as u32);
            lemma_wrapping_i32(self.f, dy);
        }
        let f: i32 = self.f.wrapping_add(dy);
        proof {
            lemma_wrapping_i32(self.y, f);
        }
        self.y = self.y.wrapping_add(f);
        (self.y, f)
    }
}

/// The `k`-th sample of a phase ramp that starts at `start` and advances
/// by `delta` per sample, wrapping.
pub open spec fn ramp(start: int, delta: int, k: nat) -> int {
    wrap32(start + k * delta)
}

impl PllModel {
    /// Every field lies in the signed 32-bit range.
    pub open spec fn wf(self) -> bool {
        &&& i32::MIN <= self.x <= i32::MAX
        &&& i32::MIN <= self.f <= i32::MAX
        &&& i32::MIN <= self.y <= i32::MAX
    }

    /// The phase increment that `input` makes over the last input sample.
    pub open spec fn increment(self, input: int) -> int {
        wrap32(input - self.x)
    }

    /// The frequency error: how far the filtered frequency lags behind the
    /// phase increment that `input` makes.
    pub open spec fn frequency_error(self, input: int) -> int {
        wrap32(self.increment(input) - self.f)
    }

    /// The loop is locked to a phase that advances by `delta` per sample:
    /// the filtered frequency is within half a rounding step of `delta`,
    /// and the phase correction makes up exactly what is missing.
    pub open spec fn locked(self, delta: int, shift: nat) -> bool {
        let g = wrap32(delta - self.f);
        &&& self.wf()
        &&& -pow2((shift - 1) as nat) <= g < pow2((shift - 1) as nat)
        &&& asr(wrap32(pow2(shift) + self.x + g - self.y), (shift - 1) as nat) == g
    }

    /// The state after `n` updates with the first `n` samples of a phase
    /// ramp.
    pub open spec fn track(self, start: int, delta: int, shift: nat, n: nat) -> PllModel
        decreases n,
    {
        if n == 0 {
            self
        } else {
            self.track(start, delta, shift, (n - 1) as nat).step(
                ramp(start, delta, (n - 1) as nat),
                shift,
            )
        }
    }

    /// How far the phase correction is from balance: the argument of the
    /// correction term, less the value at which the correction would make
    /// up the frequency error `wrap32(delta - f)` exactly. The correction
    /// is in balance where this offset lies in `[0, 2^(shift - 1))`.
    pub open spec fn phase_offset(self, delta: int, shift: nat) -> int {
        let g = wrap32(delta - self.f);
        wrap32(pow2(shift) + self.x + g - self.y) - g * pow2((shift - 1) as nat)
    }
}

impl PLLState {
    /// A loop state from its three integrators, in the order last input
    /// phase, filtered frequency, filtered output phase.
    pub fn new(x: i32, f: i32, y: i32) -> (s: Self)
        ensures
            s@ == (PllModel { x: x as int, f: f as int, y: y as int }),
    {
        PLLState { x, f, y }
    }

    /// The last input phase sample.
    pub fn x(&self) -> (v: i32)
        ensures
            v as int == self@.x,
    {
        self.x
    }

    /// The filtered frequency.
    pub fn f(&self) -> (v: i32)
        ensures
            v as int == self@.f,
    {
        self.f
    }

    /// The filtered output phase.
    pub fn y(&self) -> (v: i32)
        ensures
            v as int == self@.y,
    {
        self.y
    }

    /// The model of a machine state has every field in the 32-bit range.
    pub proof fn lemma_view_wf(self)
        ensures
            self@.wf(),
    {
    }
}

} // verus!
