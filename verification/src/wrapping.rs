//! Mathematical models of two's-complement wrapping and of the arithmetic
//! right shift, and the lemmas that tie the machine operations to them.
//!
//! Every contract in this crate is stated over unbounded integers. A machine
//! result is described as the value an exact computation would give, folded
//! back into the signed range by [`wrap32`] or [`wrap64`]; a right shift is
//! described as a floor division by a power of two, [`asr`].

use vstd::arithmetic::div_mod::lemma_fundamental_div_mod;
use vstd::arithmetic::div_mod::lemma_fundamental_div_mod_converse;
use vstd::arithmetic::div_mod::lemma_mod_multiples_vanish;
use vstd::arithmetic::power2::lemma_pow2_pos;
use vstd::arithmetic::power2::lemma_pow2_unfold;
use vstd::arithmetic::power2::pow2;
use vstd::prelude::*;

verus! {

/// The representative of `v` modulo 2^32 in the signed 32-bit range.
#[verifier::opaque]
pub open spec fn wrap32(v: int) -> int {
    (v + 0x8000_0000) % 0x1_0000_0000 - 0x8000_0000
}

/// The representative of `v` modulo 2^64 in the signed 64-bit range.
#[verifier::opaque]
pub open spec fn wrap64(v: int) -> int {
    (v + 0x8000_0000_0000_0000) % 0x1_0000_0000_0000_0000 - 0x8000_0000_0000_0000
}

/// Arithmetic shift right: `v` divided by 2^`s`, rounded toward minus infinity.
pub open spec fn asr(v: int, s: nat) -> int {
    v / (pow2(s) as int)
}

/// `wrap32` lands in the signed 32-bit range, leaves that range fixed, and
/// depends only on the residue of its argument modulo 2^32.
pub proof fn lemma_wrap32(v: int)
    ensures
        i32::MIN <= wrap32(v) <= i32::MAX,
        i32::MIN <= v <= i32::MAX ==> wrap32(v) == v,
        wrap32(wrap32(v)) == wrap32(v),
        wrap32(v + 0x1_0000_0000) == wrap32(v),
        wrap32(v - 0x1_0000_0000) == wrap32(v),
{
    reveal(wrap32);
}

/// `wrap64` lands in the signed 64-bit range, leaves that range fixed, and
/// depends only on the residue of its argument modulo 2^64.
pub proof fn lemma_wrap64(v: int)
    ensures
        i64::MIN <= wrap64(v) <= i64::MAX,
        i64::MIN <= v <= i64::MAX ==> wrap64(v) == v,
        wrap64(wrap64(v)) == wrap64(v),
        wrap64(v + 0x1_0000_0000_0000_0000) == wrap64(v),
        wrap64(v - 0x1_0000_0000_0000_0000) == wrap64(v),
{
    reveal(wrap64);
}

/// Adding a multiple of 2^32 does not change the wrapped value.
pub proof fn lemma_wrap32_periodic(v: int, k: int)
    ensures
        wrap32(v + k * 0x1_0000_0000) == wrap32(v),
{
    reveal(wrap32);
    lemma_mod_multiples_vanish(k, v + 0x8000_0000, 0x1_0000_0000);
}

/// Adding a multiple of 2^64 does not change the wrapped value.
pub proof fn lemma_wrap64_periodic(v: int, k: int)
    ensures
        wrap64(v + k * 0x1_0000_0000_0000_0000) == wrap64(v),
{
    reveal(wrap64);
    lemma_mod_multiples_vanish(k, v + 0x8000_0000_0000_0000, 0x1_0000_0000_0000_0000);
}

/// Wrapping respects addition and subtraction: an inner wrap can be dropped.
pub proof fn lemma_wrap32_absorb(u: int, v: int)
    ensures
        wrap32(wrap32(u) + v) == wrap32(u + v),
        wrap32(u + wrap32(v)) == wrap32(u + v),
        wrap32(wrap32(u) - v) == wrap32(u - v),
        wrap32(u - wrap32(v)) == wrap32(u - v),
{
    reveal(wrap32);
    let ku = (u + 0x8000_0000) / 0x1_0000_0000;
    let kv = (v + 0x8000_0000) / 0x1_0000_0000;
    assert(wrap32(u) == u - ku * 0x1_0000_0000);
    assert(wrap32(v) == v - kv * 0x1_0000_0000);
    lemma_wrap32_periodic(u + v, -ku);
    lemma_wrap32_periodic(u + v, -kv);
    lemma_wrap32_periodic(u - v, -ku);
    lemma_wrap32_periodic(u - v, kv);
}

/// Wrapping respects addition: an inner wrap can be dropped.
pub proof fn lemma_wrap64_absorb(u: int, v: int)
    ensures
        wrap64(wrap64(u) + v) == wrap64(u + v),
        wrap64(u + wrap64(v)) == wrap64(u + v),
{
    reveal(wrap64);
    let ku = (u + 0x8000_0000_0000_0000) / 0x1_0000_0000_0000_0000;
    let kv = (v + 0x8000_0000_0000_0000) / 0x1_0000_0000_0000_0000;
    assert(wrap64(u) == u - ku * 0x1_0000_0000_0000_0000);
    assert(wrap64(v) == v - kv * 0x1_0000_0000_0000_0000);
    lemma_wrap64_periodic(u + v, -ku);
    lemma_wrap64_periodic(u + v, -kv);
}

/// A floor division is pinned down by its quotient-remainder decomposition.
pub proof fn lemma_asr_unique(v: int, s: nat, q: int, r: int)
    requires
        v == q * pow2(s) + r,
        0 <= r < pow2(s),
    ensures
        asr(v, s) == q,
{
    lemma_pow2_pos(s);
    lemma_fundamental_div_mod_converse(v, pow2(s) as int, q, r);
}

/// Shifting by one more bit halves the quotient, rounding down.
pub proof fn lemma_asr_step(v: int, s: nat, q: int, b: int)
    requires
        asr(v, s) == 2 * q + b,
        0 <= b <= 1,
    ensures
        asr(v, s + 1) == q,
{
    let d = pow2(s) as int;
    lemma_pow2_pos(s);
    lemma_pow2_unfold(s + 1);
    lemma_fundamental_div_mod(v, d);
    let r = v % d;
    assert(v == d * (2 * q + b) + r);
    assert(d * (2 * q + b) == q * (2 * d) + b * d) by (nonlinear_arith);
    assert(0 <= b * d + r < 2 * d) by (nonlinear_arith)
        requires
            0 <= b <= 1,
            0 <= r < d,
    ;
    lemma_asr_unique(v, s + 1, q, b * d + r);
}

/// The 32-bit `>>` on a signed value is a floor division by a power of two.
pub proof fn lemma_shr_i32(v: i32, s: u32)
    requires
        s < 32,
    ensures
        (v >> s) as int == asr(v as int, s as nat),
    decreases s,
{
    if s == 0 {
        assert(v >> 0u32 == v) by (bit_vector);
        assert(pow2(0) == 1) by {
            vstd::arithmetic::power2::lemma2_to64();
        }
    } else {
        let t = (s - 1) as u32;
        let w = v >> t;
        lemma_shr_i32(v, t);
        assert(v >> s == w >> 1u32) by (bit_vector)
            requires
                0 < s < 32,
                t == s - 1,
                w == v >> t,
        ;
        assert(w == 2 * (w >> 1u32) + (w & 1) && 0 <= (w & 1) <= 1) by (bit_vector);
        lemma_asr_step(v as int, t as nat, (w >> 1u32) as int, (w & 1) as int);
    }
}

/// The 64-bit `>>` on a signed value is a floor division by a power of two.
pub proof fn lemma_shr_i64(v: i64, s: u32)
    requires
        s < 64,
    ensures
        (v >> s) as int == asr(v as int, s as nat),
    decreases s,
{
    if s == 0 {
        assert(v >> 0u32 == v) by (bit_vector);
        assert(pow2(0) == 1) by {
            vstd::arithmetic::power2::lemma2_to64();
        }
    } else {
        let t = (s - 1) as u32;
        let w = v >> t;
        lemma_shr_i64(v, t);
        assert(v >> s == w >> 1u32) by (bit_vector)
            requires
                0 < s < 64,
                t == s - 1,
                w == v >> t,
        ;
        assert(w == 2 * (w >> 1u32) + (w & 1) && 0 <= (w & 1) <= 1) by (bit_vector);
        lemma_asr_step(v as int, t as nat, (w >> 1u32) as int, (w & 1) as int);
    }
}

/// The 32-bit `<<` multiplies by a power of two and wraps.
pub proof fn lemma_shl_i32(v: i32, s: u32)
    requires
        s < 32,
    ensures
        (v << s) as int == wrap32(v * pow2(s as nat)),
    decreases s,
{
    reveal(wrap32);
    if s == 0 {
        assert(v << 0u32 == v) by (bit_vector);
        assert(pow2(0) == 1) by {
            vstd::arithmetic::power2::lemma2_to64();
        }
        assert(v * 1 == v);
    } else {
        let t = (s - 1) as u32;
        let w = v << t;
        lemma_shl_i32(v, t);
        assert(v << s == w << 1u32) by (bit_vector)
            requires
                0 < s < 32,
                t == s - 1,
                w == v << t,
        ;
        assert((w << 1u32) as int == (2 * w + 0x8000_0000) % 0x1_0000_0000 - 0x8000_0000)
            by (bit_vector);
        let p = pow2(t as nat) as int;
        let m = v * p;
        let k = (m + 0x8000_0000) / 0x1_0000_0000;
        lemma_pow2_unfold(s as nat);
        assert(v * (2 * p) == 2 * m) by (nonlinear_arith)
            requires
                m == v * p,
        ;
        assert(w == m - k * 0x1_0000_0000);
        lemma_wrap32_periodic(2 * m, -2 * k);
    }
}

/// The 64-bit `<<` multiplies by a power of two and wraps.
pub proof fn lemma_shl_i64(v: i64, s: u32)
    requires
        s < 64,
    ensures
        (v << s) as int == wrap64(v * pow2(s as nat)),
    decreases s,
{
    reveal(wrap64);
    if s == 0 {
        assert(v << 0u32 == v) by (bit_vector);
        assert(pow2(0) == 1) by {
            vstd::arithmetic::power2::lemma2_to64();
        }
        assert(v * 1 == v);
    } else {
        let t = (s - 1) as u32;
        let w = v << t;
        lemma_shl_i64(v, t);
        assert(v << s == w << 1u32) by (bit_vector)
            requires
                0 < s < 64,
                t == s - 1,
                w == v << t,
        ;
        assert((w << 1u32) as int == (2 * w + 0x8000_0000_0000_0000)
            % 0x1_0000_0000_0000_0000 - 0x8000_0000_0000_0000) by (bit_vector);
        let p = pow2(t as nat) as int;
        let m = v * p;
        let k = (m + 0x8000_0000_0000_0000) / 0x1_0000_0000_0000_0000;
        lemma_pow2_unfold(s as nat);
        assert(v * (2 * p) == 2 * m) by (nonlinear_arith)
            requires
                m == v * p,
        ;
        assert(w == m - k * 0x1_0000_0000_0000_0000);
        lemma_wrap64_periodic(2 * m, -2 * k);
    }
}

/// Narrowing a 64-bit value to 32 bits keeps its residue modulo 2^32.
pub proof fn lemma_narrow(v: i64)
    ensures
        (v as i32) as int == wrap32(v as int),
{
    reveal(wrap32);
    assert((v as i32) as int == (v as int + 0x8000_0000) % 0x1_0000_0000 - 0x8000_0000)
        by (bit_vector);
}

/// `i32::wrapping_add` and `i32::wrapping_sub` compute the exact sum or
/// difference, wrapped.
pub proof fn lemma_wrapping_i32(a: i32, b: i32)
    ensures
        a.wrapping_add(b) as int == wrap32(a + b),
        a.wrapping_sub(b) as int == wrap32(a - b),
{
    reveal(wrap32);
}

/// `i64::wrapping_add` computes the exact sum, wrapped.
pub proof fn lemma_wrapping_i64(a: i64, b: i64)
    ensures
        a.wrapping_add(b) as int == wrap64(a + b),
{
    reveal(wrap64);
}

/// Two values with the same residue modulo 2^32 can stand for one another
/// inside a wrapped sum or difference.
pub proof fn lemma_wrap32_replace(u: int, v: int, w: int)
    requires
        wrap32(u) == wrap32(v),
    ensures
        wrap32(u + w) == wrap32(v + w),
        wrap32(w - u) == wrap32(w - v),
{
    lemma_wrap32_absorb(u, w);
    lemma_wrap32_absorb(v, w);
    lemma_wrap32_absorb(w, u);
    lemma_wrap32_absorb(w, v);
}

} // verus!
