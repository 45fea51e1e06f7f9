//! Fixed-point arithmetic on fractions of `2^32` (Q32.32): products,
//! reciprocals, a truncated Taylor exponential and a binary logarithm.
//! These carry the filter's rate formulas without floating point; every
//! result is the exact floor of the stated integer expression.

use vstd::arithmetic::div_mod::{lemma_div_is_ordered, lemma_div_is_ordered_by_denominator};
use vstd::arithmetic::mul::lemma_mul_upper_bound;
use vstd::arithmetic::power2::{lemma_pow2_pos, lemma_pow2_strictly_increases, lemma_pow2_unfold, pow2};
use vstd::prelude::*;

verus! {

/// One, as a fixed-point fraction of `2^32`.
pub const ONE_Q32: u64 = 0x1_0000_0000;

/// `ln(2)` scaled by `2^32`, rounded to the nearest integer.
pub const LN2_Q32: u64 = 2977044472;

/// Floor of `a * b / 2^32`: the fixed-point product.
pub open spec fn spec_qmul(a: nat, b: nat) -> nat {
    (a * b) / 0x1_0000_0000
}

/// The fixed-point product of two values at most one stays at most one.
pub proof fn lemma_qmul_le_one(a: nat, b: nat)
    requires
        a <= 0x1_0000_0000,
        b <= 0x1_0000_0000,
    ensures
        spec_qmul(a, b) <= 0x1_0000_0000,
{
    lemma_mul_upper_bound(a as int, 0x1_0000_0000, b as int, 0x1_0000_0000);
    lemma_div_is_ordered((a * b) as int, 0x1_0000_0000_0000_0000, 0x1_0000_0000);
}

/// The fixed-point product grows with either factor.
pub proof fn lemma_qmul_mono(a1: nat, b1: nat, a2: nat, b2: nat)
    requires
        a1 <= a2,
        b1 <= b2,
    ensures
        spec_qmul(a1, b1) <= spec_qmul(a2, b2),
{
    lemma_mul_upper_bound(a1 as int, a2 as int, b1 as int, b2 as int);
    lemma_div_is_ordered((a1 * b1) as int, (a2 * b2) as int, 0x1_0000_0000);
}

/// Fixed-point product of two fractions of `2^32`.
pub fn qmul(a: u64, b: u64) -> (r: u64)
    requires
        a <= ONE_Q32,
        b <= ONE_Q32,
    ensures
        r == spec_qmul(a as nat, b as nat),
        r <= ONE_Q32,
{
    proof {
        lemma_qmul_le_one(a as nat, b as nat);
    }
    (((a as u128) * (b as u128)) / 0x1_0000_0000u128) as u64
}

/// Floor of `2^64 / v`: the fixed-point reciprocal of `v / 2^32`.
pub open spec fn spec_recip(v: nat) -> nat
    recommends
        v >= 1,
{
    0x1_0000_0000_0000_0000nat / v
}

/// The reciprocal of a value at least one is at most one.
pub proof fn lemma_recip_le_one(v: nat)
    requires
        v >= 0x1_0000_0000,
    ensures
        spec_recip(v) <= 0x1_0000_0000,
{
    lemma_div_is_ordered_by_denominator(0x1_0000_0000_0000_0000, 0x1_0000_0000, v as int);
}

/// The reciprocal shrinks as its argument grows.
pub proof fn lemma_recip_antitone(v1: nat, v2: nat)
    requires
        1 <= v1 <= v2,
    ensures
        spec_recip(v1) >= spec_recip(v2),
{
    lemma_div_is_ordered_by_denominator(0x1_0000_0000_0000_0000, v1 as int, v2 as int);
}

/// Fixed-point reciprocal of a value at least one.
pub fn recip_q(v: u64) -> (r: u64)
    requires
        v >= ONE_Q32,
    ensures
        r == spec_recip(v as nat),
        r <= ONE_Q32,
{
    proof {
        lemma_recip_le_one(v as nat);
    }
    (0x1_0000_0000_0000_0000u128 / (v as u128)) as u64
}

/// The i-th term of the truncated Taylor series for `e^(y / 2^32)`,
/// scaled by `2^32`: term 0 is `2^32`, and each later term is the floor
/// of the previous one times `y / (i * 2^32)`.
pub open spec fn spec_exp_term(y: nat, i: nat) -> nat
    decreases i,
{
    if i == 0 {
        0x1_0000_0000
    } else {
        spec_exp_term(y, (i - 1) as nat) * y / (i * 0x1_0000_0000)
    }
}

/// The sum of the first `n` Taylor terms.
pub open spec fn spec_exp_sum(y: nat, n: nat) -> nat
    decreases n,
{
    if n == 0 {
        0
    } else {
        spec_exp_sum(y, (n - 1) as nat) + spec_exp_term(y, (n - 1) as nat)
    }
}

/// Number of Taylor terms carried; terms beyond this are zero for any
/// argument below one.
pub const EXP_TERMS: usize = 24;

/// For an argument below one, every Taylor term is at most one.
pub proof fn lemma_exp_term_le_one(y: nat, i: nat)
    requires
        y < 0x1_0000_0000,
    ensures
        spec_exp_term(y, i) <= 0x1_0000_0000,
    decreases i,
{
    if i > 0 {
        lemma_exp_term_le_one(y, (i - 1) as nat);
        let t = spec_exp_term(y, (i - 1) as nat);
        lemma_mul_upper_bound(t as int, 0x1_0000_0000, y as int, 0xffff_ffff);
        assert(i * 0x1_0000_0000 >= 0x1_0000_0000) by (nonlinear_arith)
            requires
                i >= 1,
        ;
        lemma_div_is_ordered_by_denominator((t * y) as int, 0x1_0000_0000, (i * 0x1_0000_0000) as int);
        lemma_div_is_ordered((t * y) as int, 0x1_0000_0000int * 0xffff_ffffint, 0x1_0000_0000);
    }
}

/// Taylor terms grow with the argument.
pub proof fn lemma_exp_term_mono(y1: nat, y2: nat, i: nat)
    requires
        y1 <= y2,
    ensures
        spec_exp_term(y1, i) <= spec_exp_term(y2, i),
    decreases i,
{
    if i > 0 {
        lemma_exp_term_mono(y1, y2, (i - 1) as nat);
        let t1 = spec_exp_term(y1, (i - 1) as nat);
        let t2 = spec_exp_term(y2, (i - 1) as nat);
        lemma_mul_upper_bound(t1 as int, t2 as int, y1 as int, y2 as int);
        lemma_div_is_ordered((t1 * y1) as int, (t2 * y2) as int, (i * 0x1_0000_0000) as int);
        assert(i * 0x1_0000_0000 > 0) by (nonlinear_arith)
            requires
                i >= 1,
        ;
    }
}

/// The truncated series is at least one (its zeroth term) once any term
/// is included.
pub proof fn lemma_exp_sum_lower(y: nat, n: nat)
    requires
        n >= 1,
    ensures
        spec_exp_sum(y, n) >= 0x1_0000_0000,
    decreases n,
{
    if n > 1 {
        lemma_exp_sum_lower(y, (n - 1) as nat);
    }
}

/// The truncated series grows with the argument.
pub proof fn lemma_exp_sum_mono(y1: nat, y2: nat, n: nat)
    requires
        y1 <= y2,
    ensures
        spec_exp_sum(y1, n) <= spec_exp_sum(y2, n),
    decreases n,
{
    if n > 0 {
        lemma_exp_sum_mono(y1, y2, (n - 1) as nat);
        lemma_exp_term_mono(y1, y2, (n - 1) as nat);
    }
}

/// `e^(y / 2^32)` scaled by `2^32`, by the truncated Taylor series, for
/// an argument below one.
pub fn exp1_q(y: u64) -> (r: u64)
    requires
        y < ONE_Q32,
    ensures
        r == spec_exp_sum(y as nat, EXP_TERMS as nat),
        r >= ONE_Q32,
{
    let mut sum: u64 = 0;
    let mut term: u64 = ONE_Q32;
    let mut i: usize = 0;
    while i < EXP_TERMS
        invariant
            y < ONE_Q32,
            i <= EXP_TERMS,
            sum == spec_exp_sum(y as nat, i as nat),
            term == spec_exp_term(y as nat, i as nat),
            term <= ONE_Q32,
            sum <= 0x1_0000_0000 * i,
        decreases EXP_TERMS - i,
    {
        sum = sum + term;
        proof {
            lemma_exp_term_le_one(y as nat, (i + 1) as nat);
            lemma_mul_upper_bound(term as int, 0x1_0000_0000, y as int, 0xffff_ffff);
        }
        let next: u64 = (((term as u128) * (y as u128)) / (((i as u128) + 1) * 0x1_0000_0000u128))
            as u64;
        term = next;
        i = i + 1;
    }
    proof {
        lemma_exp_sum_lower(y as nat, EXP_TERMS as nat);
    }
    sum
}

/// `e^(-x / 2^32)` scaled by `2^32`, for `x` below 64: the reciprocal of
/// the series at `x / 64`, squared six times.
pub open spec fn spec_exp_neg(x: nat) -> nat {
    let y = x / 64;
    let e = spec_recip(spec_exp_sum(y, EXP_TERMS as nat));
    let s1 = spec_qmul(e, e);
    let s2 = spec_qmul(s1, s1);
    let s3 = spec_qmul(s2, s2);
    let s4 = spec_qmul(s3, s3);
    let s5 = spec_qmul(s4, s4);
    spec_qmul(s5, s5)
}

/// The negated exponential never exceeds one.
pub proof fn lemma_exp_neg_le_one(x: nat)
    ensures
        spec_exp_neg(x) <= 0x1_0000_0000,
{
    let y = x / 64;
    lemma_exp_sum_lower(y, EXP_TERMS as nat);
    lemma_recip_le_one(spec_exp_sum(y, EXP_TERMS as nat));
    let e = spec_recip(spec_exp_sum(y, EXP_TERMS as nat));
    lemma_qmul_le_one(e, e);
    let s1 = spec_qmul(e, e);
    lemma_qmul_le_one(s1, s1);
    let s2 = spec_qmul(s1, s1);
    lemma_qmul_le_one(s2, s2);
    let s3 = spec_qmul(s2, s2);
    lemma_qmul_le_one(s3, s3);
    let s4 = spec_qmul(s3, s3);
    lemma_qmul_le_one(s4, s4);
    let s5 = spec_qmul(s4, s4);
    lemma_qmul_le_one(s5, s5);
}

/// The negated exponential shrinks as its argument grows.
pub proof fn lemma_exp_neg_antitone(x1: nat, x2: nat)
    requires
        x1 <= x2,
    ensures
        spec_exp_neg(x1) >= spec_exp_neg(x2),
{
    let y1 = x1 / 64;
    let y2 = x2 / 64;
    lemma_div_is_ordered(x1 as int, x2 as int, 64);
    lemma_exp_sum_mono(y1, y2, EXP_TERMS as nat);
    lemma_exp_sum_lower(y1, EXP_TERMS as nat);
    lemma_recip_antitone(spec_exp_sum(y1, EXP_TERMS as nat), spec_exp_sum(y2, EXP_TERMS as nat));
    let e1 = spec_recip(spec_exp_sum(y1, EXP_TERMS as nat));
    let e2 = spec_recip(spec_exp_sum(y2, EXP_TERMS as nat));
    lemma_qmul_mono(e2, e2, e1, e1);
    let a1 = spec_qmul(e1, e1);
    let a2 = spec_qmul(e2, e2);
    lemma_qmul_mono(a2, a2, a1, a1);
    let b1 = spec_qmul(a1, a1);
    let b2 = spec_qmul(a2, a2);
    lemma_qmul_mono(b2, b2, b1, b1);
    let c1 = spec_qmul(b1, b1);
    let c2 = spec_qmul(b2, b2);
    lemma_qmul_mono(c2, c2, c1, c1);
    let d1 = spec_qmul(c1, c1);
    let d2 = spec_qmul(c2, c2);
    lemma_qmul_mono(d2, d2, d1, d1);
    let f1 = spec_qmul(d1, d1);
    let f2 = spec_qmul(d2, d2);
    lemma_qmul_mono(f2, f2, f1, f1);
}

/// `e^(-x / 2^32)` scaled by `2^32`, for `x / 2^32` below 64.
pub fn exp_neg_q(x: u64) -> (r: u64)
    requires
        x < 0x40_0000_0000,
    ensures
        r == spec_exp_neg(x as nat),
        r <= ONE_Q32,
{
    let y: u64 = x / 64;
    let ev: u64 = exp1_q(y);
    let e: u64 = recip_q(ev);
    let s1: u64 = qmul(e, e);
    let s2: u64 = qmul(s1, s1);
    let s3: u64 = qmul(s2, s2);
    let s4: u64 = qmul(s3, s3);
    let s5: u64 = qmul(s4, s4);
    qmul(s5, s5)
}

/// `b^k` in fixed point: `k` successive fixed-point products starting
/// from one.
pub open spec fn spec_pow_q(b: nat, k: nat) -> nat
    decreases k,
{
    if k == 0 {
        0x1_0000_0000
    } else {
        spec_qmul(spec_pow_q(b, (k - 1) as nat), b)
    }
}

/// A fixed-point power grows with its base.
pub proof fn lemma_pow_mono_base(b1: nat, b2: nat, k: nat)
    requires
        b1 <= b2,
    ensures
        spec_pow_q(b1, k) <= spec_pow_q(b2, k),
    decreases k,
{
    if k > 0 {
        lemma_pow_mono_base(b1, b2, (k - 1) as nat);
        lemma_qmul_mono(spec_pow_q(b1, (k - 1) as nat), b1, spec_pow_q(b2, (k - 1) as nat), b2);
    }
}

/// Fixed-point `b^k` for a base at most one.
pub fn pow_q(b: u64, k: usize) -> (r: u64)
    requires
        b <= ONE_Q32,
    ensures
        r == spec_pow_q(b as nat, k as nat),
        r <= ONE_Q32,
{
    let mut r: u64 = ONE_Q32;
    let mut i: usize = 0;
    while i < k
        invariant
            b <= ONE_Q32,
            i <= k,
            r == spec_pow_q(b as nat, i as nat),
            r <= ONE_Q32,
        decreases k - i,
    {
        r = qmul(r, b);
        i = i + 1;
    }
    r
}

/// How many doublings a positive value below one takes to exceed one:
/// the integer part of `log2(2^32 / p)` for `p` scaled by `2^32`.
pub open spec fn spec_log2_int(p: nat) -> nat
    decreases 0x1_0000_0000nat - p when 1 <= p
{
    if 2 * p <= 0x1_0000_0000 {
        1 + spec_log2_int(2 * p)
    } else {
        0
    }
}

/// `p` doubled until it lies in `(2^31, 2^32]`.
pub open spec fn spec_norm(p: nat) -> nat
    decreases 0x1_0000_0000nat - p when 1 <= p
{
    if 2 * p <= 0x1_0000_0000 {
        spec_norm(2 * p)
    } else {
        p
    }
}

/// The fractional bits of `log2(mant / 2^32)` for a mantissa in `[1, 2)`,
/// extracted most-significant first by repeated squaring: each round
/// squares the mantissa and emits one bit saying whether it passed two.
pub open spec fn spec_log2_frac(mant: nat, rounds: nat) -> nat
    decreases rounds,
{
    if rounds == 0 {
        0
    } else {
        let s = (mant * mant) / 0x1_0000_0000;
        if s >= 0x2_0000_0000 {
            pow2((rounds - 1) as nat) + spec_log2_frac(s / 2, (rounds - 1) as nat)
        } else {
            spec_log2_frac(s, (rounds - 1) as nat)
        }
    }
}

/// `log2(2^32 / p)` scaled by `2^32`, to 32 fractional bits, for a rate
/// `p` scaled by `2^32`.
pub open spec fn spec_log2_recip(p: nat) -> nat {
    spec_log2_int(p) * 0x1_0000_0000 + spec_log2_frac(
        0x1_0000_0000_0000_0000nat / spec_norm(p),
        32,
    )
}

/// The emitted fraction stays below one unit of its round count.
proof fn lemma_log2_frac_bound(mant: nat, rounds: nat)
    ensures
        spec_log2_frac(mant, rounds) < pow2(rounds),
    decreases rounds,
{
    lemma_pow2_pos(rounds);
    if rounds > 0 {
        let s = (mant * mant) / 0x1_0000_0000;
        lemma_pow2_unfold(rounds);
        if s >= 0x2_0000_0000 {
            lemma_log2_frac_bound(s / 2, (rounds - 1) as nat);
        } else {
            lemma_log2_frac_bound(s, (rounds - 1) as nat);
        }
    }
}

/// `log2(2^32 / p)` scaled by `2^32`, to 32 fractional bits.
pub fn log2_recip_q(p: u64) -> (r: u64)
    requires
        1 <= p,
        p <= ONE_Q32,
    ensures
        r == spec_log2_recip(p as nat),
        r < 0x21_0000_0000,
{
    let mut e: u64 = 0;
    let mut shifted: u64 = p;
    proof {
        vstd::arithmetic::power2::lemma2_to64();
    }
    while shifted * 2 <= ONE_Q32
        invariant
            1 <= shifted <= ONE_Q32,
            shifted >= pow2(e as nat),
            e <= 32,
            spec_log2_int(p as nat) == e + spec_log2_int(shifted as nat),
            spec_norm(p as nat) == spec_norm(shifted as nat),
        decreases ONE_Q32 - shifted,
    {
        proof {
            lemma_pow2_unfold((e + 1) as nat);
            if e >= 32 {
                lemma_pow2_strictly_increases(32, (e + 1) as nat);
                vstd::arithmetic::power2::lemma2_to64();
                assert(false);
            }
        }
        shifted = shifted * 2;
        e = e + 1;
    }
    // shifted == spec_norm(p) lies in (2^31, 2^32]
    let mut mant: u64 = (0x1_0000_0000_0000_0000u128 / (shifted as u128)) as u64;
    proof {
        lemma_div_is_ordered_by_denominator(
            0x1_0000_0000_0000_0000,
            shifted as int,
            0x1_0000_0000,
        );
        lemma_div_is_ordered_by_denominator(0x1_0000_0000_0000_0000, 0x8000_0001, shifted as int);
        assert(0x1_0000_0000_0000_0000int / 0x8000_0001int < 0x2_0000_0000);
    }
    let ghost mant0 = mant as nat;
    let mut frac: u64 = 0;
    let mut t: usize = 0;
    proof {
        vstd::arithmetic::power2::lemma2_to64();
    }
    while t < 32
        invariant
            0x1_0000_0000 <= mant < 0x2_0000_0000,
            t <= 32,
            frac < pow2(t as nat),
            spec_log2_frac(mant0, 32) == frac * pow2((32 - t) as nat) + spec_log2_frac(
                mant as nat,
                (32 - t) as nat,
            ),
        decreases 32 - t,
    {
        proof {
            lemma_mul_upper_bound(mant as int, 0x1_ffff_ffff, mant as int, 0x1_ffff_ffff);
            assert((mant as nat) * (mant as nat) >= 0x1_0000_0000_0000_0000) by (nonlinear_arith)
                requires
                    mant >= 0x1_0000_0000,
            ;
            lemma_div_is_ordered(
                0x1_0000_0000_0000_0000,
                ((mant as nat) * (mant as nat)) as int,
                0x1_0000_0000,
            );
            lemma_div_is_ordered(
                ((mant as nat) * (mant as nat)) as int,
                0x1_ffff_ffffint * 0x1_ffff_ffffint,
                0x1_0000_0000,
            );
            lemma_pow2_unfold((32 - t) as nat);
            vstd::arithmetic::power2::lemma2_to64();
            lemma_pow2_strictly_increases(t as nat, 32);
        }
        let s: u64 = (((mant as u128) * (mant as u128)) / 0x1_0000_0000u128) as u64;
        proof {
            let p31 = pow2((31 - t) as nat);
            assert(pow2((32 - t) as nat) == 2 * p31);
            assert((2 * (frac as nat) + 1) * p31 == (frac as nat) * (2 * p31) + p31)
                by (nonlinear_arith);
            assert((2 * (frac as nat)) * p31 == (frac as nat) * (2 * p31)) by (nonlinear_arith);
        }
        if s >= 0x2_0000_0000 {
            frac = frac * 2 + 1;
            mant = s / 2;
        } else {
            frac = frac * 2;
            mant = s;
        }
        t = t + 1;
    }
    proof {
        vstd::arithmetic::power2::lemma2_to64();
        lemma_log2_frac_bound(mant0, 32);
        assert(spec_log2_int(shifted as nat) == 0);
        assert(spec_norm(shifted as nat) == shifted as nat);
        assert(mant0 == 0x1_0000_0000_0000_0000nat / spec_norm(p as nat));
        assert(spec_log2_frac(mant as nat, 0) == 0);
        assert(t == 32);
        assert((32 - t as int) == 0);
        assert(spec_log2_frac(mant0, 32) == frac * pow2(0) + spec_log2_frac(mant as nat, 0));
        assert(frac * pow2(0) == frac * 1);
        assert(spec_log2_frac(mant0, 32) == frac);
        assert(spec_log2_recip(p as nat) == spec_log2_int(p as nat) * 0x1_0000_0000
            + spec_log2_frac(mant0, 32));
    }
    e * ONE_Q32 + frac
}

} // verus!
