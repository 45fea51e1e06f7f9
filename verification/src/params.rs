//! The parameter solver: closed-form Bloom filter sizing. From an item
//! count and a target false-positive rate it derives the bit count
//! `m = ceil(n * log2(1/p) / ln 2)` and hash count `k = ceil((m/n) * ln 2)`,
//! and computes the achieved rate `(1 - e^(-k*n/m))^k` at any fill level,
//! all in fixed point over fractions of `2^32`.

use crate::fixed::{
    exp_neg_q, lemma_exp_neg_antitone, lemma_exp_neg_le_one, lemma_pow_mono_base, log2_recip_q,
    pow_q, spec_exp_neg, spec_log2_recip, spec_pow_q, LN2_Q32, ONE_Q32,
};
use vstd::string::StringExecFns;
use vstd::arithmetic::div_mod::{
    lemma_div_is_ordered, lemma_div_multiples_vanish, lemma_div_multiples_vanish_fancy,
    lemma_multiply_divide_lt,
};
use vstd::arithmetic::mul::lemma_mul_upper_bound;
use vstd::prelude::*;

verus! {

/// Ceiling division: the least `q` with `q * b >= a`, for positive `b`.
pub open spec fn spec_ceil_div(a: nat, b: nat) -> nat
    recommends
        b >= 1,
{
    ((a + b - 1) as nat) / b
}

/// A ceiling quotient is bounded by any `c` whose product with the
/// divisor reaches the dividend.
proof fn lemma_ceil_div_le(a: nat, b: nat, c: nat)
    requires
        b >= 1,
        a <= b * c,
    ensures
        spec_ceil_div(a, b) <= c,
{
    lemma_div_is_ordered((a + b - 1) as int, (b * c + b - 1) as int, b as int);
    lemma_div_multiples_vanish_fancy(c as int, (b - 1) as int, b as int);
}

/// The achieved false-positive rate `(1 - e^(-k*n/m))^k`, as a fraction
/// of `2^32`; exponents past 64 count as fully saturated.
pub open spec fn spec_fpr(m: nat, k: nat, n: nat) -> nat
    recommends
        m >= 1,
{
    let x = (k * n * 0x1_0000_0000) / m;
    let en: nat = if x >= 0x40_0000_0000 {
        0
    } else {
        spec_exp_neg(x)
    };
    spec_pow_q((0x1_0000_0000 - en) as nat, k)
}

/// The optimal bit count `ceil(n * log2(1/p) / ln 2)`, floored at one.
pub open spec fn spec_optimal_bits(n: nat, p: nat) -> nat {
    let raw = spec_ceil_div(n * spec_log2_recip(p), LN2_Q32 as nat);
    if raw == 0 {
        1
    } else {
        raw
    }
}

/// The optimal hash count `ceil((m/n) * ln 2)`, floored at one.
pub open spec fn spec_optimal_hashes(m: nat, n: nat) -> nat {
    let raw = spec_ceil_div(m * (LN2_Q32 as nat), n * 0x1_0000_0000);
    if raw == 0 {
        1
    } else {
        raw
    }
}

/// Sizing parameters for a filter: bit count `m`, hash count `k`,
/// expected item count `n` and the target false-positive rate as a
/// fraction of `2^32`.
#[derive(Debug, Clone, Copy, PartialEq)]
pub struct BloomParameters {
    /// Number of bits in the filter (m).
    pub num_bits: usize,
    /// Number of hash functions (k).
    pub num_hashes: usize,
    /// Expected number of items (n).
    pub expected_items: usize,
    /// Target false-positive rate, scaled by `2^32`.
    pub false_positive_rate: u64,
}

impl BloomParameters {
    /// The documented invariant: positive sizes and a rate strictly
    /// between zero and one.
    pub open spec fn spec_valid(&self) -> bool {
        &&& self.num_bits >= 1
        &&& self.num_hashes >= 1
        &&& self.expected_items >= 1
        &&& 0 < self.false_positive_rate < ONE_Q32
    }

    /// Solve for the optimal parameters given an expected item count and
    /// a target false-positive rate (a fraction of `2^32`, strictly
    /// between zero and one): `m = ceil(-n ln p / ln(2)^2)` computed as
    /// `ceil(n * log2(1/p) / ln 2)`, then `k = ceil((m/n) * ln 2)`, each
    /// floored at one.
    pub fn from_item_count(expected_items: usize, false_positive_rate: u64) -> (r: BloomParameters)
        requires
            expected_items >= 1,
            0 < false_positive_rate < ONE_Q32,
            expected_items <= usize::MAX / 48,
        ensures
            r.num_bits == spec_optimal_bits(expected_items as nat, false_positive_rate as nat),
            r.num_hashes == spec_optimal_hashes(r.num_bits as nat, expected_items as nat),
            r.expected_items == expected_items,
            r.false_positive_rate == false_positive_rate,
            r.num_bits <= 48 * expected_items,
            r.spec_valid(),
    {
        let ell: u64 = log2_recip_q(false_positive_rate);
        let n128: u128 = expected_items as u128;
        proof {
            lemma_mul_upper_bound(
                expected_items as int,
                0xffff_ffff_ffff_ffff,
                ell as int,
                0x21_0000_0000,
            );
        }
        let num: u128 = n128 * (ell as u128);
        let mq: u128 = (num + (LN2_Q32 as u128) - 1) / (LN2_Q32 as u128);
        proof {
            lemma_mul_upper_bound(expected_items as int, expected_items as int, ell as int, (
            48 * LN2_Q32) as int);
            assert((expected_items as int) * ((48 * LN2_Q32) as int) == ((48 * expected_items)
                as int) * (LN2_Q32 as int)) by (nonlinear_arith);
            lemma_ceil_div_le(
                (expected_items as nat) * (ell as nat),
                LN2_Q32 as nat,
                48 * (expected_items as nat),
            );
            assert(48 * (expected_items as nat) <= usize::MAX);
        }
        let num_bits: usize = if mq == 0 {
            1
        } else {
            mq as usize
        };
        let num_hashes: usize = Self::optimal_hash_count(num_bits, expected_items);
        BloomParameters { num_bits, num_hashes, expected_items, false_positive_rate }
    }

    /// `ceil((m/n) * ln 2)`, floored at one: the hash count that
    /// minimises the rate for `m` bits and `n` items.
    fn optimal_hash_count(num_bits: usize, expected_items: usize) -> (r: usize)
        requires
            num_bits >= 1,
            expected_items >= 1,
        ensures
            r == spec_optimal_hashes(num_bits as nat, expected_items as nat),
            r >= 1,
    {
        let kd: u128 = (expected_items as u128) * 0x1_0000_0000u128;
        let knum: u128 = (num_bits as u128) * (LN2_Q32 as u128);
        let kq: u128 = (knum + kd - 1) / kd;
        proof {
            lemma_mul_upper_bound(num_bits as int, num_bits as int, LN2_Q32 as int, (
            expected_items * 0x1_0000_0000) as int);
            assert((num_bits as int) * ((expected_items * 0x1_0000_0000) as int) == ((
            expected_items * 0x1_0000_0000) as int) * (num_bits as int)) by (nonlinear_arith);
            lemma_ceil_div_le(
                (num_bits as nat) * (LN2_Q32 as nat),
                (expected_items as nat) * 0x1_0000_0000,
                num_bits as nat,
            );
        }
        if kq == 0 {
            1
        } else {
            kq as usize
        }
    }

    /// Fix the memory budget first: keep `num_bits`, derive the optimal
    /// hash count, and record the rate those parameters actually achieve.
    pub fn from_bit_count(num_bits: usize, expected_items: usize) -> (r: BloomParameters)
        requires
            num_bits >= 1,
            expected_items >= 1,
        ensures
            r.num_bits == num_bits,
            r.expected_items == expected_items,
            r.num_hashes == spec_optimal_hashes(num_bits as nat, expected_items as nat),
            r.num_hashes >= 1,
            r.false_positive_rate == spec_fpr(
                num_bits as nat,
                r.num_hashes as nat,
                expected_items as nat,
            ),
    {
        let num_hashes: usize = Self::optimal_hash_count(num_bits, expected_items);
        let false_positive_rate: u64 = Self::calculate_fpr(num_bits, num_hashes, expected_items);
        BloomParameters { num_bits, num_hashes, expected_items, false_positive_rate }
    }

    /// The theoretical false-positive rate `(1 - e^(-k*n/m))^k` for the
    /// given bit count, hash count and item count, as a fraction of
    /// `2^32`.
    pub fn calculate_fpr(num_bits: usize, num_hashes: usize, expected_items: usize) -> (r: u64)
        requires
            num_bits >= 1,
            num_hashes >= 1,
        ensures
            r == spec_fpr(num_bits as nat, num_hashes as nat, expected_items as nat),
            r <= ONE_Q32,
    {
        proof {
            lemma_mul_upper_bound(
                num_hashes as int,
                0xffff_ffff_ffff_ffff,
                expected_items as int,
                0xffff_ffff_ffff_ffff,
            );
        }
        let kn: u128 = (num_hashes as u128) * (expected_items as u128);
        let ghost xs = ((num_hashes as nat) * (expected_items as nat) * 0x1_0000_0000) / (
        num_bits as nat);
        if kn >= 64 * (num_bits as u128) {
            proof {
                lemma_mul_upper_bound(
                    (64 * num_bits) as int,
                    kn as int,
                    0x1_0000_0000,
                    0x1_0000_0000,
                );
                assert(((64 * num_bits) as int) * 0x1_0000_0000 == (num_bits as int)
                    * 0x40_0000_0000) by (nonlinear_arith);
                lemma_div_is_ordered(
                    (num_bits as int) * 0x40_0000_0000,
                    (kn as int) * 0x1_0000_0000,
                    num_bits as int,
                );
                lemma_div_multiples_vanish(0x40_0000_0000, num_bits as int);
                assert((kn as nat) * 0x1_0000_0000 == (num_hashes as nat) * (expected_items as nat)
                    * 0x1_0000_0000) by (nonlinear_arith)
                    requires
                        kn == (num_hashes as nat) * (expected_items as nat),
                ;
                assert(xs >= 0x40_0000_0000);
            }
            pow_q(ONE_Q32, num_hashes)
        } else {
            proof {
                lemma_mul_upper_bound(kn as int, (64 * num_bits) as int, 0x1_0000_0000, 0x1_0000_0000);
                assert(((64 * num_bits) as int) * 0x1_0000_0000 == (num_bits as int)
                    * 0x40_0000_0000) by (nonlinear_arith);
                lemma_multiply_divide_lt(
                    (kn as int) * 0x1_0000_0000,
                    num_bits as int,
                    0x40_0000_0000,
                );
                assert((kn as nat) * 0x1_0000_0000 == (num_hashes as nat) * (expected_items as nat)
                    * 0x1_0000_0000) by (nonlinear_arith)
                    requires
                        kn == (num_hashes as nat) * (expected_items as nat),
                ;
                assert(xs < 0x40_0000_0000);
            }
            let x: u64 = ((kn * 0x1_0000_0000u128) / (num_bits as u128)) as u64;
            let en: u64 = exp_neg_q(x);
            let base: u64 = ONE_Q32 - en;
            pow_q(base, num_hashes)
        }
    }

    /// The rate the filter achieves once `actual_items` items are in it,
    /// by the same formula at the new fill level.
    pub fn actual_fpr(&self, actual_items: usize) -> (r: u64)
        requires
            self.num_bits >= 1,
            self.num_hashes >= 1,
        ensures
            r == spec_fpr(self.num_bits as nat, self.num_hashes as nat, actual_items as nat),
            r <= ONE_Q32,
    {
        Self::calculate_fpr(self.num_bits, self.num_hashes, actual_items)
    }

    /// Check the documented invariant, naming the first field that
    /// breaks it.
    pub fn validate(&self) -> (r: Result<(), String>)
        ensures
            r is Ok <==> self.spec_valid(),
            self.num_bits == 0 ==> (r matches Err(msg) && msg@
                == "num_bits must be greater than 0"@),
            self.num_bits >= 1 && self.num_hashes == 0 ==> (r matches Err(msg) && msg@
                == "num_hashes must be greater than 0"@),
            self.num_bits >= 1 && self.num_hashes >= 1 && self.expected_items == 0 ==> (r matches
                Err(msg) && msg@ == "expected_items must be greater than 0"@),
            self.num_bits >= 1 && self.num_hashes >= 1 && self.expected_items >= 1 && !(0
                < self.false_positive_rate < ONE_Q32) ==> (r matches Err(msg) && msg@
                == "false_positive_rate must be between 0 and 1"@),
    {
        if self.num_bits == 0 {
            return Err(String::from_str("num_bits must be greater than 0"));
        }
        if self.num_hashes == 0 {
            return Err(String::from_str("num_hashes must be greater than 0"));
        }
        if self.expected_items == 0 {
            return Err(String::from_str("expected_items must be greater than 0"));
        }
        if self.false_positive_rate == 0 || self.false_positive_rate >= ONE_Q32 {
            return Err(String::from_str("false_positive_rate must be between 0 and 1"));
        }
        Ok(())
    }
}

/// More items never lower the achieved false-positive rate: for a fixed
/// bit count and hash count, `spec_fpr` is monotone in the item count.
pub proof fn lemma_fpr_monotone_in_items(m: nat, k: nat, n1: nat, n2: nat)
    requires
        m >= 1,
        n1 <= n2,
    ensures
        spec_fpr(m, k, n1) <= spec_fpr(m, k, n2),
{
    let x1 = (k * n1 * 0x1_0000_0000) / m;
    let x2 = (k * n2 * 0x1_0000_0000) / m;
    assert(k * n1 * 0x1_0000_0000 <= k * n2 * 0x1_0000_0000) by (nonlinear_arith)
        requires
            n1 <= n2,
    ;
    lemma_div_is_ordered((k * n1 * 0x1_0000_0000) as int, (k * n2 * 0x1_0000_0000) as int, m as int);
    let en1: nat = if x1 >= 0x40_0000_0000 {
        0
    } else {
        spec_exp_neg(x1)
    };
    let en2: nat = if x2 >= 0x40_0000_0000 {
        0
    } else {
        spec_exp_neg(x2)
    };
    if x1 < 0x40_0000_0000 {
        lemma_exp_neg_le_one(x1);
        if x2 < 0x40_0000_0000 {
            lemma_exp_neg_antitone(x1, x2);
        }
    }
    if x2 < 0x40_0000_0000 {
        lemma_exp_neg_le_one(x2);
    }
    assert(en2 <= en1 <= 0x1_0000_0000);
    lemma_pow_mono_base((0x1_0000_0000 - en1) as nat, (0x1_0000_0000 - en2) as nat, k);
}

} // verus!
