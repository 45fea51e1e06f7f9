//! Bit storage for the filter: a fixed-capacity bit vector packed into
//! 64-bit words, with all bits zero at construction.

use vstd::arithmetic::div_mod::{lemma_div_is_ordered, lemma_fundamental_div_mod};
use vstd::arithmetic::mul::lemma_mul_inequality;
use vstd::prelude::*;

verus! {

/// Number of 64-bit words needed to hold `capacity` bits.
pub open spec fn spec_num_words(capacity: nat) -> nat {
    (capacity + 63) / 64
}

/// Whether bit `i` of word `w` is set.
pub open spec fn bit64(w: u64, i: u64) -> bool
    recommends
        i < 64,
{
    (w >> i) & 1u64 == 1u64
}

/// Number of `true` entries in a sequence of bits.
pub open spec fn count_trues(s: Seq<bool>) -> nat
    decreases s.len(),
{
    if s.len() == 0 {
        0
    } else {
        count_trues(s.drop_last()) + (if s.last() {
            1nat
        } else {
            0nat
        })
    }
}

/// A bit array holding `capacity` bits, each addressable by an index in
/// `[0, capacity)`. Bits beyond `capacity` in the last word stay zero.
#[derive(Debug, Clone)]
pub struct BitArray {
    words: Vec<u64>,
    capacity: usize,
}

impl BitArray {
    /// The abstract content: one boolean per bit index.
    pub closed spec fn bits(&self) -> Seq<bool> {
        Seq::new(self.capacity as nat, |i: int| bit64(self.words@[i / 64], (i % 64) as u64))
    }

    /// The declared capacity in bits.
    pub closed spec fn spec_capacity(&self) -> usize {
        self.capacity
    }

    /// Well-formed: the word vector is exactly large enough and the unused
    /// high bits of the last word are zero.
    pub closed spec fn wf(&self) -> bool {
        &&& self.capacity >= 1
        &&& self.words@.len() == spec_num_words(self.capacity as nat)
        &&& forall|i: int|
            self.capacity <= i < self.words@.len() * 64 ==> !bit64(
                self.words@[i / 64],
                #[trigger] (i % 64) as u64,
            )
    }

    /// Create a bit array of `capacity` bits, all zero.
    pub fn new(capacity: usize) -> (r: BitArray)
        requires
            capacity >= 1,
            capacity + 63 <= usize::MAX,
        ensures
            r.wf(),
            r.spec_capacity() == capacity,
            r.bits() =~= Seq::new(capacity as nat, |i: int| false),
    {
        let num_words: usize = (capacity + 63) / 64;
        let mut words: Vec<u64> = Vec::new();
        let mut i: usize = 0;
        while i < num_words
            invariant
                i <= num_words,
                words@.len() == i,
                forall|j: int| 0 <= j < i ==> words@[j] == 0u64,
            decreases num_words - i,
        {
            words.push(0u64);
            i = i + 1;
        }
        let r = BitArray { words, capacity };
        proof {
            assert forall|j: int| 0 <= j < r.words@.len() * 64 implies !bit64(
                r.words@[j / 64],
                #[trigger] (j % 64) as u64,
            ) by {
                assert(0 <= j / 64 < r.words@.len()) by (nonlinear_arith)
                    requires
                        0 <= j < r.words@.len() * 64,
                ;
                let w = r.words@[j / 64];
                assert(w == 0u64);
                let b = (j % 64) as u64;
                assert((0u64 >> b) & 1u64 != 1u64) by (bit_vector);
            }
            assert(capacity <= r.words@.len() * 64) by (nonlinear_arith)
                requires
                    r.words@.len() == ((capacity + 63) / 64) as int,
            ;
        }
        r
    }

    /// Total number of bits this array holds.
    pub fn capacity(&self) -> (r: usize)
        ensures
            r == self.spec_capacity(),
    {
        self.capacity
    }

    /// Set the bit at `index` to 1; every other bit keeps its value.
    pub fn set(&mut self, index: usize)
        requires
            old(self).wf(),
            index < old(self).spec_capacity(),
        ensures
            final (self).wf(),
            final (self).spec_capacity() == old(self).spec_capacity(),
            final (self).bits() == old(self).bits().update(index as int, true),
    {
        proof {
            lemma_word_index_in_range(index, self.capacity, self.words@.len());
        }
        let wi: usize = index / 64;
        let bi: u64 = (index % 64) as u64;
        let w: u64 = self.words[wi];
        self.words[wi] = w | (1u64 << bi);
        proof {
            let oldb = old(self).bits();
            let newb = self.bits();
            assert forall|j: int| 0 <= j < self.capacity implies newb[j] == oldb.update(
                index as int,
                true,
            )[j] by {
                lemma_word_index_in_range(j as usize, self.capacity, old(self).words@.len());
                lemma_bit_or(w, bi, (j % 64) as u64);
                if j == index {
                } else if j / 64 == wi as int {
                    assert((j % 64) as u64 != bi) by {
                        lemma_fundamental_div_mod(j, 64);
                        lemma_fundamental_div_mod(index as int, 64);
                    }
                }
            }
            assert(newb =~= oldb.update(index as int, true));
            assert forall|i: int|
                self.capacity <= i < self.words@.len() * 64 implies !bit64(
                self.words@[i / 64],
                #[trigger] (i % 64) as u64,
            ) by {
                assert(0 <= i / 64 < self.words@.len()) by (nonlinear_arith)
                    requires
                        0 <= i < self.words@.len() * 64,
                ;
                lemma_bit_or(w, bi, (i % 64) as u64);
                if i / 64 == wi as int {
                    assert((i % 64) as u64 != bi) by {
                        lemma_fundamental_div_mod(i, 64);
                        lemma_fundamental_div_mod(index as int, 64);
                    }
                }
            }
        }
    }

    /// Read the bit at `index`.
    pub fn get(&self, index: usize) -> (r: bool)
        requires
            self.wf(),
            index < self.spec_capacity(),
        ensures
            r == self.bits()[index as int],
    {
        proof {
            lemma_word_index_in_range(index, self.capacity, self.words@.len());
        }
        let wi: usize = index / 64;
        let bi: u64 = (index % 64) as u64;
        let w: u64 = self.words[wi];
        proof {
            assert(((w & (1u64 << bi)) != 0) == (((w >> bi) & 1u64) == 1u64)) by (bit_vector)
                requires
                    bi < 64,
            ;
        }
        (w & (1u64 << bi)) != 0
    }

    /// Zero every bit, keeping the capacity.
    pub fn clear(&mut self)
        requires
            old(self).wf(),
        ensures
            final (self).wf(),
            final (self).spec_capacity() == old(self).spec_capacity(),
            final (self).bits() == Seq::new(old(self).spec_capacity() as nat, |i: int| false),
    {
        let n: usize = self.words.len();
        let mut i: usize = 0;
        while i < n
            invariant
                i <= n,
                self.words@.len() == n,
                self.capacity == old(self).capacity,
                n == spec_num_words(self.capacity as nat),
                forall|j: int| 0 <= j < i ==> self.words@[j] == 0u64,
            decreases n - i,
        {
            self.words[i] = 0u64;
            i = i + 1;
        }
        proof {
            assert forall|j: int| 0 <= j < self.words@.len() * 64 implies !bit64(
                self.words@[j / 64],
                #[trigger] (j % 64) as u64,
            ) by {
                assert(0 <= j / 64 < self.words@.len()) by (nonlinear_arith)
                    requires
                        0 <= j < self.words@.len() * 64,
                ;
                let b = (j % 64) as u64;
                assert((0u64 >> b) & 1u64 != 1u64) by (bit_vector);
            }
            assert(self.capacity <= self.words@.len() * 64) by (nonlinear_arith)
                requires
                    self.words@.len() == ((self.capacity + 63) / 64) as int,
            ;
            assert(self.bits() =~= Seq::new(old(self).spec_capacity() as nat, |i: int| false));
        }
    }

    /// Count the bits that are set to 1.
    pub fn count_ones(&self) -> (r: usize)
        requires
            self.wf(),
        ensures
            r == count_trues(self.bits()),
            r <= self.spec_capacity(),
    {
        let mut c: usize = 0;
        let mut j: usize = 0;
        while j < self.capacity
            invariant
                self.wf(),
                j <= self.capacity,
                c == count_trues(self.bits().take(j as int)),
                c <= j,
            decreases self.capacity - j,
        {
            proof {
                let s = self.bits();
                assert(s.take(j + 1).drop_last() =~= s.take(j as int));
                assert(s.take(j + 1).last() == s[j as int]);
            }
            if self.get(j) {
                c = c + 1;
            }
            j = j + 1;
        }
        proof {
            assert(self.bits().take(self.capacity as int) =~= self.bits());
        }
        c
    }

    /// Fraction of bits set, as a fixed-point fraction of `2^32`:
    /// `0` means empty and `2^32` means every bit is set.
    pub fn saturation(&self) -> (r: u64)
        requires
            self.wf(),
        ensures
            r == count_trues(self.bits()) * 0x1_0000_0000 / (self.spec_capacity() as nat),
            r <= 0x1_0000_0000u64,
    {
        let c: usize = self.count_ones();
        proof {
            lemma_scaled_ratio_bounded(c as int, self.capacity as int);
        }
        (((c as u128) * 0x1_0000_0000u128) / (self.capacity as u128)) as u64
    }

    /// The packed words, least-significant bit first within each word.
    pub fn as_words(&self) -> (r: &[u64])
        requires
            self.wf(),
        ensures
            r@.len() == spec_num_words(self.spec_capacity() as nat),
            forall|j: int|
                0 <= j < self.spec_capacity() ==> self.bits()[j] == bit64(
                    r@[j / 64],
                    #[trigger] (j % 64) as u64,
                ),
    {
        self.words.as_slice()
    }

    /// Build a bit array from packed words: bit `j` of the result is bit
    /// `j % 64` of `words[j / 64]`. The supplied vector must hold at least
    /// enough words for the capacity; words past that count are dropped and
    /// the unused high bits of the last word are zeroed.
    pub fn from_words(words: Vec<u64>, capacity: usize) -> (r: BitArray)
        requires
            capacity >= 1,
            capacity + 63 <= usize::MAX,
            words@.len() >= spec_num_words(capacity as nat),
        ensures
            r.wf(),
            r.spec_capacity() == capacity,
            forall|j: int|
                0 <= j < capacity ==> r.bits()[j] == bit64(
                    words@[j / 64],
                    #[trigger] (j % 64) as u64,
                ),
    {
        let needed: usize = (capacity + 63) / 64;
        let mut kept: Vec<u64> = words;
        kept.truncate(needed);
        let rem: u64 = (capacity % 64) as u64;
        if rem != 0 {
            proof {
                assert(1u64 << rem >= 1u64) by (bit_vector)
                    requires
                        rem < 64,
                ;
            }
            let last: u64 = kept[needed - 1];
            kept[needed - 1] = last & ((1u64 << rem) - 1);
        }
        let r = BitArray { words: kept, capacity };
        proof {
            let ghost ws = words@;
            assert(capacity <= needed * 64 && needed * 64 < capacity + 64) by (nonlinear_arith)
                requires
                    needed == ((capacity + 63) / 64) as int,
                    capacity >= 1,
            ;
            assert forall|j: int| 0 <= j < capacity implies r.bits()[j] == bit64(
                ws[j / 64],
                #[trigger] (j % 64) as u64,
            ) by {
                lemma_word_index_in_range(j as usize, capacity, needed as nat);
                if rem != 0 && j / 64 == needed - 1 {
                    assert(((j % 64) as u64) < rem) by {
                        lemma_fundamental_div_mod(j, 64);
                        lemma_fundamental_div_mod(capacity as int, 64);
                        assert(capacity as int / 64 == needed - 1) by (nonlinear_arith)
                            requires
                                needed == ((capacity + 63) / 64) as int,
                                capacity as int % 64 != 0,
                                capacity >= 1,
                        ;
                    }
                    lemma_bit_mask_low(ws[needed - 1], rem, (j % 64) as u64);
                }
            }
            assert forall|i: int| capacity <= i < r.words@.len() * 64 implies !bit64(
                r.words@[i / 64],
                #[trigger] (i % 64) as u64,
            ) by {
                assert(rem != 0) by {
                    lemma_fundamental_div_mod(capacity as int, 64);
                }
                assert(0 <= i / 64 < r.words@.len()) by (nonlinear_arith)
                    requires
                        0 <= i < r.words@.len() * 64,
                ;
                assert(i / 64 == needed - 1 && ((i % 64) as u64) >= rem) by {
                    lemma_fundamental_div_mod(i, 64);
                    lemma_fundamental_div_mod(capacity as int, 64);
                    assert(capacity as int / 64 == needed - 1) by (nonlinear_arith)
                        requires
                            needed == ((capacity + 63) / 64) as int,
                            capacity as int % 64 != 0,
                            capacity >= 1,
                    ;
                }
                lemma_bit_mask_low(ws[needed - 1], rem, (i % 64) as u64);
            }
        }
        r
    }
}

/// Bit `b` survives `w | (1 << b)`, and no other bit changes.
proof fn lemma_bit_or(w: u64, b: u64, c: u64)
    by (bit_vector)
    requires
        b < 64,
        c < 64,
    ensures
        bit64(w | (1u64 << b), b),
        c != b ==> bit64(w | (1u64 << b), c) == bit64(w, c),
{
}

/// Masking with `(1 << rem) - 1` keeps bits below `rem` and clears the rest.
proof fn lemma_bit_mask_low(w: u64, rem: u64, c: u64)
    by (bit_vector)
    requires
        0 < rem < 64,
        c < 64,
    ensures
        c < rem ==> bit64(w & (((1u64 << rem) - 1) as u64), c) == bit64(w, c),
        c >= rem ==> !bit64(w & (((1u64 << rem) - 1) as u64), c),
{
}

/// A bit index below the capacity falls in a valid word.
proof fn lemma_word_index_in_range(index: usize, capacity: usize, num_words: nat)
    requires
        index < capacity,
        num_words >= spec_num_words(capacity as nat),
    ensures
        0 <= index as int / 64 < num_words,
        ((index as int % 64) as u64) < 64,
{
    assert(index as int / 64 < num_words) by (nonlinear_arith)
        requires
            index < capacity,
            num_words >= ((capacity + 63) / 64) as int,
    ;
}

/// Growing a bit sequence pointwise never lowers its population count.
pub proof fn lemma_count_trues_monotone(b1: Seq<bool>, b2: Seq<bool>)
    requires
        b1.len() == b2.len(),
        forall|j: int| 0 <= j < b1.len() ==> (b1[j] ==> b2[j]),
    ensures
        count_trues(b1) <= count_trues(b2),
    decreases b1.len(),
{
    if b1.len() > 0 {
        assert forall|j: int| 0 <= j < b1.drop_last().len() implies (b1.drop_last()[j]
            ==> b2.drop_last()[j]) by {
            assert(b1[j] ==> b2[j]);
        }
        lemma_count_trues_monotone(b1.drop_last(), b2.drop_last());
        assert(b1.last() ==> b2.last());
    }
}

/// Saturation only rises as bits are set: for one capacity, a pointwise
/// greater bit sequence has a saturation at least as large. Since
/// insertions only set bits and never clear them, the saturation after
/// each insertion is at least the saturation before it.
pub proof fn lemma_saturation_monotone(b1: Seq<bool>, b2: Seq<bool>, capacity: nat)
    requires
        b1.len() == b2.len(),
        forall|j: int| 0 <= j < b1.len() ==> (b1[j] ==> b2[j]),
        capacity >= 1,
    ensures
        count_trues(b1) * 0x1_0000_0000 / capacity <= count_trues(b2) * 0x1_0000_0000 / capacity,
{
    lemma_count_trues_monotone(b1, b2);
    lemma_mul_inequality(count_trues(b1) as int, count_trues(b2) as int, 0x1_0000_0000);
    lemma_div_is_ordered(
        (count_trues(b1) * 0x1_0000_0000) as int,
        (count_trues(b2) * 0x1_0000_0000) as int,
        capacity as int,
    );
}

/// A count no greater than the capacity scales into the fixed-point range.
proof fn lemma_scaled_ratio_bounded(c: int, capacity: int)
    requires
        0 <= c <= capacity,
        1 <= capacity,
    ensures
        0 <= c * 0x1_0000_0000 / capacity <= 0x1_0000_0000,
{
    assert(c * 0x1_0000_0000 / capacity <= 0x1_0000_0000) by (nonlinear_arith)
        requires
            0 <= c <= capacity && 1 <= capacity,
    ;
    assert(c * 0x1_0000_0000 / capacity >= 0) by (nonlinear_arith)
        requires
            0 <= c && 1 <= capacity,
    ;
}

} // verus!
