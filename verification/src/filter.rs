//! The filter orchestrator: composes the bit array, the index generator,
//! the parameter solver and the fill tracker into insert / contains /
//! clear and the reporting accessors. The central guarantee is the
//! absence of false negatives: an inserted item's positions stay set
//! until `clear`, so `contains` answers true for it.

use crate::accuracy::AccuracyTracker;
use crate::bit_array::{count_trues, lemma_saturation_monotone, BitArray};
use crate::fixed::ONE_Q32;
use crate::hash::{ahash_of, seahash_of, spec_bit_index, HashStrategy};
use crate::params::{spec_fpr, spec_optimal_bits, spec_optimal_hashes, BloomParameters};
use vstd::prelude::*;

verus! {

/// A Bloom filter: a bit array addressed by double hashing, with its
/// sizing parameters and fill counters.
#[derive(Debug, Clone)]
pub struct PrecisionBloom {
    bits: BitArray,
    hash_strategy: HashStrategy,
    params: BloomParameters,
    tracker: AccuracyTracker,
}

impl PrecisionBloom {
    /// The sizing parameters of this filter.
    pub closed spec fn spec_params(&self) -> BloomParameters {
        self.params
    }

    /// The bit array content, one boolean per bit.
    pub closed spec fn spec_bits(&self) -> Seq<bool> {
        self.bits.bits()
    }

    /// The insertion count.
    pub closed spec fn spec_len(&self) -> usize {
        self.tracker.spec_items_inserted()
    }

    /// The query count of the tracker.
    pub closed spec fn spec_queries(&self) -> usize {
        self.tracker.spec_queries_performed()
    }

    /// The fill tracker.
    pub closed spec fn spec_tracker(&self) -> AccuracyTracker {
        self.tracker
    }

    /// Well-formed: valid parameters, a bit array of exactly `num_bits`
    /// bits, an index generator sized to match, and a tracker carrying
    /// the same parameters.
    pub closed spec fn wf(&self) -> bool {
        &&& self.params.spec_valid()
        &&& self.bits.wf()
        &&& self.bits.spec_capacity() == self.params.num_bits
        &&& self.hash_strategy.spec_num_hashes() == self.params.num_hashes
        &&& self.hash_strategy.spec_num_bits() == self.params.num_bits
        &&& self.tracker.spec_params() == self.params
        &&& self.spec_bits().len() == self.params.num_bits
    }

    /// Whether every one of the item's `num_hashes` bit positions is
    /// set: exactly what `contains` answers, and what `insert`
    /// establishes.
    pub open spec fn spec_marked(&self, item: Seq<u8>) -> bool {
        forall|i: u64|
            i < self.spec_params().num_hashes ==> self.spec_bits()[#[trigger] spec_bit_index(
                ahash_of(item),
                seahash_of(item),
                i,
                self.spec_params().num_bits,
            ) as int]
    }

    /// Whether bit position `j` is one of the item's hash positions.
    pub open spec fn spec_hits(&self, item: Seq<u8>, j: int) -> bool {
        exists|i: u64|
            i < self.spec_params().num_hashes && #[trigger] spec_bit_index(
                ahash_of(item),
                seahash_of(item),
                i,
                self.spec_params().num_bits,
            ) == j
    }

    /// Create a filter from explicit parameters, which must satisfy the
    /// documented invariant (`BloomParameters::validate` checks it).
    pub fn new(params: BloomParameters) -> (r: PrecisionBloom)
        requires
            params.spec_valid(),
            params.num_bits + 63 <= usize::MAX,
        ensures
            r.wf(),
            r.spec_params() == params,
            r.spec_len() == 0,
            r.spec_queries() == 0,
            forall|j: int| 0 <= j < r.spec_bits().len() ==> !r.spec_bits()[j],
    {
        let bits = BitArray::new(params.num_bits);
        let hash_strategy = HashStrategy::new(params.num_hashes, params.num_bits);
        let tracker = AccuracyTracker::new(params);
        PrecisionBloom { bits, hash_strategy, params, tracker }
    }

    /// Create a filter for an expected item count and a target
    /// false-positive rate (a fraction of `2^32`, strictly between zero
    /// and one), with the solver picking the optimal bit and hash counts.
    pub fn with_capacity(expected_items: usize, false_positive_rate: u64) -> (r: PrecisionBloom)
        requires
            expected_items >= 1,
            0 < false_positive_rate < ONE_Q32,
            expected_items <= (usize::MAX - 63) / 48,
        ensures
            r.wf(),
            r.spec_params().num_bits == spec_optimal_bits(
                expected_items as nat,
                false_positive_rate as nat,
            ),
            r.spec_params().num_hashes == spec_optimal_hashes(
                r.spec_params().num_bits as nat,
                expected_items as nat,
            ),
            r.spec_params().expected_items == expected_items,
            r.spec_params().false_positive_rate == false_positive_rate,
            r.spec_len() == 0,
            r.spec_queries() == 0,
            forall|j: int| 0 <= j < r.spec_bits().len() ==> !r.spec_bits()[j],
    {
        let params = BloomParameters::from_item_count(expected_items, false_positive_rate);
        Self::new(params)
    }

    /// Insert an item: set all of its hash positions and count one
    /// insertion. Returns true exactly when some position was unset
    /// before — a "probably new" signal, not a membership guarantee.
    /// Every previously marked item stays marked.
    pub fn insert(&mut self, item: &[u8]) -> (r: bool)
        requires
            old(self).wf(),
            old(self).spec_len() < usize::MAX,
        ensures
            final (self).wf(),
            final (self).spec_params() == old(self).spec_params(),
            final (self).spec_len() == old(self).spec_len() + 1,
            final (self).spec_queries() == old(self).spec_queries(),
            final (self).spec_marked(item@),
            forall|j: int|
                0 <= j < final (self).spec_bits().len() ==> final (self).spec_bits()[j] == (old(
                    self,
                ).spec_bits()[j] || old(self).spec_hits(item@, j)),
            forall|other: Seq<u8>|
                old(self).spec_marked(other) ==> final (self).spec_marked(other),
            r == !old(self).spec_marked(item@),
    {
        self.tracker.record_insert();
        let indices: Vec<usize> = self.hash_strategy.hash_indices(item);
        let ghost h1 = ahash_of(item@);
        let ghost h2 = seahash_of(item@);
        let ghost m = self.params.num_bits;
        let ghost k = self.params.num_hashes;
        let ghost bits0 = self.bits.bits();
        let mut was_absent: bool = false;
        let num: usize = indices.len();
        let mut t: usize = 0;
        while t < num
            invariant
                t <= num,
                num == k,
                indices@.len() == k,
                forall|i: int|
                    0 <= i < k ==> (#[trigger] indices@[i]) == spec_bit_index(h1, h2, i as u64, m)
                        && indices@[i] < m,
                old(self).wf(),
                self.bits.wf(),
                self.bits.spec_capacity() == m,
                self.bits.bits().len() == m,
                bits0.len() == m,
                m == old(self).spec_params().num_bits,
                k == old(self).spec_params().num_hashes,
                self.params == old(self).spec_params(),
                self.hash_strategy == old(self).hash_strategy,
                self.tracker.spec_params() == old(self).spec_params(),
                self.tracker.spec_items_inserted() == old(self).spec_len() + 1,
                self.tracker.spec_queries_performed() == old(self).spec_queries(),
                forall|j: int|
                    0 <= j < m ==> (#[trigger] self.bits.bits()[j]) == (bits0[j] || exists|i: int|
                        0 <= i < t && #[trigger] indices@[i] == j),
                was_absent == exists|i: int| 0 <= i < t && !bits0[#[trigger] indices@[i] as int],
            decreases num - t,
        {
            let index: usize = indices[t];
            let ghost bits_before = self.bits.bits();
            if !self.bits.get(index) {
                was_absent = true;
                self.bits.set(index);
                proof {
                    assert(!bits0[index as int]);
                }
            }
            proof {
                assert forall|j: int|
                    0 <= j < m implies self.bits.bits()[j] == (bits0[j] || exists|i: int|
                    0 <= i < t + 1 && #[trigger] indices@[i] == j) by {
                    if j == index {
                        assert(indices@[t as int] == j);
                    } else {
                        assert(self.bits.bits()[j] == bits_before[j]);
                        assert((exists|i: int| 0 <= i < t + 1 && #[trigger] indices@[i] == j)
                            == (exists|i: int| 0 <= i < t && #[trigger] indices@[i] == j));
                    }
                }
                if bits_before[index as int] && !was_absent {
                    if !bits0[index as int] {
                        let w = choose|i: int| 0 <= i < t && #[trigger] indices@[i] == index;
                        assert(!bits0[indices@[w] as int]);
                        assert(false);
                    }
                }
            }
            t = t + 1;
        }
        proof {
            assert forall|i: u64| i < k implies self.bits.bits()[#[trigger] spec_bit_index(
                h1,
                h2,
                i,
                m,
            ) as int] by {
                assert(indices@[i as int] == spec_bit_index(h1, h2, i as u64, m));
            }
            if was_absent {
                let w = choose|i: int| 0 <= i < k && !bits0[#[trigger] indices@[i] as int];
                assert(!bits0[spec_bit_index(h1, h2, w as u64, m) as int]);
                assert(!old(self).spec_marked(item@));
            } else {
                assert forall|i: u64| i < k implies bits0[#[trigger] spec_bit_index(
                    h1,
                    h2,
                    i,
                    m,
                ) as int] by {
                    assert(indices@[i as int] == spec_bit_index(h1, h2, i as u64, m));
                    if !bits0[indices@[i as int] as int] {
                        assert(false);
                    }
                }
            }
            assert forall|other: Seq<u8>|
                old(self).spec_marked(other) implies self.spec_marked(other) by {
                assert forall|i: u64|
                    i < k implies self.spec_bits()[#[trigger] spec_bit_index(
                    ahash_of(other),
                    seahash_of(other),
                    i,
                    m,
                ) as int] by {
                    let j = spec_bit_index(ahash_of(other), seahash_of(other), i, m);
                    assert(old(self).spec_bits()[j as int]);
                }
            }
        }
        was_absent
    }

    /// Whether the item might be in the filter: true exactly when all of
    /// its hash positions are set. An item inserted since the last clear
    /// always answers true; an item never inserted answers true only on
    /// a hash collision (a false positive).
    pub fn contains(&self, item: &[u8]) -> (r: bool)
        requires
            self.wf(),
        ensures
            r == self.spec_marked(item@),
    {
        let indices: Vec<usize> = self.hash_indices_of(item);
        let ghost h1 = ahash_of(item@);
        let ghost h2 = seahash_of(item@);
        let ghost m = self.params.num_bits;
        let ghost k = self.params.num_hashes;
        let num: usize = indices.len();
        let mut t: usize = 0;
        while t < num
            invariant
                t <= num,
                num == k,
                self.wf(),
                h1 == ahash_of(item@),
                h2 == seahash_of(item@),
                m == self.spec_params().num_bits,
                k == self.spec_params().num_hashes,
                indices@.len() == k,
                forall|i: int|
                    0 <= i < k ==> (#[trigger] indices@[i]) == spec_bit_index(h1, h2, i as u64, m)
                        && indices@[i] < m,
                self.bits.spec_capacity() == m,
                forall|i: int| 0 <= i < t ==> self.bits.bits()[#[trigger] indices@[i] as int],
            decreases num - t,
        {
            let index: usize = indices[t];
            if !self.bits.get(index) {
                proof {
                    let ii = t as u64;
                    assert(indices@[t as int] == spec_bit_index(h1, h2, ii, m));
                    assert(!self.spec_bits()[spec_bit_index(
                        ahash_of(item@),
                        seahash_of(item@),
                        ii,
                        self.spec_params().num_bits,
                    ) as int]);
                    assert(!self.spec_marked(item@));
                }
                return false;
            }
            t = t + 1;
        }
        proof {
            assert forall|i: u64| i < k implies self.spec_bits()[#[trigger] spec_bit_index(
                h1,
                h2,
                i,
                m,
            ) as int] by {
                assert(indices@[i as int] == spec_bit_index(h1, h2, i as u64, m));
            }
        }
        true
    }

    /// Alias for `contains`.
    pub fn may_contain(&self, item: &[u8]) -> (r: bool)
        requires
            self.wf(),
        ensures
            r == self.spec_marked(item@),
    {
        self.contains(item)
    }

    /// The item's hash positions, through this filter's index generator.
    fn hash_indices_of(&self, item: &[u8]) -> (r: Vec<usize>)
        requires
            self.wf(),
        ensures
            r@.len() == self.spec_params().num_hashes,
            forall|i: int|
                0 <= i < r@.len() ==> (#[trigger] r@[i]) == spec_bit_index(
                    ahash_of(item@),
                    seahash_of(item@),
                    i as u64,
                    self.spec_params().num_bits,
                ) && r@[i] < self.spec_params().num_bits,
    {
        self.hash_strategy.hash_indices(item)
    }

    /// Empty the filter: zero every bit and both counters. Afterwards no
    /// item is reported present.
    pub fn clear(&mut self)
        requires
            old(self).wf(),
        ensures
            final (self).wf(),
            final (self).spec_params() == old(self).spec_params(),
            final (self).spec_len() == 0,
            final (self).spec_queries() == 0,
            forall|j: int| 0 <= j < final (self).spec_bits().len() ==> !final (self).spec_bits()[j],
            forall|item: Seq<u8>| !final (self).spec_marked(item),
    {
        self.bits.clear();
        self.tracker.reset();
        proof {
            lemma_nothing_marked_when_empty(*self);
        }
    }

    /// The number of insertions recorded (duplicates counted each time).
    pub fn len(&self) -> (r: usize)
        ensures
            r == self.spec_len(),
    {
        self.tracker.items_inserted()
    }

    /// Whether nothing was inserted since construction or the last clear.
    pub fn is_empty(&self) -> (r: bool)
        ensures
            r == (self.spec_len() == 0),
    {
        self.len() == 0
    }

    /// The expected item count the filter was sized for.
    pub fn capacity(&self) -> (r: usize)
        ensures
            r == self.spec_params().expected_items,
    {
        self.params.expected_items
    }

    /// The number of bits in the filter.
    pub fn num_bits(&self) -> (r: usize)
        ensures
            r == self.spec_params().num_bits,
    {
        self.params.num_bits
    }

    /// The number of hash functions used per item.
    pub fn num_hashes(&self) -> (r: usize)
        ensures
            r == self.spec_params().num_hashes,
    {
        self.params.num_hashes
    }

    /// The target false-positive rate, as a fraction of `2^32`.
    pub fn false_positive_rate(&self) -> (r: u64)
        ensures
            r == self.spec_params().false_positive_rate,
    {
        self.params.false_positive_rate
    }

    /// The rate formula evaluated at the current insertion count: zero
    /// while empty, else `(1 - e^(-k*len/m))^k` as a fraction of `2^32`.
    pub fn actual_false_positive_rate(&self) -> (r: u64)
        requires
            self.wf(),
        ensures
            r == if self.spec_len() == 0 {
                0nat
            } else {
                spec_fpr(
                    self.spec_params().num_bits as nat,
                    self.spec_params().num_hashes as nat,
                    self.spec_len() as nat,
                )
            },
            r <= ONE_Q32,
    {
        self.tracker.actual_fpr()
    }

    /// The fraction of bits set, as a fraction of `2^32`.
    pub fn saturation(&self) -> (r: u64)
        requires
            self.wf(),
        ensures
            r == count_trues(self.spec_bits()) * 0x1_0000_0000 / (
            self.spec_params().num_bits as nat),
            r <= ONE_Q32,
    {
        self.bits.saturation()
    }

    /// Whether more items were inserted than the filter was sized for.
    pub fn is_overfilled(&self) -> (r: bool)
        ensures
            r == (self.spec_len() > self.spec_params().expected_items),
    {
        self.tracker.items_inserted() > self.params.expected_items
    }

    /// The tracker's status line.
    pub fn status(&self) -> (r: String)
        requires
            self.wf(),
        ensures
            r@ == self.spec_tracker().spec_status_summary(),
    {
        self.tracker.status_summary()
    }

    /// The parameters of this filter.
    pub fn parameters(&self) -> (r: &BloomParameters)
        ensures
            *r == self.spec_params(),
    {
        &self.params
    }
}

/// In a well-formed filter whose bits are all zero, no item is marked:
/// with at least one hash position per item, `contains` answers false
/// for every item on a fresh or freshly cleared filter.
pub proof fn lemma_nothing_marked_when_empty(f: PrecisionBloom)
    requires
        f.wf(),
        forall|j: int| 0 <= j < f.spec_bits().len() ==> !f.spec_bits()[j],
    ensures
        forall|item: Seq<u8>| !f.spec_marked(item),
{
    assert forall|item: Seq<u8>| !f.spec_marked(item) by {
        let m = f.spec_params().num_bits;
        let j = spec_bit_index(ahash_of(item), seahash_of(item), 0, m);
        assert(j < m);
        assert(!f.spec_bits()[j as int]);
    }
}

/// A well-formed filter holds exactly `num_bits` bits.
pub proof fn lemma_wf_bits_len(f: PrecisionBloom)
    requires
        f.wf(),
    ensures
        f.spec_bits().len() == f.spec_params().num_bits,
{
}

/// Saturation never falls while bits only grow: for two states of one
/// filter whose second has every bit of the first, the fraction of set
/// bits in the second is at least that in the first. Since `insert`
/// only sets bits, the saturation after each insertion is at least the
/// saturation before it.
pub proof fn lemma_saturation_never_drops(f1: PrecisionBloom, f2: PrecisionBloom)
    requires
        f1.wf(),
        f2.wf(),
        f1.spec_params() == f2.spec_params(),
        forall|j: int| 0 <= j < f1.spec_bits().len() ==> (f1.spec_bits()[j] ==> f2.spec_bits()[j]),
    ensures
        count_trues(f1.spec_bits()) * 0x1_0000_0000 / (f1.spec_params().num_bits as nat)
            <= count_trues(f2.spec_bits()) * 0x1_0000_0000 / (f2.spec_params().num_bits as nat),
{
    lemma_saturation_monotone(f1.spec_bits(), f2.spec_bits(), f1.spec_params().num_bits as nat);
}

/// Marking survives growth of the bit array: if two filters share their
/// parameters and every bit set in the first is set in the second, every
/// item marked in the first is marked in the second. Together with the
/// contract of `insert` — which only adds bits — this is the
/// no-false-negative guarantee: once an item is inserted, any sequence
/// of further insertions leaves it marked, and `contains` answers true.
pub proof fn lemma_marked_preserved(f1: PrecisionBloom, f2: PrecisionBloom, item: Seq<u8>)
    requires
        f1.wf(),
        f2.wf(),
        f1.spec_params() == f2.spec_params(),
        forall|j: int| 0 <= j < f1.spec_bits().len() ==> (f1.spec_bits()[j] ==> f2.spec_bits()[j]),
        f1.spec_marked(item),
    ensures
        f2.spec_marked(item),
{
    let m = f1.spec_params().num_bits;
    let k = f1.spec_params().num_hashes;
    assert forall|i: u64| i < k implies f2.spec_bits()[#[trigger] spec_bit_index(
        ahash_of(item),
        seahash_of(item),
        i,
        m,
    ) as int] by {
        let j = spec_bit_index(ahash_of(item), seahash_of(item), i, m);
        assert(j < m);
        assert(f1.spec_bits()[j as int]);
    }
}

} // verus!
