//! The index generator: derives `k` bit positions from one item by
//! Kirsch-Mitzenmacher double hashing, `(h1 + i * h2) mod m`, over two
//! independent hash functions (ahash and seahash).

use vstd::prelude::*;

verus! {

/// The 64-bit digest that ahash's fixed-key hasher assigns to a byte
/// sequence. The algorithm is involved, so only the fact that it is a
/// function of the bytes is stated; nothing else is assumed of it.
pub uninterp spec fn ahash_of(bytes: Seq<u8>) -> u64;

/// The 64-bit digest that seahash's default-seeded hasher assigns to a
/// byte sequence; a function of the bytes, like `ahash_of`, and computed
/// by an unrelated algorithm.
pub uninterp spec fn seahash_of(bytes: Seq<u8>) -> u64;

/// Relies on `ahash::AHasher::default` (the crate is built with default
/// features off, so the hasher uses ahash's hardcoded keys rather than
/// per-process random ones) and on `Hasher::write`/`finish`: for one build
/// the digest depends on the written bytes alone.
#[verifier::external_body]
fn hash_with_ahash(item: &[u8]) -> (r: u64)
    ensures
        r == ahash_of(item@),
{
    let mut hasher = ahash::AHasher::default();
    std::hash::Hasher::write(&mut hasher, item);
    std::hash::Hasher::finish(&hasher)
}

/// Relies on `seahash::SeaHasher::new`, which seeds the documented fixed
/// constants, and on `Hasher::write`/`finish`: seahash is specified as a
/// portable, deterministic function of the written bytes.
#[verifier::external_body]
fn hash_with_seahash(item: &[u8]) -> (r: u64)
    ensures
        r == seahash_of(item@),
{
    let mut hasher = seahash::SeaHasher::new();
    std::hash::Hasher::write(&mut hasher, item);
    std::hash::Hasher::finish(&hasher)
}

/// The double-hashing combination `h1 + i * h2`, with unsigned wraparound.
pub open spec fn spec_combined(h1: u64, h2: u64, i: u64) -> u64 {
    vstd::wrapping::u64_specs::wrapping_add(h1, vstd::wrapping::u64_specs::wrapping_mul(i, h2))
}

/// The i-th bit position an item with base digests `h1`, `h2` maps to in a
/// filter of `num_bits` bits.
pub open spec fn spec_bit_index(h1: u64, h2: u64, i: u64, num_bits: usize) -> usize
    recommends
        num_bits >= 1,
{
    (spec_combined(h1, h2, i) as int % (num_bits as int)) as usize
}

/// All `num_hashes` bit positions for an item, in order of derivation.
pub open spec fn spec_indices(item: Seq<u8>, num_hashes: usize, num_bits: usize) -> Seq<usize> {
    Seq::new(num_hashes as nat, |i: int| spec_bit_index(ahash_of(item), seahash_of(item), i as u64, num_bits))
}

/// Stateless configuration that turns an item into `num_hashes` bit
/// positions, each below `num_bits`.
#[derive(Debug, Clone)]
pub struct HashStrategy {
    num_hashes: usize,
    num_bits: usize,
}

impl HashStrategy {
    /// The number of positions generated per item (k).
    pub closed spec fn spec_num_hashes(&self) -> usize {
        self.num_hashes
    }

    /// The number of bits positions are reduced into (m).
    pub closed spec fn spec_num_bits(&self) -> usize {
        self.num_bits
    }

    /// Well-formed: at least one hash function and one bit.
    pub open spec fn wf(&self) -> bool {
        self.spec_num_hashes() >= 1 && self.spec_num_bits() >= 1
    }

    /// Create a strategy generating `num_hashes` positions below `num_bits`.
    pub fn new(num_hashes: usize, num_bits: usize) -> (r: HashStrategy)
        requires
            num_hashes >= 1,
            num_bits >= 1,
        ensures
            r.wf(),
            r.spec_num_hashes() == num_hashes,
            r.spec_num_bits() == num_bits,
    {
        HashStrategy { num_hashes, num_bits }
    }

    /// The i-th position for an item with base digests `h1` and `h2`:
    /// `(h1 + i * h2) mod num_bits`, with wraparound arithmetic.
    pub fn compute_index(&self, h1: u64, h2: u64, i: usize) -> (r: usize)
        requires
            self.wf(),
        ensures
            r == spec_bit_index(h1, h2, i as u64, self.spec_num_bits()),
            r < self.spec_num_bits(),
    {
        let i_u64: u64 = i as u64;
        let combined: u64 = h1.wrapping_add(i_u64.wrapping_mul(h2));
        (combined % (self.num_bits as u64)) as usize
    }

    /// All bit positions for an item: exactly `num_hashes` of them, the
    /// i-th being `(h1 + i * h2) mod num_bits` for the item's two digests.
    /// Positions may repeat.
    pub fn hash_indices(&self, item: &[u8]) -> (r: Vec<usize>)
        requires
            self.wf(),
        ensures
            r@ == spec_indices(item@, self.spec_num_hashes(), self.spec_num_bits()),
            r@.len() == self.spec_num_hashes(),
            forall|j: int| 0 <= j < r@.len() ==> #[trigger] r@[j] < self.spec_num_bits(),
    {
        let h1: u64 = hash_with_ahash(item);
        let h2: u64 = hash_with_seahash(item);
        let mut r: Vec<usize> = Vec::new();
        let mut i: usize = 0;
        while i < self.num_hashes
            invariant
                self.wf(),
                i <= self.num_hashes,
                h1 == ahash_of(item@),
                h2 == seahash_of(item@),
                r@.len() == i,
                forall|j: int|
                    0 <= j < i ==> (#[trigger] r@[j]) == spec_bit_index(
                        h1,
                        h2,
                        j as u64,
                        self.spec_num_bits(),
                    ) && r@[j] < self.spec_num_bits(),
            decreases self.num_hashes - i,
        {
            let idx: usize = self.compute_index(h1, h2, i);
            r.push(idx);
            i = i + 1;
        }
        proof {
            assert(r@ =~= spec_indices(item@, self.spec_num_hashes(), self.spec_num_bits()));
        }
        r
    }

    /// The number of hash functions this strategy generates.
    pub fn num_hashes(&self) -> (r: usize)
        ensures
            r == self.spec_num_hashes(),
    {
        self.num_hashes
    }
}

} // verus!
