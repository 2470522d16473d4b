//! A Bloom filter of 2048 bits: each element sets the thirty bits that its
//! hash values give, reduced modulo 2048.
use vstd::prelude::*;
use crate::bits::{
    BitVector, NUM_BITS, ones, lemma_ones_mono, lemma_ones_bound, lemma_ones_clear, lemma_ones_update,
};
use crate::hashing::{NUM_HASHES, index_seq, indices_for};

verus! {

/// The bit positions of an element: its hash values modulo 2048.
pub open spec fn positions(element: Seq<u8>) -> Seq<int> {
    index_seq(element).map_values(|h: u32| h as int % NUM_BITS as int)
}

/// Whether bit `i` is one of the positions of `element`.
pub open spec fn marks(element: Seq<u8>, i: int) -> bool {
    exists|k: int| 0 <= k < NUM_HASHES && #[trigger] positions(element)[k] == i
}

/// The bits after `element` is added: those set before, and its positions.
pub open spec fn with_element(bits: Seq<bool>, element: Seq<u8>) -> Seq<bool> {
    Seq::new(bits.len(), |i: int| bits[i] || marks(element, i))
}

/// Whether every position of `element` is set.
pub open spec fn holds(bits: Seq<bool>, element: Seq<u8>) -> bool {
    forall|k: int| 0 <= k < NUM_HASHES ==> #[trigger] bits[positions(element)[k]]
}

/// A Bloom filter over a fixed array of 2048 bits.
pub struct BloomFilter {
    bits: BitVector,
}

impl BloomFilter {
    /// The bit array of the filter.
    pub closed spec fn array(&self) -> BitVector {
        self.bits
    }

    /// The raw 256 bytes of the filter.
    pub open spec fn raw(&self) -> Seq<u8> {
        self.array().raw()
    }

    /// The filter's bit array has its fixed size.
    pub open spec fn wf(&self) -> bool {
        self.array().wf()
    }

    /// The bits of the filter, by index.
    pub open spec fn view(&self) -> Seq<bool> {
        self.array()@
    }

    /// A filter with every bit clear.
    pub fn empty() -> (r: BloomFilter)
        ensures
            r.wf(),
            r@ == Seq::new(NUM_BITS as nat, |i: int| false),
            ones(r@) == 0,
    {
        BloomFilter { bits: BitVector::new() }
    }

    /// An independent copy of the filter.
    pub fn copy(&self) -> (r: BloomFilter)
        ensures
            r.raw() == self.raw(),
            r@ == self@,
    {
        BloomFilter { bits: self.bits.copy() }
    }

    /// The raw bytes of the filter, 256 of them.
    pub fn to_bytes(&self) -> (r: Vec<u8>)
        ensures
            r@ == self.raw(),
    {
        self.bits.to_bytes()
    }

    /// Adds `element`: sets each of its thirty positions. The number of set
    /// bits grows by at most thirty and never falls.
    pub fn add(&mut self, element: &[u8])
        requires
            old(self).wf(),
        ensures
            final(self).wf(),
            final(self)@ == with_element(old(self)@, element@),
            ones(old(self)@) <= ones(final(self)@) <= ones(old(self)@) + NUM_HASHES,
    {
        let hs = indices_for(element);
        let ghost start = self@;
        let ghost pos = positions(element@);
        let mut k: usize = 0;
        while k < NUM_HASHES
            invariant
                self.wf(),
                k <= NUM_HASHES,
                hs@ == index_seq(element@),
                pos == positions(element@),
                self@ == Seq::new(
                    NUM_BITS as nat,
                    |i: int| start[i] || exists|j: int| 0 <= j < k && #[trigger] pos[j] == i,
                ),
                ones(start) <= ones(self@) <= ones(start) + k,
                start.len() == NUM_BITS,
            decreases NUM_HASHES - k,
        {
            let idx = (hs[k] % (NUM_BITS as u32)) as usize;
            let ghost prev = self@;
            self.bits.set(idx);
            proof {
                assert(pos[k as int] == idx as int);
                assert(self@ =~= Seq::new(
                    NUM_BITS as nat,
                    |i: int| start[i] || exists|j: int| 0 <= j < k + 1 && #[trigger] pos[j] == i,
                )) by {
                    assert forall|i: int| 0 <= i < NUM_BITS implies self@[i] == (start[i]
                        || exists|j: int| 0 <= j < k + 1 && #[trigger] pos[j] == i) by {
                        if exists|j: int| 0 <= j < k + 1 && #[trigger] pos[j] == i {
                            let j = choose|j: int| 0 <= j < k + 1 && #[trigger] pos[j] == i;
                            if j < k {
                                assert(prev[i]);
                            }
                        }
                    }
                }
            }
            k = k + 1;
        }
        assert(self@ =~= with_element(start, element@));
    }

    /// Whether every position of `element` is set: true for every element
    /// added so far, and possibly for others.
    pub fn has(&self, element: &[u8]) -> (r: bool)
        requires
            self.wf(),
        ensures
            r == holds(self@, element@),
    {
        let hs = indices_for(element);
        let ghost pos = positions(element@);
        let mut k: usize = 0;
        while k < NUM_HASHES
            invariant
                self.wf(),
                k <= NUM_HASHES,
                hs@ == index_seq(element@),
                pos == positions(element@),
                forall|j: int| 0 <= j < k ==> #[trigger] self@[pos[j]],
            decreases NUM_HASHES - k,
        {
            let idx = (hs[k] % (NUM_BITS as u32)) as usize;
            assert(pos[k as int] == idx as int);
            if !self.bits.get(idx) {
                return false;
            }
            k = k + 1;
        }
        true
    }

    /// Number of set bits, between 0 and 2048.
    pub fn count_ones(&self) -> (r: u32)
        requires
            self.wf(),
        ensures
            r == ones(self@),
            r <= NUM_BITS,
    {
        proof {
            lemma_ones_bound(self@);
        }
        self.bits.population_count()
    }
}

/// After an element is added, the filter holds it.
pub proof fn lemma_added_is_held(bits: Seq<bool>, element: Seq<u8>)
    requires
        bits.len() == NUM_BITS,
    ensures
        holds(with_element(bits, element), element),
{
    let after = with_element(bits, element);
    assert forall|k: int| 0 <= k < NUM_HASHES implies #[trigger] after[positions(element)[k]] by {
        let p = positions(element)[k];
        assert(marks(element, p));
    }
}

/// Adding an element never lowers the number of set bits.
pub proof fn lemma_add_monotone(bits: Seq<bool>, element: Seq<u8>)
    ensures
        ones(bits) <= ones(with_element(bits, element)),
{
    lemma_ones_mono(bits, with_element(bits, element));
}

/// The bits after each of `elements` is added in turn.
pub open spec fn with_elements(bits: Seq<bool>, elements: Seq<Seq<u8>>) -> Seq<bool>
    decreases elements.len(),
{
    if elements.len() == 0 {
        bits
    } else {
        with_element(with_elements(bits, elements.drop_last()), elements.last())
    }
}

/// Across any sequence of additions the number of set bits never falls:
/// after the first `m` of them there are at least as many as after the
/// first `n`, for `n <= m`.
pub proof fn lemma_adds_monotone(bits: Seq<bool>, elements: Seq<Seq<u8>>, n: int, m: int)
    requires
        0 <= n <= m <= elements.len(),
    ensures
        ones(with_elements(bits, elements.take(n))) <= ones(with_elements(bits, elements.take(m))),
    decreases m - n,
{
    if n < m {
        lemma_adds_monotone(bits, elements, n, m - 1);
        let prefix = elements.take(m);
        assert(prefix.drop_last() =~= elements.take(m - 1));
        lemma_add_monotone(with_elements(bits, elements.take(m - 1)), prefix.last());
    }
}

/// Adding an element sets at least one bit.
pub proof fn lemma_add_sets_a_bit(bits: Seq<bool>, element: Seq<u8>)
    requires
        bits.len() == NUM_BITS,
    ensures
        ones(with_element(bits, element)) >= 1,
{
    let p = positions(element)[0];
    assert(marks(element, p));
    let clear = Seq::new(NUM_BITS as nat, |i: int| false);
    lemma_ones_clear(clear);
    lemma_ones_update(clear, p);
    lemma_ones_mono(clear.update(p, true), with_element(bits, element));
}

/// Adding the same element twice leaves the same bits as adding it once.
pub proof fn lemma_add_idempotent(bits: Seq<bool>, element: Seq<u8>)
    ensures
        with_element(with_element(bits, element), element) == with_element(bits, element),
{
    assert(with_element(with_element(bits, element), element) =~= with_element(bits, element));
}

} // verus!
