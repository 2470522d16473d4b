//! Saturation: driving a filter's density up to just below a threshold by
//! adding, again and again, the digest of the filter's own bytes.
//!
//! The digest comes from outside, so the procedure is a state machine: the
//! caller asks `digest_input` for the bytes to hash, hands the digest to
//! `advance`, and repeats until `advance` returns the finished filter.
use vstd::prelude::*;
use crate::bits::{NUM_BITS, ones, lemma_ones_update};
use crate::filter::{BloomFilter, positions, marks, with_element};
use crate::hashing::NUM_HASHES;

verus! {

/// The density, in set bits, that a saturated filter stays just below.
pub const THRESHOLD: u32 = 1019;

/// The steps that cannot cross the threshold from `count` set bits: each
/// step sets at most thirty new bits.
pub open spec fn fast_batch(count: nat) -> nat {
    if count < THRESHOLD {
        ((THRESHOLD - count) / (NUM_HASHES as int)) as nat
    } else {
        0
    }
}

/// Steps left in a fast batch after one step that left `count` set bits.
pub open spec fn batch_after(batch: nat, count: nat) -> nat {
    if batch > 1 {
        (batch - 1) as nat
    } else {
        fast_batch(count)
    }
}

/// A saturation state is safe: a fast batch cannot cross the threshold,
/// and outside one the filter is below it.
pub open spec fn on_track(bits: Seq<bool>, batch: nat) -> bool {
    if batch > 0 {
        ones(bits) + NUM_HASHES * batch <= THRESHOLD
    } else {
        ones(bits) < THRESHOLD
    }
}

/// The steps that cannot cross the threshold from `count` set bits.
pub fn batch_for(count: u32) -> (r: u32)
    ensures
        r == fast_batch(count as nat),
{
    if count < THRESHOLD {
        (THRESHOLD - count) / (NUM_HASHES as u32)
    } else {
        0
    }
}

/// One unit of work: adds the digest of the filter's bytes to the filter.
pub fn saturate_step(filter: &mut BloomFilter, digest: &[u8])
    requires
        old(filter).wf(),
    ensures
        final(filter).wf(),
        final(filter)@ == with_element(old(filter)@, digest@),
{
    filter.add(digest);
}

/// Whether `digest` solves the stamp `filter`: adding it brings the filter
/// to the threshold or past it.
pub fn solves(filter: &BloomFilter, digest: &[u8]) -> (r: bool)
    requires
        filter.wf(),
    ensures
        r == (ones(with_element(filter@, digest@)) >= THRESHOLD),
{
    let mut stepped = filter.copy();
    stepped.add(digest);
    stepped.count_ones() >= THRESHOLD
}

/// A saturation in progress.
pub struct Saturation {
    current: BloomFilter,
    batch: u32,
}

impl Saturation {
    /// The filter reached so far.
    pub closed spec fn filter(&self) -> BloomFilter {
        self.current
    }

    /// Steps left in the current fast batch; zero in the step-by-step phase.
    pub closed spec fn batch_left(&self) -> nat {
        self.batch as nat
    }

    /// The filter has its fixed size.
    pub open spec fn wf(&self) -> bool {
        self.filter().wf()
    }

    /// Starts from a copy of `filter`, with a fast batch of the steps that
    /// cannot cross the threshold.
    pub fn start(filter: &BloomFilter) -> (r: Saturation)
        requires
            filter.wf(),
        ensures
            r.wf(),
            r.filter().raw() == filter.raw(),
            r.filter()@ == filter@,
            r.batch_left() == fast_batch(ones(filter@)),
    {
        let current = filter.copy();
        let batch = batch_for(current.count_ones());
        Saturation { current, batch }
    }

    /// The bytes whose digest the next step adds: the current filter's raw
    /// bytes.
    pub fn digest_input(&self) -> (r: Vec<u8>)
        ensures
            r@ == self.filter().raw(),
    {
        self.current.to_bytes()
    }

    /// Takes one step with `digest`, the digest of `digest_input()`.
    ///
    /// Within a fast batch the digest is added without a check; when the
    /// batch ends a new one is sized from the density reached. Outside a
    /// batch the step is tried on a copy: if it would reach the threshold,
    /// the filter as it stands before that step is returned; otherwise the
    /// step is kept.
    pub fn advance(&mut self, digest: &[u8]) -> (r: Option<BloomFilter>)
        requires
            old(self).wf(),
        ensures
            final(self).wf(),
            ({
                let before = old(self).filter()@;
                let next = with_element(before, digest@);
                if old(self).batch_left() > 0 {
                    &&& r is None
                    &&& final(self).filter()@ == next
                    &&& final(self).batch_left() == batch_after(
                        old(self).batch_left(),
                        ones(next),
                    )
                } else if ones(next) >= THRESHOLD {
                    &&& r is Some
                    &&& r->0.wf()
                    &&& r->0.raw() == old(self).filter().raw()
                    &&& r->0@ == before
                    &&& final(self).filter()@ == before
                    &&& final(self).batch_left() == 0
                } else {
                    &&& r is None
                    &&& final(self).filter()@ == next
                    &&& final(self).batch_left() == 0
                }
            }),
    {
        if self.batch > 0 {
            self.current.add(digest);
            if self.batch > 1 {
                self.batch = self.batch - 1;
            } else {
                self.batch = batch_for(self.current.count_ones());
            }
            None
        } else {
            let mut stepped = self.current.copy();
            stepped.add(digest);
            if stepped.count_ones() >= THRESHOLD {
                Some(self.current.copy())
            } else {
                self.current = stepped;
                None
            }
        }
    }
}

/// The bits after the first `k` positions of an element are set.
spec fn with_first(bits: Seq<bool>, element: Seq<u8>, k: int) -> Seq<bool> {
    Seq::new(
        bits.len(),
        |i: int| bits[i] || exists|j: int| 0 <= j < k && #[trigger] positions(element)[j] == i,
    )
}

proof fn lemma_with_first_bound(bits: Seq<bool>, element: Seq<u8>, k: int)
    requires
        bits.len() == NUM_BITS,
        0 <= k <= NUM_HASHES,
    ensures
        ones(with_first(bits, element, k)) <= ones(bits) + k,
    decreases k,
{
    let pos = positions(element);
    if k == 0 {
        assert(with_first(bits, element, 0) =~= bits);
    } else {
        let prev = with_first(bits, element, k - 1);
        let p = pos[k - 1];
        assert(0 <= p < NUM_BITS);
        assert(with_first(bits, element, k) =~= prev.update(p, true)) by {
            assert forall|i: int| 0 <= i < bits.len() implies with_first(bits, element, k)[i]
                == prev.update(p, true)[i] by {
                if exists|j: int| 0 <= j < k && #[trigger] pos[j] == i {
                    let j = choose|j: int| 0 <= j < k && #[trigger] pos[j] == i;
                    if j < k - 1 {
                        assert(prev[i]);
                    }
                }
            }
        }
        lemma_ones_update(prev, p);
        lemma_with_first_bound(bits, element, k - 1);
    }
}

/// Adding an element sets at most thirty new bits.
pub proof fn lemma_add_sets_at_most_thirty(bits: Seq<bool>, element: Seq<u8>)
    requires
        bits.len() == NUM_BITS,
    ensures
        ones(with_element(bits, element)) <= ones(bits) + NUM_HASHES,
{
    assert(with_first(bits, element, NUM_HASHES as int) =~= with_element(bits, element)) by {
        assert forall|i: int| 0 <= i < bits.len() implies with_first(
            bits,
            element,
            NUM_HASHES as int,
        )[i] == with_element(bits, element)[i] by {
            if marks(element, i) {
                let k = choose|k: int| 0 <= k < NUM_HASHES && #[trigger] positions(element)[k] == i;
                assert(exists|j: int| 0 <= j < NUM_HASHES && #[trigger] positions(element)[j] == i);
            }
        }
    }
    lemma_with_first_bound(bits, element, NUM_HASHES as int);
}

/// A saturation started below the threshold starts on track.
pub proof fn lemma_start_on_track(bits: Seq<bool>)
    requires
        ones(bits) < THRESHOLD,
    ensures
        on_track(bits, fast_batch(ones(bits))),
{
    let c = ones(bits) as int;
    let b = (THRESHOLD - c) / (NUM_HASHES as int);
    assert(NUM_HASHES * b <= THRESHOLD - c) by (nonlinear_arith)
        requires
            b == (THRESHOLD - c) / 30,
            c < THRESHOLD,
    ;
}

/// The boundary of saturation. From a state on track, a step outside a fast
/// batch either reaches the threshold, and then the filter handed back is
/// below it while the same digest added to it reaches it, or stays below
/// it. A step inside a fast batch keeps the state on track, unless it ends
/// the batch exactly on the threshold.
pub proof fn lemma_saturation_boundary(bits: Seq<bool>, batch: nat, digest: Seq<u8>)
    requires
        bits.len() == NUM_BITS,
        on_track(bits, batch),
    ensures
        ({
            let next = with_element(bits, digest);
            if batch > 0 {
                on_track(next, batch_after(batch, ones(next)))
                    || (batch_after(batch, ones(next)) == 0 && ones(next) == THRESHOLD)
            } else if ones(next) >= THRESHOLD {
                ones(bits) < THRESHOLD
            } else {
                on_track(next, 0)
            }
        }),
{
    let next = with_element(bits, digest);
    lemma_add_sets_at_most_thirty(bits, digest);
    if batch > 0 && ones(next) < THRESHOLD && batch == 1 {
        lemma_start_on_track(next);
    }
}

} // verus!
