//! A fixed array of 2048 bits held in 256 bytes, bit `i` at bit `i % 8`
//! (least significant first) of byte `i / 8`.
use vstd::prelude::*;

verus! {

/// Number of bytes in the array.
pub const NUM_BYTES: usize = 256;

/// Number of bits in the array.
pub const NUM_BITS: usize = 2048;

/// Whether bit `j` of byte `b` is set.
pub open spec fn byte_bit(b: u8, j: int) -> bool {
    (b >> (j as u8)) & 1u8 == 1u8
}

/// The bits that a byte string holds, eight to a byte.
pub open spec fn bits_of(bytes: Seq<u8>) -> Seq<bool> {
    Seq::new(bytes.len() * 8, |i: int| byte_bit(bytes[i / 8], i % 8))
}

/// Number of set bits in a sequence.
pub open spec fn ones(s: Seq<bool>) -> nat
    decreases s.len(),
{
    if s.len() == 0 {
        0
    } else {
        ones(s.drop_last()) + if s.last() {
            1nat
        } else {
            0nat
        }
    }
}

proof fn lemma_byte_or(b: u8, k: u8, j: u8)
    requires
        k < 8,
        j < 8,
    ensures
        ((b | (1u8 << k)) >> j) & 1u8 == 1u8 <==> (j == k || (b >> j) & 1u8 == 1u8),
{
    assert(((b | (1u8 << k)) >> j) & 1u8 == 1u8 <==> (j == k || (b >> j) & 1u8 == 1u8))
        by (bit_vector)
        requires
            k < 8,
            j < 8,
    ;
}

proof fn lemma_zero_byte(j: u8)
    requires
        j < 8,
    ensures
        (0u8 >> j) & 1u8 == 0u8,
{
    assert((0u8 >> j) & 1u8 == 0u8) by (bit_vector);
}

/// Setting one bit adds one to the count if it was clear, and nothing if it
/// was set.
pub proof fn lemma_ones_update(s: Seq<bool>, i: int)
    requires
        0 <= i < s.len(),
    ensures
        ones(s.update(i, true)) == ones(s) + if s[i] {
            0nat
        } else {
            1nat
        },
    decreases s.len(),
{
    let t = s.update(i, true);
    if i == s.len() - 1 {
        assert(t.drop_last() =~= s.drop_last());
    } else {
        assert(t.drop_last() =~= s.drop_last().update(i, true));
        lemma_ones_update(s.drop_last(), i);
    }
}

/// A sequence whose set bits include those of another has at least as many.
pub proof fn lemma_ones_mono(a: Seq<bool>, b: Seq<bool>)
    requires
        a.len() == b.len(),
        forall|i: int| 0 <= i < a.len() && #[trigger] a[i] ==> b[i],
    ensures
        ones(a) <= ones(b),
    decreases a.len(),
{
    if a.len() > 0 {
        lemma_ones_mono(a.drop_last(), b.drop_last());
    }
}

/// The count never exceeds the length.
pub proof fn lemma_ones_bound(s: Seq<bool>)
    ensures
        ones(s) <= s.len(),
    decreases s.len(),
{
    if s.len() > 0 {
        lemma_ones_bound(s.drop_last());
    }
}

/// A sequence of clear bits has none set.
pub proof fn lemma_ones_clear(s: Seq<bool>)
    requires
        forall|i: int| 0 <= i < s.len() ==> !#[trigger] s[i],
    ensures
        ones(s) == 0,
    decreases s.len(),
{
    if s.len() > 0 {
        lemma_ones_clear(s.drop_last());
    }
}

/// A set of 2048 bits.
pub struct BitVector {
    bytes: Vec<u8>,
}

impl BitVector {
    /// The raw bytes of the array.
    pub closed spec fn raw(&self) -> Seq<u8> {
        self.bytes@
    }

    /// The array holds exactly 256 bytes.
    pub open spec fn wf(&self) -> bool {
        self.raw().len() == NUM_BYTES
    }

    /// The bits of the array, by index.
    pub open spec fn view(&self) -> Seq<bool> {
        bits_of(self.raw())
    }

    /// An array with every bit clear.
    pub fn new() -> (r: BitVector)
        ensures
            r.wf(),
            r@ == Seq::new(NUM_BITS as nat, |i: int| false),
            ones(r@) == 0,
    {
        let bytes: Vec<u8> = vec![0u8; NUM_BYTES];
        let r = BitVector { bytes };
        proof {
            assert forall|i: int| 0 <= i < NUM_BITS implies !#[trigger] r@[i] by {
                lemma_zero_byte((i % 8) as u8);
            }
            assert(r@ =~= Seq::new(NUM_BITS as nat, |i: int| false));
            lemma_ones_clear(r@);
        }
        r
    }

    /// An independent copy of the array.
    pub fn copy(&self) -> (r: BitVector)
        ensures
            r.raw() == self.raw(),
    {
        let mut bytes: Vec<u8> = Vec::new();
        let mut k: usize = 0;
        while k < self.bytes.len()
            invariant
                k <= self.bytes@.len(),
                bytes@ == self.bytes@.take(k as int),
            decreases self.bytes@.len() - k,
        {
            bytes.push(self.bytes[k]);
            k = k + 1;
            assert(bytes@ =~= self.bytes@.take(k as int));
        }
        assert(self.bytes@.take(k as int) =~= self.bytes@);
        BitVector { bytes }
    }

    /// The raw bytes, 256 of them.
    pub fn to_bytes(&self) -> (r: Vec<u8>)
        ensures
            r@ == self.raw(),
    {
        self.copy().bytes
    }

    /// Whether bit `index` is set.
    pub fn get(&self, index: usize) -> (r: bool)
        requires
            self.wf(),
            index < NUM_BITS,
        ensures
            r == self@[index as int],
    {
        (self.bytes[index / 8] >> ((index % 8) as u8)) & 1u8 == 1u8
    }

    /// Sets bit `index`; all other bits stay as they were.
    pub fn set(&mut self, index: usize)
        requires
            old(self).wf(),
            index < NUM_BITS,
        ensures
            final(self).wf(),
            final(self)@ == old(self)@.update(index as int, true),
            ones(final(self)@) == ones(old(self)@) + if old(self)@[index as int] {
                0nat
            } else {
                1nat
            },
    {
        let k = index / 8;
        let b = self.bytes[k];
        let m = (index % 8) as u8;
        self.bytes.set(k, b | (1u8 << m));
        proof {
            let before = old(self)@;
            let after = self@;
            assert forall|i: int| 0 <= i < NUM_BITS implies #[trigger] after[i] == before.update(
                index as int,
                true,
            )[i] by {
                lemma_byte_or(b, m, (i % 8) as u8);
                if i / 8 == k as int {
                    assert(i % 8 == m as int <==> i == index as int);
                } else {
                    assert(i != index as int);
                }
            }
            assert(after =~= before.update(index as int, true));
            lemma_ones_update(before, index as int);
        }
    }

    /// Number of set bits.
    pub fn population_count(&self) -> (r: u32)
        requires
            self.wf(),
        ensures
            r == ones(self@),
    {
        let mut c: u32 = 0;
        let mut i: usize = 0;
        while i < NUM_BITS
            invariant
                self.wf(),
                i <= NUM_BITS,
                c == ones(self@.take(i as int)),
            decreases NUM_BITS - i,
        {
            proof {
                lemma_ones_bound(self@.take(i as int));
                assert(self@.take(i as int + 1).drop_last() =~= self@.take(i as int));
            }
            if self.get(i) {
                c = c + 1;
            }
            i = i + 1;
        }
        assert(self@.take(NUM_BITS as int) =~= self@);
        c
    }
}

} // verus!
