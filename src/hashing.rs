//! Enhanced double hashing: thirty bit-position candidates from two seeded
//! 32-bit xxHash values of an element.
use vstd::prelude::*;

verus! {

/// Number of hash values derived from one element.
pub const NUM_HASHES: usize = 30;

/// The 32-bit xxHash of `data` under `seed`.
pub uninterp spec fn xxh32(seed: u32, data: Seq<u8>) -> u32;

/// Relies on `twox_hash::XxHash32::oneshot`: the 32-bit xxHash of the bytes
/// under the seed, a function of the two alone.
#[verifier::external_body]
fn fast_hash(seed: u32, data: &[u8]) -> (r: u32)
    ensures
        r == xxh32(seed, data@),
{
    twox_hash::XxHash32::oneshot(seed, data)
}

/// Sum of two 32-bit values modulo 2^32.
pub open spec fn add32(a: u32, b: u32) -> u32 {
    vstd::wrapping::u32_specs::wrapping_add(a, b)
}

/// The increment sequence: `y[0] = h2`, `y[i] = y[i-1] + i` modulo 2^32.
pub open spec fn probe_y(h2: u32, i: nat) -> u32
    decreases i,
{
    if i == 0 {
        h2
    } else {
        add32(probe_y(h2, (i - 1) as nat), i as u32)
    }
}

/// The hash sequence: `x[0] = h1`, `x[i] = x[i-1] + y[i-1]` modulo 2^32.
pub open spec fn probe_x(h1: u32, h2: u32, i: nat) -> u32
    decreases i,
{
    if i == 0 {
        h1
    } else {
        add32(probe_x(h1, h2, (i - 1) as nat), probe_y(h2, (i - 1) as nat))
    }
}

/// The thirty hash values of an element.
pub open spec fn index_seq(element: Seq<u8>) -> Seq<u32> {
    Seq::new(
        NUM_HASHES as nat,
        |i: int| probe_x(xxh32(0, element), xxh32(1, element), i as nat),
    )
}

/// The four bytes of a 32-bit value, least significant first.
pub open spec fn le_bytes(v: u32) -> Seq<u8> {
    seq![
        (v % 0x100) as u8,
        (v / 0x100 % 0x100) as u8,
        (v / 0x1_0000 % 0x100) as u8,
        (v / 0x100_0000) as u8,
    ]
}

/// The thirty hash values of `element`, in order.
pub fn indices_for(element: &[u8]) -> (r: Vec<u32>)
    ensures
        r@ == index_seq(element@),
{
    let h1 = fast_hash(0, element);
    let h2 = fast_hash(1, element);
    let mut x: u32 = h1;
    let mut y: u32 = h2;
    let mut out: Vec<u32> = Vec::new();
    out.push(x);
    let mut n: usize = 1;
    while n < NUM_HASHES
        invariant
            1 <= n <= NUM_HASHES,
            h1 == xxh32(0, element@),
            h2 == xxh32(1, element@),
            x == probe_x(h1, h2, (n - 1) as nat),
            y == probe_y(h2, (n - 1) as nat),
            out@.len() == n,
            forall|i: int| 0 <= i < n ==> out@[i] == #[trigger] probe_x(h1, h2, i as nat),
        decreases NUM_HASHES - n,
    {
        x = x.wrapping_add(y);
        y = y.wrapping_add(n as u32);
        out.push(x);
        n = n + 1;
    }
    assert(out@ =~= index_seq(element@));
    out
}

/// The last of the thirty hash values of a 32-bit element, hashed as its
/// four bytes least significant first.
pub fn hashes(element: u32) -> (r: u32)
    ensures
        r == index_seq(le_bytes(element))[NUM_HASHES - 1],
{
    let bytes: Vec<u8> = vec![
        (element % 0x100) as u8,
        (element / 0x100 % 0x100) as u8,
        (element / 0x1_0000 % 0x100) as u8,
        (element / 0x100_0000) as u8,
    ];
    assert(bytes@ =~= le_bytes(element));
    let all = indices_for(bytes.as_slice());
    all[NUM_HASHES - 1]
}

} // verus!
