use bloom_stamp::{hashes, indices_for, BitVector, BloomFilter};
use twox_hash::XxHash32;

fn recurrence(element: &[u8]) -> Vec<u32> {
    let mut x = XxHash32::oneshot(0, element);
    let mut y = XxHash32::oneshot(1, element);
    let mut out = vec![x];
    for n in 1..30u32 {
        x = x.wrapping_add(y);
        y = y.wrapping_add(n);
        out.push(x);
    }
    out
}

#[test]
fn empty_element_first_hash_is_xxh32_of_nothing() {
    let all = indices_for(&[]);
    assert_eq!(all.len(), 30);
    assert_eq!(all[0], 0x02CC_5D05);
}

#[test]
fn indices_follow_enhanced_double_hashing() {
    for element in [&b""[..], &[0, 0, 0, 0][..], &b"hello world"[..], &[7u8; 100][..]] {
        assert_eq!(indices_for(element), recurrence(element));
    }
}

#[test]
fn indices_differences_grow_by_index() {
    let all = indices_for(b"abc");
    let d: Vec<u32> = (0..29).map(|i| all[i + 1].wrapping_sub(all[i])).collect();
    assert_eq!(d[0], XxHash32::oneshot(1, b"abc"));
    for i in 0..28 {
        assert_eq!(d[i + 1].wrapping_sub(d[i]), i as u32 + 1);
    }
}

#[test]
fn hashes_is_last_index_of_le_bytes() {
    let element: u32 = 12345;
    let expected = recurrence(&element.to_le_bytes())[29];
    assert_eq!(hashes(element), expected);
    assert_eq!(hashes(element), indices_for(&[0x39, 0x30, 0, 0])[29]);
    assert_ne!(hashes(element), element);
}

#[test]
fn determinism_across_calls_and_filters() {
    assert_eq!(indices_for(b"stamp"), indices_for(b"stamp"));
    assert_eq!(hashes(42), hashes(42));
    let mut a = BloomFilter::empty();
    let mut b = BloomFilter::empty();
    a.add(b"stamp");
    b.add(b"stamp");
    assert_eq!(a.to_bytes(), b.to_bytes());
}

#[test]
fn two_elements_scenario() {
    let mut f = BloomFilter::empty();
    f.add(&[0, 0, 0, 0]);
    f.add(&[1, 1, 1, 1]);
    assert!(f.has(&[0, 0, 0, 0]));
    assert!(f.has(&[1, 1, 1, 1]));
    assert!(!f.has(&[2, 2, 2, 2]));
}

#[test]
fn one_add_sets_between_one_and_thirty_bits() {
    let mut f = BloomFilter::empty();
    assert_eq!(f.count_ones(), 0);
    f.add(&[9, 8, 7]);
    let c = f.count_ones();
    assert!(c >= 1 && c <= 30);
}

#[test]
fn added_bits_are_the_reduced_indices() {
    let mut f = BloomFilter::empty();
    f.add(b"xyz");
    let mut expected = vec![false; 2048];
    for h in indices_for(b"xyz") {
        expected[(h % 2048) as usize] = true;
    }
    let bytes = f.to_bytes();
    assert_eq!(bytes.len(), 256);
    for i in 0..2048 {
        assert_eq!((bytes[i / 8] >> (i % 8)) & 1 == 1, expected[i]);
    }
    let n = expected.iter().filter(|b| **b).count() as u32;
    assert_eq!(f.count_ones(), n);
}

#[test]
fn insertion_then_membership() {
    let mut f = BloomFilter::empty();
    for i in 0..40u32 {
        let e = i.to_le_bytes();
        f.add(&e);
        assert!(f.has(&e));
    }
    for i in 0..40u32 {
        assert!(f.has(&i.to_le_bytes()));
    }
}

#[test]
fn count_never_decreases() {
    let mut f = BloomFilter::empty();
    let mut last = 0;
    for i in 0..60u32 {
        f.add(&i.to_be_bytes());
        let c = f.count_ones();
        assert!(c >= last);
        assert!(c <= last + 30);
        last = c;
    }
}

#[test]
fn adding_twice_is_adding_once() {
    let mut once = BloomFilter::empty();
    once.add(b"a");
    once.add(b"twice");
    let mut twice = once.copy();
    twice.add(b"twice");
    assert_eq!(once.to_bytes(), twice.to_bytes());
}

#[test]
fn copy_is_independent() {
    let mut f = BloomFilter::empty();
    f.add(b"one");
    let snapshot = f.copy();
    f.add(b"two");
    assert!(!snapshot.has(b"two") || snapshot.to_bytes() == f.to_bytes());
    assert_ne!(snapshot.to_bytes(), f.to_bytes());
}

#[test]
fn bit_vector_set_get_count() {
    let mut v = BitVector::new();
    assert_eq!(v.population_count(), 0);
    v.set(0);
    v.set(2047);
    v.set(9);
    v.set(9);
    assert!(v.get(0) && v.get(2047) && v.get(9));
    assert!(!v.get(1) && !v.get(8) && !v.get(2046));
    assert_eq!(v.population_count(), 3);
    let bytes = v.to_bytes();
    assert_eq!(bytes[0], 0b0000_0001);
    assert_eq!(bytes[1], 0b0000_0010);
    assert_eq!(bytes[255], 0b1000_0000);
}
