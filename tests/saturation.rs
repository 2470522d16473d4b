use bloom_stamp::{batch_for, saturate_step, solves, BloomFilter, Saturation, THRESHOLD};
use twox_hash::XxHash3_128;

// A stand-in 32-byte digest for driving the procedure in tests.
fn digest(bytes: &[u8]) -> Vec<u8> {
    let mut d = XxHash3_128::oneshot_with_seed(0, bytes).to_le_bytes().to_vec();
    d.extend_from_slice(&XxHash3_128::oneshot_with_seed(1, bytes).to_le_bytes());
    d
}

fn run(filter: &BloomFilter) -> (BloomFilter, usize) {
    let mut s = Saturation::start(filter);
    for steps in 1..100_000 {
        let d = digest(&s.digest_input());
        if let Some(done) = s.advance(&d) {
            return (done, steps);
        }
    }
    panic!("saturation did not finish");
}

#[test]
fn saturation_stops_one_step_before_threshold() {
    let start = BloomFilter::empty();
    let (done, steps) = run(&start);
    assert!(steps > 33);
    assert!(done.count_ones() < THRESHOLD);
    let d = digest(&done.to_bytes());
    assert!(solves(&done, &d));
    let mut next = done.copy();
    saturate_step(&mut next, &d);
    assert!(next.count_ones() >= THRESHOLD);
    assert_eq!(start.count_ones(), 0);
}

#[test]
fn saturation_from_partly_filled_filter() {
    let mut start = BloomFilter::empty();
    for i in 0..10u32 {
        start.add(&i.to_le_bytes());
    }
    let before = start.to_bytes();
    let (done, _) = run(&start);
    assert_eq!(start.to_bytes(), before);
    assert!(done.count_ones() < THRESHOLD);
    assert!(solves(&done, &digest(&done.to_bytes())));
    for i in 0..10u32 {
        assert!(done.has(&i.to_le_bytes()));
    }
}

#[test]
fn saturation_is_deterministic() {
    let (a, n) = run(&BloomFilter::empty());
    let (b, m) = run(&BloomFilter::empty());
    assert_eq!(n, m);
    assert_eq!(a.to_bytes(), b.to_bytes());
}

#[test]
fn threshold_value() {
    assert_eq!(THRESHOLD, 1019);
}

#[test]
fn solves_rejects_unsaturated_filter() {
    let f = BloomFilter::empty();
    assert!(!solves(&f, &digest(&f.to_bytes())));
}

#[test]
fn first_digest_input_is_the_filter_bytes() {
    let mut f = BloomFilter::empty();
    f.add(b"seed");
    let s = Saturation::start(&f);
    assert_eq!(s.digest_input(), f.to_bytes());
}

#[test]
fn fast_batch_steps_without_checking() {
    let f = BloomFilter::empty();
    let mut s = Saturation::start(&f);
    let mut manual = f.copy();
    for _ in 0..33 {
        let d = digest(&s.digest_input());
        assert_eq!(d, digest(&manual.to_bytes()));
        assert!(s.advance(&d).is_none());
        saturate_step(&mut manual, &d);
    }
    assert_eq!(s.digest_input(), manual.to_bytes());
}

#[test]
fn batch_sizes() {
    assert_eq!(batch_for(0), 33);
    assert_eq!(batch_for(29), 33);
    assert_eq!(batch_for(30), 32);
    assert_eq!(batch_for(990), 0);
    assert_eq!(batch_for(988), 1);
    assert_eq!(batch_for(1018), 0);
    assert_eq!(batch_for(1019), 0);
    assert_eq!(batch_for(2048), 0);
}

#[test]
fn filter_at_threshold_comes_back_unchanged() {
    let mut f = BloomFilter::empty();
    let mut i: u32 = 0;
    while f.count_ones() < THRESHOLD {
        f.add(&i.to_le_bytes());
        i += 1;
    }
    let (done, steps) = run(&f);
    assert_eq!(steps, 1);
    assert_eq!(done.to_bytes(), f.to_bytes());
}
