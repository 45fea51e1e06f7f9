//! Behavioural tests for the filter: insertion, membership, clearing,
//! counters and status reporting.

use bloom_filter_rs::PrecisionBloom;

/// The fixed-point value of a rate given as a float, truncated.
fn rate(p: f64) -> u64 {
    (p * 4294967296.0) as u64
}

/// The float value of a fixed-point rate or ratio.
fn as_f64(q: u64) -> f64 {
    q as f64 / 4294967296.0
}

fn int_bytes(i: i64) -> [u8; 8] {
    i.to_le_bytes()
}

#[test]
fn test_new_filter() {
    let filter = PrecisionBloom::with_capacity(1000, rate(0.01));
    assert_eq!(filter.len(), 0);
    assert!(filter.is_empty());
    assert_eq!(filter.capacity(), 1000);
    assert!(filter.num_bits() > 9000 && filter.num_bits() < 10000);
    assert!(filter.num_hashes() >= 6 && filter.num_hashes() <= 8);
}

#[test]
fn test_insert_and_contains() {
    let mut filter = PrecisionBloom::with_capacity(100, rate(0.01));

    filter.insert(b"hello");
    filter.insert(b"world");
    filter.insert(&int_bytes(42));

    assert!(filter.contains(b"hello"));
    assert!(filter.contains(b"world"));
    assert!(filter.contains(&int_bytes(42)));

    assert!(!filter.contains(b"foo"));
    assert!(!filter.contains(b"bar"));
    assert!(!filter.contains(&int_bytes(99)));
}

#[test]
fn test_insert_returns_correct_value() {
    let mut filter = PrecisionBloom::with_capacity(100, rate(0.01));

    // First insert should return true (was absent)
    assert!(filter.insert(b"hello"));

    // Second insert of the same item finds every position set
    let _ = filter.insert(b"hello");
}

#[test]
fn test_clear() {
    let mut filter = PrecisionBloom::with_capacity(100, rate(0.01));

    filter.insert(b"hello");
    filter.insert(b"world");
    assert!(filter.contains(b"hello"));
    assert!(!filter.is_empty());

    filter.clear();
    assert!(!filter.contains(b"hello"));
    assert!(!filter.contains(b"world"));
    assert!(filter.is_empty());
    assert_eq!(filter.len(), 0);
}

#[test]
fn test_len() {
    let mut filter = PrecisionBloom::with_capacity(100, rate(0.01));

    assert_eq!(filter.len(), 0);

    filter.insert(&int_bytes(1));
    assert_eq!(filter.len(), 1);

    filter.insert(&int_bytes(2));
    assert_eq!(filter.len(), 2);

    filter.insert(&int_bytes(3));
    assert_eq!(filter.len(), 3);
}

#[test]
fn test_saturation_increases() {
    let mut filter = PrecisionBloom::with_capacity(100, rate(0.01));

    let initial_saturation = filter.saturation();
    assert_eq!(initial_saturation, 0);

    for i in 0..50 {
        filter.insert(&int_bytes(i));
    }

    let mid_saturation = filter.saturation();
    assert!(mid_saturation > 0);

    for i in 50..100 {
        filter.insert(&int_bytes(i));
    }

    let final_saturation = filter.saturation();
    assert!(final_saturation > mid_saturation);
}

#[test]
fn test_no_false_negatives() {
    let mut filter = PrecisionBloom::with_capacity(1000, rate(0.01));

    let items: Vec<i64> = (0..1000).collect();

    for &item in &items {
        filter.insert(&int_bytes(item));
    }

    for &item in &items {
        assert!(
            filter.contains(&int_bytes(item)),
            "False negative detected for item {}",
            item
        );
    }
}

#[test]
fn test_false_positive_rate() {
    let mut filter = PrecisionBloom::with_capacity(1000, rate(0.01));

    for i in 0..1000 {
        filter.insert(&int_bytes(i));
    }

    let mut false_positives = 0;
    let test_count = 10000;

    for i in 1000..(1000 + test_count) {
        if filter.contains(&int_bytes(i)) {
            false_positives += 1;
        }
    }

    let actual_fpr = false_positives as f64 / test_count as f64;

    assert!(
        actual_fpr < 0.03,
        "False positive rate too high: {:.4}",
        actual_fpr
    );
}

#[test]
fn test_is_overfilled() {
    let mut filter = PrecisionBloom::with_capacity(10, rate(0.01));

    assert!(!filter.is_overfilled());

    for i in 0..10 {
        filter.insert(&int_bytes(i));
    }
    assert!(!filter.is_overfilled());

    filter.insert(&int_bytes(11));
    assert!(filter.is_overfilled());
}

#[test]
fn test_different_types() {
    let mut filter = PrecisionBloom::with_capacity(100, rate(0.01));

    // A string, an integer, a tuple and a vector, each reduced to bytes
    let tuple_bytes: Vec<u8> = [1i32, 2, 3]
        .iter()
        .flat_map(|x| x.to_le_bytes())
        .collect();
    let vec_bytes: Vec<u8> = vec![1i32, 2, 3]
        .iter()
        .flat_map(|x| x.to_le_bytes())
        .collect();

    filter.insert(b"string");
    filter.insert(&int_bytes(42));
    filter.insert(&tuple_bytes);
    filter.insert(&vec_bytes);

    assert!(filter.contains(b"string"));
    assert!(filter.contains(&int_bytes(42)));
    assert!(filter.contains(&tuple_bytes));
    assert!(filter.contains(&vec_bytes));
}

#[test]
fn test_status_summary() {
    let mut filter = PrecisionBloom::with_capacity(100, rate(0.01));

    for i in 0..50 {
        filter.insert(&int_bytes(i));
    }

    let status = filter.status();
    assert!(status.contains("50/100"));
}

#[test]
fn test_theoretical_rate_reported() {
    let filter = PrecisionBloom::with_capacity(1000, rate(0.01));
    assert_eq!(filter.false_positive_rate(), rate(0.01));
    assert!(as_f64(filter.false_positive_rate()) <= 0.01);
}
