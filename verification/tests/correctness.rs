//! Correctness tests for the bloom filter implementation.
//!
//! These tests verify the fundamental correctness guarantees of the bloom filter.

use bloom_filter_rs::PrecisionBloom;

/// The fixed-point value of a rate given as a float, truncated.
fn rate(p: f64) -> u64 {
    (p * 4294967296.0) as u64
}

fn int_bytes(i: i64) -> [u8; 8] {
    i.to_le_bytes()
}

/// Test basic insert and contains operations
#[test]
fn test_basic_operations() {
    let mut filter = PrecisionBloom::with_capacity(100, rate(0.01));

    // Initially empty
    assert!(filter.is_empty());
    assert_eq!(filter.len(), 0);

    // Insert an item
    filter.insert(b"hello");
    assert!(!filter.is_empty());
    assert_eq!(filter.len(), 1);
    assert!(filter.contains(b"hello"));

    // Insert more items
    filter.insert(b"world");
    filter.insert(&int_bytes(42));
    assert_eq!(filter.len(), 3);
    assert!(filter.contains(b"world"));
    assert!(filter.contains(&int_bytes(42)));
}

/// Test that inserted items are always found (no false negatives)
#[test]
fn test_no_false_negatives_comprehensive() {
    let mut filter = PrecisionBloom::with_capacity(5_000, rate(0.01));

    for i in 0..5_000 {
        filter.insert(&int_bytes(i));
    }

    for i in 0..5_000 {
        assert!(
            filter.contains(&int_bytes(i)),
            "False negative detected for item {}",
            i
        );
    }
}

/// Test clear operation completely resets the filter
#[test]
fn test_clear_comprehensive() {
    let mut filter = PrecisionBloom::with_capacity(1_000, rate(0.01));

    for i in 0..1_000 {
        filter.insert(&int_bytes(i));
    }

    assert!(filter.contains(&int_bytes(500)));
    assert_eq!(filter.len(), 1_000);

    filter.clear();

    assert!(filter.is_empty());
    assert_eq!(filter.len(), 0);
    assert_eq!(filter.saturation(), 0);

    // Previously inserted items are no longer found: every bit is zero
    let mut found_after_clear = 0;
    for i in 0..1_000 {
        if filter.contains(&int_bytes(i)) {
            found_after_clear += 1;
        }
    }

    assert_eq!(
        found_after_clear, 0,
        "Found {} items after clear, expected 0",
        found_after_clear
    );
}

/// Test that duplicate insertions work correctly
#[test]
fn test_duplicate_insertions() {
    let mut filter = PrecisionBloom::with_capacity(100, rate(0.01));

    filter.insert(b"duplicate");
    filter.insert(b"duplicate");
    filter.insert(b"duplicate");

    // Length tracks insertions (even duplicates)
    assert_eq!(filter.len(), 3);

    assert!(filter.contains(b"duplicate"));
}

/// Test with various data types, each reduced to a byte sequence
#[test]
fn test_various_types() {
    let mut filter = PrecisionBloom::with_capacity(100, rate(0.01));

    // Integers
    filter.insert(&int_bytes(42));
    filter.insert(&int_bytes(-17));
    assert!(filter.contains(&int_bytes(42)));
    assert!(filter.contains(&int_bytes(-17)));

    // Strings
    filter.insert(b"hello");
    filter.insert(String::from("world").as_bytes());
    assert!(filter.contains(b"hello"));
    assert!(filter.contains(String::from("world").as_bytes()));

    // Tuples
    let pair: Vec<u8> = [1i32, 2].iter().flat_map(|x| x.to_le_bytes()).collect();
    let triple: Vec<u8> = [3i32, 4, 5].iter().flat_map(|x| x.to_le_bytes()).collect();
    filter.insert(&pair);
    filter.insert(&triple);
    assert!(filter.contains(&pair));
    assert!(filter.contains(&triple));

    // Vectors
    let vec_bytes: Vec<u8> = vec![1i32, 2, 3]
        .iter()
        .flat_map(|x| x.to_le_bytes())
        .collect();
    filter.insert(&vec_bytes);
    assert!(filter.contains(&vec_bytes));

    // Floats, via their bit patterns
    let float_val: f64 = 3.14;
    filter.insert(&float_val.to_bits().to_le_bytes());
    assert!(filter.contains(&float_val.to_bits().to_le_bytes()));
}

/// Test edge case: small filter
#[test]
fn test_small_filter() {
    // Use slightly larger capacity to avoid high collision probability
    let mut filter = PrecisionBloom::with_capacity(10, rate(0.01));

    filter.insert(b"only");
    assert!(filter.contains(b"only"));
}

/// Test edge case: very large capacity
#[test]
fn test_large_capacity() {
    let filter = PrecisionBloom::with_capacity(1_000_000, rate(0.001));

    assert_eq!(filter.capacity(), 1_000_000);
    assert!(filter.num_bits() > 10_000_000); // Should allocate enough bits
    assert!(filter.num_hashes() >= 10); // Should use enough hash functions
}

/// Test that different items (usually) have different hashes
#[test]
fn test_different_items_likely_different() {
    let mut filter = PrecisionBloom::with_capacity(10, rate(0.01));

    filter.insert(b"item1");

    assert!(!filter.contains(b"item2"));
    assert!(!filter.contains(b"item3"));
}

/// Test boundary values
#[test]
fn test_boundary_values() {
    let mut filter = PrecisionBloom::with_capacity(100, rate(0.01));

    filter.insert(&i64::MIN.to_le_bytes());
    filter.insert(&i64::MAX.to_le_bytes());
    filter.insert(&0i64.to_le_bytes());

    assert!(filter.contains(&i64::MIN.to_le_bytes()));
    assert!(filter.contains(&i64::MAX.to_le_bytes()));
    assert!(filter.contains(&0i64.to_le_bytes()));

    filter.insert(&u64::MIN.to_le_bytes());
    filter.insert(&u64::MAX.to_le_bytes());

    assert!(filter.contains(&u64::MIN.to_le_bytes()));
    assert!(filter.contains(&u64::MAX.to_le_bytes()));
}

/// Test empty string and special characters
#[test]
fn test_special_strings() {
    let mut filter = PrecisionBloom::with_capacity(100, rate(0.01));

    filter.insert(b"");
    filter.insert(b" ");
    filter.insert(b"  ");
    filter.insert(b"\n");
    filter.insert(b"\t");
    filter.insert("\u{1F980}".as_bytes());
    filter.insert(b"Hello\nWorld");

    assert!(filter.contains(b""));
    assert!(filter.contains(b" "));
    assert!(filter.contains(b"  "));
    assert!(filter.contains(b"\n"));
    assert!(filter.contains(b"\t"));
    assert!(filter.contains("\u{1F980}".as_bytes()));
    assert!(filter.contains(b"Hello\nWorld"));

    // Different whitespace should not match
    assert!(!filter.contains(b"   ")); // 3 spaces vs 2
}

/// Test that parameters are correctly reported
#[test]
fn test_parameter_reporting() {
    let filter = PrecisionBloom::with_capacity(1000, rate(0.01));

    assert_eq!(filter.capacity(), 1000);
    assert!(filter.false_positive_rate() <= rate(0.01));
    assert!(filter.num_bits() > 0);
    assert!(filter.num_hashes() > 0);

    // For 1000 items and 1% FPR, should use approximately:
    // m = 9585 bits, k = 7 hashes
    assert!(filter.num_bits() > 9000 && filter.num_bits() < 11000);
    assert!(filter.num_hashes() >= 6 && filter.num_hashes() <= 8);
}

/// Test saturation increases as items are added
#[test]
fn test_saturation_monotonic() {
    let mut filter = PrecisionBloom::with_capacity(100, rate(0.01));

    let mut previous_saturation: u64 = 0;

    for i in 0..50 {
        filter.insert(&int_bytes(i));
        let current_saturation = filter.saturation();

        // Saturation should increase (or stay same if bits already set)
        assert!(
            current_saturation >= previous_saturation,
            "Saturation decreased: {} -> {}",
            previous_saturation,
            current_saturation
        );

        previous_saturation = current_saturation;
    }

    // After 50 items, saturation should be > 0
    assert!(previous_saturation > 0);
}

/// Test clone creates independent copy
#[test]
fn test_clone_independence() {
    let mut filter1 = PrecisionBloom::with_capacity(100, rate(0.01));

    filter1.insert(b"original");

    let mut filter2 = filter1.clone();

    assert!(filter1.contains(b"original"));
    assert!(filter2.contains(b"original"));

    filter2.insert(b"clone_only");

    assert!(filter2.contains(b"original"));
    assert!(filter2.contains(b"clone_only"));

    assert!(filter1.contains(b"original"));
    assert!(!filter1.contains(b"clone_only"));
}

/// Test may_contain alias
#[test]
fn test_may_contain_alias() {
    let mut filter = PrecisionBloom::with_capacity(100, rate(0.01));

    filter.insert(b"test");

    assert_eq!(filter.contains(b"test"), filter.may_contain(b"test"));
    assert_eq!(filter.contains(b"other"), filter.may_contain(b"other"));
}

/// Test status reporting
#[test]
fn test_status() {
    let mut filter = PrecisionBloom::with_capacity(100, rate(0.01));

    for i in 0..50 {
        filter.insert(&int_bytes(i));
    }

    let status = filter.status();

    assert!(status.contains("50"));
    assert!(status.contains("100"));
    assert!(status.contains("%"));
}

/// Test overfill detection
#[test]
fn test_overfill_detection() {
    let mut filter = PrecisionBloom::with_capacity(10, rate(0.01));

    for i in 0..10 {
        filter.insert(&int_bytes(i));
        if i < 10 {
            assert!(!filter.is_overfilled());
        }
    }

    assert!(!filter.is_overfilled());

    filter.insert(&int_bytes(100));

    assert!(filter.is_overfilled());
}
