use oomfi::{Bloom, ConfigError};

#[test]
fn one_hash_function_is_rejected() {
    assert_eq!(Bloom::with_km(1, 959).err(), Some(ConfigError::TooFewHashFunctions));
    assert_eq!(Bloom::with_km(0, 959).err(), Some(ConfigError::TooFewHashFunctions));
    assert_eq!(Bloom::with_seeds(1, 959, 0, 0).err(), Some(ConfigError::TooFewHashFunctions));
}

#[test]
fn zero_bits_are_rejected() {
    assert_eq!(Bloom::with_km(7, 0).err(), Some(ConfigError::ZeroBits));
    assert_eq!(Bloom::with_seeds(2, 0, 3, 4).err(), Some(ConfigError::ZeroBits));
}

#[test]
fn too_few_hash_functions_are_reported_first() {
    assert_eq!(Bloom::with_km(1, 0).err(), Some(ConfigError::TooFewHashFunctions));
    assert_eq!(Bloom::with_km(1, u64::MAX).err(), Some(ConfigError::TooFewHashFunctions));
}

#[test]
fn more_bits_than_a_store_holds_are_rejected() {
    assert_eq!(Bloom::with_km(2, u64::MAX).err(), Some(ConfigError::TooManyBits));
    let limit = (usize::MAX / 8) as u64;
    assert_eq!(Bloom::with_km(2, limit + 1).err(), Some(ConfigError::TooManyBits));
}

#[test]
fn the_smallest_filter_is_accepted() {
    let set = Bloom::with_km(2, 1).unwrap();
    assert_eq!(set.hash_functions(), 2);
    assert_eq!(set.number_of_bits(), 1);
    assert_eq!(set.get_vec(), vec![false]);
}

#[test]
fn a_new_filter_is_empty() {
    let set = Bloom::with_km(7, 959).unwrap();
    assert!(set.is_empty());
    assert_eq!(set.get_vec(), vec![false; 959]);
    assert!(!set.query("anything"));
    assert!(!set.query_hashed(0, 0));
}

#[test]
fn accessors_report_what_was_asked_for() {
    let set = Bloom::with_km(14, 1917012).unwrap();
    assert_eq!(set.hash_functions(), 14);
    assert_eq!(set.number_of_bits(), 1917012);
    let set = Bloom::with_seeds(14, 192, 8, 9).unwrap();
    assert_eq!(set.hash_functions(), 14);
    assert_eq!(set.number_of_bits(), 192);
    assert_eq!(set.get_vec().len(), 192);
}

#[test]
fn parameters_outlive_insert_and_clear() {
    let mut set = Bloom::with_km(3, 77).unwrap();
    set.insert("x");
    assert_eq!((set.hash_functions(), set.number_of_bits()), (3, 77));
    set.clear();
    assert_eq!((set.hash_functions(), set.number_of_bits()), (3, 77));
    assert_eq!(set.get_vec().len(), 77);
}
