use oomfi::Bloom;
use std::hash::{Hash, Hasher};

#[derive(Clone, Copy, Debug)]
struct Mage<'a> {
    name: &'a str,
    level: u64,
    #[allow(dead_code)]
    mana: f64,
}

impl Hash for Mage<'_> {
    fn hash<H: Hasher>(&self, state: &mut H) {
        self.name.hash(state);
        self.level.hash(state);
    }
}

/// Seven rounds over 29 bits: the optimum for three elements at a one percent
/// false-positive rate.
#[test]
fn clear_works() {
    let mut set = Bloom::with_km(7, 29).unwrap();
    set.insert(":3");
    set.insert("uwu");
    set.insert("owo");
    set.clear();
    assert_ne!(set.query(":3"), true);
    assert_ne!(set.query("uwu"), true);
    assert_ne!(set.query("owo"), true);
}

/// Seven rounds over 240 bits: the optimum for 25 elements at a one percent
/// false-positive rate.
#[test]
fn test_types() {
    let mut set = Bloom::with_km(7, 240).unwrap();

    for i in 0..26 {
        set.insert(i);
        assert!(set.query(i));
    }

    set.clear();

    let malori = Mage { name: &"Malori", level: u64::MAX, mana: f64::MAX };
    set.insert(malori);
    assert!(set.query(&malori));
}

#[test]
fn end_to_end() {
    let mut set = Bloom::with_seeds(7, 29, 1, 2).unwrap();
    assert!(set.is_empty());
    set.insert(":3");
    set.insert("uwu");
    set.insert("owo");
    assert!(!set.is_empty());
    assert!(set.query(":3"));
    assert!(set.query("uwu"));
    assert!(set.query("owo"));
    set.clear();
    assert!(set.is_empty());
    assert!(!set.query(":3"));
    assert!(!set.query("uwu"));
    assert!(!set.query("owo"));
    assert_eq!(set.hash_functions(), 7);
    assert_eq!(set.number_of_bits(), 29);
}

/// An element that never went in is reported as absent with high
/// probability, not with certainty: a false positive is possible, only a
/// false negative is not. So the answer is taken from many filters that
/// differ in their seeds, and most of them must deny.
#[test]
fn a_stranger_is_mostly_denied() {
    let mut denied = 0;
    for seed in 0..64u64 {
        let mut set = Bloom::with_seeds(7, 29, seed, seed + 1000).unwrap();
        set.insert(":3");
        set.insert("uwu");
        set.insert("owo");
        let before = set.get_vec();
        if !set.query("OWO") {
            denied += 1;
        }
        assert_eq!(set.get_vec(), before);
    }
    assert!(denied >= 48);
}

#[test]
fn no_false_negatives_after_further_insertions() {
    let mut set = Bloom::with_km(7, 959).unwrap();
    for i in 0..100u32 {
        set.insert(i);
        for j in 0..=i {
            assert!(set.query(j));
        }
    }
}

#[test]
fn inserting_twice_changes_nothing() {
    let mut set = Bloom::with_km(5, 64).unwrap();
    set.insert("uwu");
    let once = set.get_vec();
    set.insert("uwu");
    assert_eq!(set.get_vec(), once);
}

#[test]
fn inserting_never_clears_a_bit() {
    let mut set = Bloom::with_km(3, 50).unwrap();
    set.insert(17u64);
    let before = set.get_vec();
    set.insert(("pair", 4u8));
    let after = set.get_vec();
    assert_eq!(after.len(), before.len());
    for p in 0..before.len() {
        assert!(!before[p] || after[p]);
    }
}

#[test]
fn equal_seeds_give_equal_filters() {
    let mut a = Bloom::with_seeds(4, 128, 11, 22).unwrap();
    let mut b = Bloom::with_seeds(4, 128, 11, 22).unwrap();
    for word in ["alpha", "beta", "gamma"] {
        a.insert(word);
        b.insert(word);
    }
    assert_eq!(a.get_vec(), b.get_vec());
    assert!(b.query("alpha"));
}

#[test]
fn the_seed_enters_the_hash() {
    let mut sets: Vec<Vec<bool>> = Vec::new();
    for seed in 0..8u64 {
        let mut set = Bloom::with_seeds(2, 1 << 20, seed, seed + 100).unwrap();
        set.insert("uwu");
        sets.push(set.get_vec());
    }
    assert!(sets.iter().any(|bits| *bits != sets[0]));
}

#[test]
fn mixed_element_types_share_one_filter() {
    let mut set = Bloom::with_km(6, 512).unwrap();
    set.insert("text");
    set.insert(String::from("owned"));
    set.insert(42i64);
    set.insert((1u8, 'c', true));
    set.insert(Mage { name: "Ysolde", level: 3, mana: 0.5 });
    assert!(set.query("text"));
    assert!(set.query(String::from("owned")));
    assert!(set.query(42i64));
    assert!(set.query((1u8, 'c', true)));
    // The mana is no part of the hash, so it is no part of the identity.
    assert!(set.query(Mage { name: "Ysolde", level: 3, mana: 99.0 }));
}
