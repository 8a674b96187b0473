use intern_arc::foreign::{boxed_copy, feed, hash_code};
use intern_arc::relations::{compare, Place};
use std::collections::hash_map::DefaultHasher;
use std::hash::{BuildHasher, Hash, Hasher, RandomState};

#[test]
fn hash_codes() {
    let keys = RandomState::new();
    assert_eq!(hash_code(&keys, "hello"), keys.hash_one("hello"));
    assert_eq!(hash_code(&keys, &42u8), keys.hash_one(&42u8));
    assert!(hash_code(&keys, "hello") != hash_code(&keys, "world"));
}

#[test]
fn copies() {
    let given = [1u8, 2, 3];
    let copy: Box<[u8]> = boxed_copy(&given[..]);
    assert_eq!(*copy, given);
    assert!(!std::ptr::eq(&*copy, &given[..]));
    assert_eq!(&*boxed_copy("abc"), "abc");
}

#[test]
fn feeding() {
    let mut one = DefaultHasher::new();
    let untouched = one.finish();
    feed("hello", &mut one);
    let mut two = DefaultHasher::new();
    "hello".hash(&mut two);
    assert_eq!(one.finish(), two.finish());
    assert!(one.finish() != untouched);
}

#[test]
fn places() {
    assert!(compare("a", "b") == Place::Before);
    assert!(compare(&7, &7) == Place::Level);
    assert!(compare(&[2u8][..], &[1u8, 5][..]) == Place::After);
}
