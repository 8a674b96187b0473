use intern_arc::{HashInterner, InternedHash, InternedOrd, OrdInterner};
use std::borrow::Borrow;
use std::cell::Cell;
use std::cmp::Ordering;
use std::collections::hash_map::DefaultHasher;
use std::hash::{Hash, Hasher};
use std::rc::Rc;

fn hash_of<T: Hash + ?Sized>(value: &T) -> u64 {
    let mut hasher = DefaultHasher::new();
    value.hash(&mut hasher);
    hasher.finish()
}

/// A value that counts how often it is freed.
#[derive(Clone)]
struct Counted(u32, Rc<Cell<u32>>);

impl PartialEq for Counted {
    fn eq(&self, other: &Self) -> bool {
        self.0 == other.0
    }
}

impl Eq for Counted {}

impl PartialOrd for Counted {
    fn partial_cmp(&self, other: &Self) -> Option<Ordering> {
        Some(self.cmp(other))
    }
}

impl Ord for Counted {
    fn cmp(&self, other: &Self) -> Ordering {
        self.0.cmp(&other.0)
    }
}

impl Hash for Counted {
    fn hash<H: Hasher>(&self, state: &mut H) {
        self.0.hash(state)
    }
}

impl Drop for Counted {
    fn drop(&mut self) {
        self.1.set(self.1.get() + 1);
    }
}

#[test]
fn hash_frees_each_value_once() {
    let freed = Rc::new(Cell::new(0));
    let interner = HashInterner::new();
    let a = interner.intern_sized(Counted(1, freed.clone()));
    assert_eq!(freed.get(), 0);
    // the second value is not needed
    let b = interner.intern_sized(Counted(1, freed.clone()));
    assert_eq!(freed.get(), 1);
    let c = interner.intern_sized(Counted(2, freed.clone()));
    assert_eq!(interner.len(), 2);
    drop(a);
    assert_eq!(freed.get(), 1);
    drop(b);
    assert_eq!(freed.get(), 2);
    assert_eq!(interner.len(), 1);
    drop(interner);
    assert_eq!(freed.get(), 2);
    assert_eq!(c.ref_count(), 1);
    assert_eq!(c.0, 2);
    drop(c);
    assert_eq!(freed.get(), 3);
}

#[test]
fn ord_frees_each_value_once() {
    let freed = Rc::new(Cell::new(0));
    let interner = OrdInterner::new();
    let a = interner.intern_sized(Counted(1, freed.clone()));
    assert_eq!(freed.get(), 0);
    // the second value is not needed
    let b = interner.intern_sized(Counted(1, freed.clone()));
    assert_eq!(freed.get(), 1);
    let c = interner.intern_sized(Counted(2, freed.clone()));
    assert_eq!(interner.len(), 2);
    drop(a);
    assert_eq!(freed.get(), 1);
    drop(b);
    assert_eq!(freed.get(), 2);
    assert_eq!(interner.len(), 1);
    drop(interner);
    assert_eq!(freed.get(), 2);
    assert_eq!(c.ref_count(), 1);
    assert_eq!(c.0, 2);
    drop(c);
    assert_eq!(freed.get(), 3);
}

#[test]
fn hash_interner_dropped_first() {
    let freed = Rc::new(Cell::new(0));
    let interner = HashInterner::new();
    let a = interner.intern_sized(Counted(1, freed.clone()));
    let a2 = a.clone();
    let b = interner.intern_sized(Counted(2, freed.clone()));
    assert_eq!(a.ref_count(), 3);
    let other = interner.clone();
    drop(interner);
    // another clone of the interner is left
    assert_eq!(a.ref_count(), 3);
    assert_eq!(other.len(), 2);
    drop(other);
    assert_eq!(a.ref_count(), 2);
    assert_eq!(b.ref_count(), 1);
    let a3 = a.clone();
    assert_eq!(a.ref_count(), 3);
    drop(a);
    drop(a2);
    assert_eq!(a3.ref_count(), 1);
    assert_eq!(freed.get(), 0);
    drop(a3);
    assert_eq!(freed.get(), 1);
    drop(b);
    assert_eq!(freed.get(), 2);
}

#[test]
fn ord_interner_dropped_first() {
    let freed = Rc::new(Cell::new(0));
    let interner = OrdInterner::new();
    let a = interner.intern_sized(Counted(1, freed.clone()));
    let a2 = a.clone();
    let b = interner.intern_sized(Counted(2, freed.clone()));
    assert_eq!(a.ref_count(), 3);
    let other = interner.clone();
    drop(interner);
    // another clone of the interner is left
    assert_eq!(a.ref_count(), 3);
    assert_eq!(other.len(), 2);
    drop(other);
    assert_eq!(a.ref_count(), 2);
    assert_eq!(b.ref_count(), 1);
    let a3 = a.clone();
    assert_eq!(a.ref_count(), 3);
    drop(a);
    drop(a2);
    assert_eq!(a3.ref_count(), 1);
    assert_eq!(freed.get(), 0);
    drop(a3);
    assert_eq!(freed.get(), 1);
    drop(b);
    assert_eq!(freed.get(), 2);
}

#[test]
fn same_value_same_place() {
    let interner = HashInterner::<str>::new();
    let a = interner.intern_ref("hello world!");
    let hello: Box<str> = "hello world!".into();
    let b = interner.intern_box(hello);
    assert!(std::ptr::eq(&*a, &*b));
    assert_eq!(a.ref_count(), 3);
    assert_eq!(&*a, "hello world!");

    let interner = OrdInterner::<str>::new();
    let a = interner.intern_ref("hello world!");
    let hello: Box<str> = "hello world!".into();
    let b = interner.intern_box(hello);
    assert!(std::ptr::eq(&*a, &*b));
    assert_eq!(a.ref_count(), 3);
    assert_eq!(&*a, "hello world!");
}

#[test]
fn large_values() {
    let arrays = HashInterner::<[u8; 1000]>::new();
    let i = arrays.intern_sized([0; 1000]);
    assert_eq!(i.len(), 1000);
    let arrays = OrdInterner::<[u8; 1000]>::new();
    let i = arrays.intern_sized([7; 1000]);
    assert_eq!(i[999], 7);
}

#[test]
fn empty_and_default() {
    let interner = HashInterner::<u32>::default();
    assert!(interner.is_empty());
    let i = interner.intern_sized(1);
    assert!(!interner.is_empty());
    drop(i);
    assert!(interner.is_empty());

    let interner = OrdInterner::<u32>::default();
    assert!(interner.is_empty());
    let i = interner.intern_sized(1);
    assert!(!interner.is_empty());
    drop(i);
    assert!(interner.is_empty());
}

#[test]
fn many_hash_values() {
    let interner = HashInterner::new();
    let mut kept: Vec<InternedHash<u32>> = (0..2000).map(|n| interner.intern_sized(n)).collect();
    assert_eq!(interner.len(), 2000);
    // every third one goes
    let mut n = 0;
    kept.retain(|_| {
        n += 1;
        n % 3 != 1
    });
    assert_eq!(interner.len(), kept.len());
    for i in &kept {
        assert_eq!(interner.intern_sized(**i).ref_count(), 3);
    }
    let again: Vec<InternedHash<u32>> = (0..4000).map(|n| interner.intern_sized(n)).collect();
    assert_eq!(interner.len(), 4000);
    for (n, i) in again.iter().enumerate() {
        assert_eq!(**i as usize, n);
    }
    drop(kept);
    assert_eq!(interner.len(), 4000);
    drop(again);
    assert_eq!(interner.len(), 0);
}

#[test]
fn many_ord_values() {
    let interner = OrdInterner::new();
    // neither ascending nor descending
    let mut kept: Vec<InternedOrd<u32>> =
        (0..2000).map(|n| interner.intern_sized((n * 769) % 2000)).collect();
    assert_eq!(interner.len(), 2000);
    let mut n = 0;
    kept.retain(|_| {
        n += 1;
        n % 3 != 1
    });
    assert_eq!(interner.len(), kept.len());
    for i in &kept {
        assert_eq!(interner.intern_sized(**i).ref_count(), 3);
    }
    let again: Vec<InternedOrd<u32>> = (0..3000).map(|n| interner.intern_sized(n)).collect();
    assert_eq!(interner.len(), 3000);
    for (n, i) in again.iter().enumerate() {
        assert_eq!(**i as usize, n);
    }
    drop(kept);
    drop(again);
    assert_eq!(interner.len(), 0);
}

/// A value whose hash code says nothing.
#[derive(PartialEq, Eq)]
struct Lumped(u8);

impl Hash for Lumped {
    fn hash<H: Hasher>(&self, _state: &mut H) {}
}

#[test]
fn equal_hash_codes() {
    let interner = HashInterner::new();
    let all: Vec<InternedHash<Lumped>> = (0..100).map(|n| interner.intern_sized(Lumped(n))).collect();
    assert_eq!(interner.len(), 100);
    for (n, i) in all.iter().enumerate() {
        assert_eq!(i.0 as usize, n);
        assert_eq!(i.ref_count(), 2);
        assert!(std::ptr::eq(&**i, &*interner.intern_sized(Lumped(i.0))));
    }
    drop(all);
    assert_eq!(interner.len(), 0);
}

/// A value that refers to another value of the same interner.
#[derive(PartialEq, Eq, Hash)]
struct Chain(u32, Option<InternedHash<Chain>>);

#[test]
fn values_within_values() {
    let interner = HashInterner::new();
    let mut last = interner.intern_sized(Chain(0, None));
    for n in 1..20 {
        last = interner.intern_sized(Chain(n, Some(last)));
    }
    assert_eq!(interner.len(), 20);
    assert_eq!(last.0, 19);
    // a value that is not needed gives its references up
    let inner = last.1.clone();
    assert_eq!(inner.as_ref().unwrap().ref_count(), 3);
    let again = interner.intern_sized(Chain(19, inner));
    assert_eq!(again.ref_count(), 3);
    assert_eq!(again.1.as_ref().unwrap().ref_count(), 2);
    drop(last);
    assert_eq!(interner.len(), 20);
    drop(again);
    assert_eq!(interner.len(), 0);

    let mut last = interner.intern_sized(Chain(0, None));
    for n in 1..20 {
        last = interner.intern_sized(Chain(n, Some(last)));
    }
    drop(interner);
    assert_eq!(last.ref_count(), 1);
    assert_eq!(last.1.as_ref().unwrap().ref_count(), 1);
}

#[test]
fn comparisons_go_by_value() {
    let one = HashInterner::new();
    let two = HashInterner::new();
    let a = one.intern_sized(1u32);
    let b = two.intern_sized(1u32);
    let c = two.intern_sized(2u32);
    assert!(a == b);
    assert!(a != c);
    assert!(a < c);
    assert!(c > b);
    assert_eq!(a.partial_cmp(&b), Some(Ordering::Equal));
    assert_eq!(a.cmp(&c), Ordering::Less);
    assert_eq!(c.cmp(&a), Ordering::Greater);
    assert_eq!(hash_of(&a), hash_of(&1u32));
    assert!(hash_of(&a) != hash_of(&c));

    let one = OrdInterner::new();
    let two = OrdInterner::new();
    let a = one.intern_sized(1u32);
    let a2 = a.clone();
    let b = two.intern_sized(1u32);
    let c = two.intern_sized(2u32);
    assert!(a == a2);
    assert!(a == b);
    assert!(a != c);
    assert!(a < c);
    assert!(c > b);
    assert_eq!(a.partial_cmp(&a2), Some(Ordering::Equal));
    assert_eq!(a.cmp(&a2), Ordering::Equal);
    assert_eq!(a.cmp(&b), Ordering::Equal);
    assert_eq!(a.cmp(&c), Ordering::Less);
    assert_eq!(c.cmp(&a), Ordering::Greater);
    assert_eq!(hash_of(&a), hash_of(&1u32));
    assert!(hash_of(&a) != hash_of(&c));
}

#[test]
fn views_of_the_value() {
    let interner = HashInterner::<str>::new();
    let i = interner.intern_ref("abc");
    let s: &str = i.as_ref();
    assert_eq!(s, "abc");
    let s: &str = i.borrow();
    assert_eq!(s, "abc");
    assert_eq!(i.to_uppercase(), "ABC");

    let interner = OrdInterner::<str>::new();
    let i = interner.intern_ref("abc");
    let s: &str = i.as_ref();
    assert_eq!(s, "abc");
    let s: &str = i.borrow();
    assert_eq!(s, "abc");
    assert_eq!(i.to_uppercase(), "ABC");
}

#[test]
fn hash_drop_orders() {
    // the value first, then the interner
    let freed = Rc::new(Cell::new(0));
    let i = HashInterner::new();
    let n = i.intern_box(Box::new(Counted(42, freed.clone())));
    drop(n);
    assert_eq!(freed.get(), 1);
    drop(i);
    assert_eq!(freed.get(), 1);

    // the other way round
    let freed = Rc::new(Cell::new(0));
    let i = HashInterner::new();
    let n = i.intern_box(Box::new(Counted(42, freed.clone())));
    drop(i);
    assert_eq!(freed.get(), 0);
    drop(n);
    assert_eq!(freed.get(), 1);

    // interned again while it is there
    let freed = Rc::new(Cell::new(0));
    let i = HashInterner::new();
    let n = i.intern_box(Box::new(Counted(42, freed.clone())));
    let ii = i.clone();
    let n2 = i.intern_box(Box::new(Counted(42, freed.clone())));
    assert_eq!(freed.get(), 1);
    drop(n);
    drop(ii);
    assert_eq!(n2.ref_count(), 2);
    drop(n2);
    assert_eq!(freed.get(), 2);
    assert!(i.is_empty());

    // interned again after it is gone
    let n = i.intern_box(Box::new(Counted(42, freed.clone())));
    assert_eq!(n.ref_count(), 2);
    drop(i);
    drop(n);
    assert_eq!(freed.get(), 3);
}

#[test]
fn ord_drop_orders() {
    // the value first, then the interner
    let freed = Rc::new(Cell::new(0));
    let i = OrdInterner::new();
    let n = i.intern_box(Box::new(Counted(42, freed.clone())));
    drop(n);
    assert_eq!(freed.get(), 1);
    drop(i);
    assert_eq!(freed.get(), 1);

    // the other way round
    let freed = Rc::new(Cell::new(0));
    let i = OrdInterner::new();
    let n = i.intern_box(Box::new(Counted(42, freed.clone())));
    drop(i);
    assert_eq!(freed.get(), 0);
    drop(n);
    assert_eq!(freed.get(), 1);

    // interned again while it is there
    let freed = Rc::new(Cell::new(0));
    let i = OrdInterner::new();
    let n = i.intern_box(Box::new(Counted(42, freed.clone())));
    let ii = i.clone();
    let n2 = i.intern_box(Box::new(Counted(42, freed.clone())));
    assert_eq!(freed.get(), 1);
    drop(n);
    drop(ii);
    assert_eq!(n2.ref_count(), 2);
    drop(n2);
    assert_eq!(freed.get(), 2);
    assert!(i.is_empty());

    // interned again after it is gone
    let n = i.intern_box(Box::new(Counted(42, freed.clone())));
    assert_eq!(n.ref_count(), 2);
    drop(i);
    drop(n);
    assert_eq!(freed.get(), 3);
}
