use intern_arc::global::{hash_interner, ord_interner, HashInternerPool, OrdInternerPool, TypeMap};
use intern_arc::hash_table::HashTable;
use intern_arc::ord_table::OrdTable;
use intern_arc::ref_count::{Release, State};
use intern_arc::sync::RwLock;
use intern_arc::InternedOrd;
use std::any::TypeId;
use std::sync::Arc;

#[test]
fn counting() {
    let mut state = State::new();
    assert_eq!(state.refs(), 1);
    state.retain();
    state.retain();
    assert_eq!(state.refs(), 3);
    assert!(matches!(state.release(), Release::Shared));
    // nobody was to clean up
    assert!(matches!(state.release(), Release::Shared));
    assert_eq!(state.refs(), 1);
    assert!(matches!(state.release(), Release::Last));
}

#[test]
fn clean_up_duty() {
    let mut state = State::new();
    state.make_hot();
    state.retain();
    state.retain();
    assert!(matches!(state.release(), Release::Shared));
    assert!(matches!(state.release(), Release::Cleanup));
    assert_eq!(state.refs(), 1);
    // somebody asks for the value before the duty is seen to
    state.retain();
    assert!(!state.reclaim());
    // so the duty passes on
    assert!(matches!(state.release(), Release::Cleanup));
    // somebody comes and goes before the duty is seen to
    state.retain();
    assert!(matches!(state.release(), Release::Shared));
    assert!(state.reclaim());
    assert!(matches!(state.release(), Release::Last));
}

#[test]
fn hash_table_by_number() {
    let mut table: HashTable<str> = HashTable::new();
    let (a, surplus) = table.intern(7, "a".into());
    let a = a.get().clone();
    assert!(surplus.is_none());
    // the same code for another value
    let (b, surplus) = table.intern(7, "b".into());
    let b = b.get().clone();
    assert!(surplus.is_none());
    // the same value under another code
    let (c, surplus) = table.intern(8, "a".into());
    let c = c.get().clone();
    assert!(surplus.is_none());
    assert_eq!((a.get_id(), b.get_id(), c.get_id()), (0, 1, 2));
    assert_eq!((a.get_code(), b.get_code(), c.get_code()), (7, 7, 8));
    assert_eq!(table.len(), 3);
    let (again, surplus) = table.intern(7, "b".into());
    let again = again.get().clone();
    assert!(Arc::ptr_eq(&again, &b));
    assert_eq!(surplus.as_deref(), Some("b"));
    assert_eq!(table.len(), 3);

    assert!(Arc::ptr_eq(table.get(7, "a").unwrap(), &a));
    assert!(table.get(9, "a").is_none());
    assert!(table.get(7, "c").is_none());

    // somebody refers to it
    let (done, entry) = table.remove(0, 7, false);
    assert!(!done && entry.is_none());
    assert_eq!(table.len(), 3);
    let (done, entry) = table.remove(0, 7, true);
    assert!(done && Arc::ptr_eq(&entry.unwrap(), &a));
    assert_eq!(table.len(), 2);
    // it is not there any more
    let (done, entry) = table.remove(0, 7, true);
    assert!(done && entry.is_none());
    assert!(table.get(7, "a").is_none());
    // what was stored behind it is still found
    assert!(Arc::ptr_eq(table.get(7, "b").unwrap(), &b));
    // it goes by the next number
    let (a, _) = table.intern(7, "a".into());
    let a = a.get().clone();
    assert_eq!(a.get_id(), 3);

    table.release_all();
    assert_eq!(table.len(), 0);
    assert!(table.get(7, "b").is_none());
}

#[test]
fn hash_table_intern_and_remove() {
    let mut table: HashTable<u64> = HashTable::new();
    let mut ids = Vec::new();
    for n in 0..500u64 {
        let (entry, _) = table.intern(n * n, Box::new(n));
        let entry = entry.get().clone();
        ids.push((entry.get_id(), entry.get_code()));
    }
    assert_eq!(table.len(), 500);
    for (id, code) in ids.iter().rev() {
        let (done, entry) = table.remove(*id, *code, true);
        assert!(done);
        assert_eq!(entry.unwrap().get_code(), *code);
    }
    assert_eq!(table.len(), 0);
    for n in 0..500u64 {
        assert!(table.get(n * n, &n).is_none());
    }
}

#[test]
fn ord_table_by_number() {
    let mut table: OrdTable<str> = OrdTable::new();
    let (b, surplus) = table.intern("b".into());
    let b = b.get().clone();
    assert!(surplus.is_none());
    let (a, surplus) = table.intern("a".into());
    let a = a.get().clone();
    assert!(surplus.is_none());
    let (c, surplus) = table.intern("c".into());
    let c = c.get().clone();
    assert!(surplus.is_none());
    assert_eq!((a.get_id(), b.get_id(), c.get_id()), (1, 0, 2));
    assert_eq!(a.get_value(), "a");
    let (again, surplus) = table.intern("b".into());
    let again = again.get().clone();
    assert!(Arc::ptr_eq(&again, &b));
    assert_eq!(surplus.as_deref(), Some("b"));
    assert_eq!(table.len(), 3);

    assert!(Arc::ptr_eq(table.get("a").unwrap(), &a));
    assert!(table.get("aa").is_none());
    assert!(table.get("d").is_none());

    // somebody refers to it
    let (done, entry) = table.remove(1, false);
    assert!(!done && entry.is_none());
    let (done, entry) = table.remove(1, true);
    assert!(done && Arc::ptr_eq(&entry.unwrap(), &a));
    assert_eq!(table.len(), 2);
    // it is not there any more
    let (done, entry) = table.remove(1, true);
    assert!(done && entry.is_none());
    assert!(table.get("a").is_none());
    assert!(Arc::ptr_eq(table.get("b").unwrap(), &b));
    assert!(Arc::ptr_eq(table.get("c").unwrap(), &c));
    // it goes by the next number
    let (a, _) = table.intern("a".into());
    let a = a.get().clone();
    assert_eq!(a.get_id(), 3);

    table.release_all();
    assert_eq!(table.len(), 0);
    assert!(table.get("b").is_none());
}

#[test]
fn taking_out() {
    let mut table: HashTable<str> = HashTable::new();
    let (a, _) = table.intern(7, "a".into());
    let a = a.get().clone();
    // the entry of another table under the same number and code
    let mut other: HashTable<str> = HashTable::new();
    let (b, _) = other.intern(7, "b".into());
    let b = b.get().clone();
    assert_eq!((a.get_id(), a.get_code()), (b.get_id(), b.get_code()));
    assert!(table.owns(&a));
    assert!(!table.owns(&b));
    let (done, entry) = table.take_out(&b);
    assert!(done && entry.is_none());
    assert_eq!(table.len(), 1);
    // the caller still refers to it
    let (done, entry) = table.take_out(&a);
    assert!(!done && entry.is_none());
    assert!(Arc::ptr_eq(table.lookup(7, "a").unwrap().get(), &a));
    assert!(table.lookup(7, "b").is_none());
    assert!(table.lookup(8, "a").is_none());

    let mut table: OrdTable<str> = OrdTable::new();
    let (a, _) = table.intern("a".into());
    let a = a.get().clone();
    let mut other: OrdTable<str> = OrdTable::new();
    let (b, _) = other.intern("b".into());
    let b = b.get().clone();
    assert_eq!(a.get_id(), b.get_id());
    assert!(table.owns(&a));
    assert!(!table.owns(&b));
    let (done, entry) = table.take_out(&b);
    assert!(done && entry.is_none());
    let (done, entry) = table.take_out(&a);
    assert!(!done && entry.is_none());
    assert!(Arc::ptr_eq(table.lookup("a").unwrap().get(), &a));
    assert!(table.lookup("b").is_none());
}

#[test]
fn type_map() {
    let mut map: TypeMap<u8> = TypeMap::new();
    assert!(map.get(&TypeId::of::<str>()).is_none());
    map.insert(TypeId::of::<str>(), 1);
    map.insert(TypeId::of::<String>(), 2);
    assert_eq!(map.get(&TypeId::of::<str>()), Some(&1));
    map.insert(TypeId::of::<str>(), 3);
    assert_eq!(map.get(&TypeId::of::<str>()), Some(&3));
    assert_eq!(map.get(&TypeId::of::<String>()), Some(&2));
    assert!(map.get(&TypeId::of::<u8>()).is_none());
}

#[test]
fn hash_pool() {
    let mut pool = HashInternerPool::new();
    assert!(pool.get::<str>().is_none());
    let strings = pool.get_or_create::<str>();
    let a = strings.intern_ref("hello");
    // the same interner again
    let more = pool.get::<str>().unwrap();
    assert_eq!(more.len(), 1);
    assert!(std::ptr::eq(&*a, &*more.intern_ref("hello")));
    drop(more);
    let more = pool.get_or_create::<str>();
    assert!(std::ptr::eq(&*a, &*more.intern_ref("hello")));
    // another one for another type
    let numbers = pool.get_or_create::<Vec<i32>>();
    assert!(numbers.is_empty());
    let b = numbers.intern_sized(vec![1, 2, 3]);
    assert_eq!(strings.len(), 1);
    assert!(pool.get::<Vec<u8>>().is_none());
    drop(strings);
    drop(more);
    drop(numbers);
    assert_eq!(a.ref_count(), 2);
    // interned values outlive the pool
    drop(pool);
    assert_eq!(a.ref_count(), 1);
    assert_eq!(b.ref_count(), 1);
    assert_eq!(*b, vec![1, 2, 3]);
}

#[test]
fn ord_pool() {
    let mut pool = OrdInternerPool::default();
    assert!(pool.get::<[u8]>().is_none());
    let i: InternedOrd<[u8]> = pool.get_or_create().intern_box(vec![1, 2, 3].into());
    assert_eq!(&*i, &[1, 2, 3]);
    assert_eq!(pool.get::<[u8]>().unwrap().len(), 1);
    assert!(pool.get::<str>().is_none());
    let j = pool.get_or_create::<[u8]>().intern_ref(&[1, 2, 3]);
    assert!(std::ptr::eq(&*i, &*j));
    drop(pool);
    assert_eq!(i.ref_count(), 2);
}

#[test]
fn pool_by_identity() {
    let key = TypeId::of::<str>();
    let mut pool = HashInternerPool::new();
    assert!(pool.get_at::<str>(&key).is_none());
    let a = pool.get_or_create_at::<str>(key).intern_ref("a");
    assert!(std::ptr::eq(&*a, &*pool.get::<str>().unwrap().intern_ref("a")));
    // what is in the slot is not of the type
    assert!(pool.get_at::<String>(&key).is_none());

    let mut pool = OrdInternerPool::new();
    assert!(pool.get_at::<str>(&key).is_none());
    let a = pool.get_or_create_at::<str>(key).intern_ref("a");
    assert!(std::ptr::eq(&*a, &*pool.get::<str>().unwrap().intern_ref("a")));
    assert!(pool.get_at::<String>(&key).is_none());
}

#[test]
fn shared_pools() {
    let pool = RwLock::new(HashInternerPool::new());
    let a = hash_interner(&pool).intern_ref("hello");
    let b = hash_interner(&pool).intern_ref("hello");
    assert!(std::ptr::eq(&*a, &*b));
    assert_eq!(a.ref_count(), 3);
    let c = hash_interner(&pool).intern_sized("hello".to_string());
    assert_eq!(c.ref_count(), 2);

    let pool = RwLock::new(OrdInternerPool::new());
    let a = ord_interner(&pool).intern_ref("hello");
    let b = ord_interner(&pool).intern_ref("hello");
    assert!(std::ptr::eq(&*a, &*b));
    assert_eq!(a.ref_count(), 3);
    let c = ord_interner(&pool).intern_sized("hello".to_string());
    assert_eq!(c.ref_count(), 2);
}
