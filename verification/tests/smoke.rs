use intern_arc::{HashInterner, OrdInterner};

// Test basic functionality.
#[test]
fn basic_hash() {
    let interner = HashInterner::<&str>::new();

    assert!(interner.intern_sized("foo") == interner.intern_sized("foo"));
    assert!(interner.intern_sized("foo") != interner.intern_sized("bar"));
    // The above refs should be deallocated by now.
    assert_eq!(interner.len(), 0);

    let interner = HashInterner::<String>::new();

    let interned1 = interner.intern_sized("foo".to_string());
    {
        let interned2 = interner.intern_sized("foo".to_string());
        let interned3 = interner.intern_sized("bar".to_string());

        assert_eq!(interned2.ref_count(), 3);
        assert_eq!(interned3.ref_count(), 2);
        // We now have two unique interned strings: "foo" and "bar".
        assert_eq!(interner.len(), 2);
    }

    // "bar" is now gone.
    assert_eq!(interner.len(), 1);

    drop(interner);
    assert_eq!(interned1.ref_count(), 1);
}

// Test basic functionality.
#[test]
fn basic_hash_unsized() {
    let interner = HashInterner::<str>::new();

    assert!(interner.intern_ref("foo") == interner.intern_ref("foo"));
    assert!(interner.intern_ref("foo") != interner.intern_ref("bar"));
    // The above refs should be deallocated by now.
    assert_eq!(interner.len(), 0);

    let interned1 = interner.intern_ref("foo");
    {
        let interned2 = interner.intern_ref("foo");
        let interned3 = interner.intern_ref("bar");

        assert_eq!(interned2.ref_count(), 3);
        assert_eq!(interned3.ref_count(), 2);
        // We now have two unique interned strings: "foo" and "bar".
        assert_eq!(interner.len(), 2);
    }

    // "bar" is now gone.
    assert_eq!(interner.len(), 1);

    assert!(std::ptr::eq(&*interned1, &*interner.intern_ref("foo")));

    drop(interner);

    assert!(!std::ptr::eq(&*interned1, &*HashInterner::new().intern_ref("foo")));

    assert_eq!(interned1.ref_count(), 1);
}

// Test basic functionality.
#[test]
fn basic_ord() {
    let interner = OrdInterner::<&str>::new();

    assert!(interner.intern_sized("foo") == interner.intern_sized("foo"));
    assert!(interner.intern_sized("foo") != interner.intern_sized("bar"));
    // The above refs should be deallocated by now.
    assert_eq!(interner.len(), 0);

    let interner = OrdInterner::<String>::new();

    let interned1 = interner.intern_sized("foo".to_string());
    {
        let interned2 = interner.intern_sized("foo".to_string());
        let interned3 = interner.intern_sized("bar".to_string());

        assert_eq!(interned2.ref_count(), 3);
        assert_eq!(interned3.ref_count(), 2);
        // We now have two unique interned strings: "foo" and "bar".
        assert_eq!(interner.len(), 2);
    }

    // "bar" is now gone.
    assert_eq!(interner.len(), 1);

    drop(interner);
    assert_eq!(interned1.ref_count(), 1);
}

// Test basic functionality.
#[test]
fn basic_ord_unsized() {
    let interner = OrdInterner::<str>::new();

    assert!(interner.intern_ref("foo") == interner.intern_ref("foo"));
    assert!(interner.intern_ref("foo") != interner.intern_ref("bar"));
    // The above refs should be deallocated by now.
    assert_eq!(interner.len(), 0);

    let interned1 = interner.intern_ref("foo");
    {
        let interned2 = interner.intern_ref("foo");
        let interned3 = interner.intern_ref("bar");

        assert_eq!(interned2.ref_count(), 3);
        assert_eq!(interned3.ref_count(), 2);
        // We now have two unique interned strings: "foo" and "bar".
        assert_eq!(interner.len(), 2);
    }

    // "bar" is now gone.
    assert_eq!(interner.len(), 1);

    assert!(std::ptr::eq(&*interned1, &*interner.intern_ref("foo")));

    drop(interner);

    assert!(!std::ptr::eq(&*interned1, &*OrdInterner::new().intern_ref("foo")));

    assert_eq!(interned1.ref_count(), 1);
}

// Ordering should be based on values, not pointers.
#[test]
fn sorting() {
    let interner = HashInterner::new();
    let mut interned_vals = vec![
        interner.intern_sized(4),
        interner.intern_sized(2),
        interner.intern_sized(5),
        interner.intern_sized(0),
        interner.intern_sized(1),
        interner.intern_sized(3),
    ];
    interned_vals.sort_by(|a, b| a.cmp(b));
    let sorted: Vec<String> = interned_vals.iter().map(|v| format!("{}", **v)).collect();
    assert_eq!(&sorted.join(","), "0,1,2,3,4,5");
}

#[derive(Eq, PartialEq, Ord, PartialOrd, Hash)]
pub struct TestStruct(String, u64);

#[test]
fn sequential_hash() {
    let interner = HashInterner::new();

    for _i in 0..10 {
        let mut interned = Vec::with_capacity(100);
        for j in 0..10 {
            interned.push(interner.intern_sized(TestStruct("foo".to_string(), j)));
        }
    }

    assert_eq!(interner.len(), 0);
}

#[test]
fn sequential_ord() {
    let interner = OrdInterner::new();

    for _i in 0..10 {
        let mut interned = Vec::with_capacity(100);
        for j in 0..10 {
            interned.push(interner.intern_sized(TestStruct("foo".to_string(), j)));
        }
    }

    assert_eq!(interner.len(), 0);
}

#[test]
fn hash_pointer() {
    let interner = OrdInterner::new();
    let i = interner.intern_sized(42);
    let i2 = i.clone();
    assert_eq!(format!("{:p}", &*i), format!("{:p}", &*i2));
}

#[test]
fn ref_count_pointer() {
    let interner = OrdInterner::new();
    let i = interner.intern_sized(42);
    let i2 = i.clone();
    assert_eq!(format!("{:p}", &*i), format!("{:p}", &*i2));
}

#[test]
fn tree_size() {
    let s = std::mem::size_of::<intern_arc::tree::Ord<()>>();
    assert!(s < 100, "too big: {}", s);
}
