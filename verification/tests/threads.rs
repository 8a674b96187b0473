use intern_arc::{HashInterner, InternedHash, InternedOrd, OrdInterner};

fn sendable<T: Send + Sync>() {}

// Interners and interned values can be shared between threads.
#[test]
fn send_and_sync() {
    sendable::<HashInterner<str>>();
    sendable::<OrdInterner<str>>();
    sendable::<InternedHash<str>>();
    sendable::<InternedOrd<Vec<u8>>>();
}
