//! Interning library based on reference counting
//!
//!  - interners must be created and can be dropped
//!  - each interner is for exactly one type
//!  - storage is offered for values that can be hashed and for values that can
//!    be ordered
//!  - unsized types are handled, so you should intern `str` instead of `String`
//!
//! The references to an interned value are counted under a lock of the value's
//! own; the values of an interner are kept in a table behind a reader-writer
//! lock. Whoever drops the last reference but that of the interner takes the
//! value out of the interner.
//!
//! ## API flavors
//!
//! The same API is provided in two flavors:
//!
//!  - [`HashInterner`] uses hash-based storage
//!  - [`OrdInterner`] uses ord-based storage
//!
//! ## What is proved
//!
//! The counts of a value's references ([`ref_count`]) and the tables
//! ([`hash_table`], [`ord_table`]) have exact contracts. What is behind a lock is
//! shared with other threads, so the contracts of the functions that take one
//! say which access they make to what is there: see [`sync`]. That equal values
//! are interned once is stated and proved with the interners, in [`hash`] and
//! [`tree`].
//!
//! What the accesses add up to when any number of threads make and drop
//! references to a value, while others ask for the same value and the interner
//! itself may go away, is stated and proved in [`lifecycle`] of a model whose
//! steps are these accesses. That each access has the effect of its step is
//! proved. A lock can be used for such accesses only, and a count can be changed
//! only by whoever has the right to a reference, which the change uses up; so
//! whatever else a function does, the counts are those of the references, and
//! the tables and pools are changed by whole steps. That the accesses to one
//! lock follow one another is not proved, nor that a function takes no step
//! besides those that its contract tells.
//!
//! ## Pools
//!
//! A pool has an interner for each of many types, see [`global`].
pub mod foreign;
pub mod global;
pub mod hash;
pub mod hash_table;
pub mod lifecycle;
pub mod ord_table;
pub mod ref_count;
pub mod relations;
pub mod sync;
pub mod tree;

pub use hash::{HashInterner, InternedHash};
pub use tree::{InternedOrd, OrdInterner};
