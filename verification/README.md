# Interning library based on reference counting

An interner hands out counted references to values and keeps no two equal ones:
whoever interns a value that is already there gets a reference to the one that is
there. A value leaves its interner, and is freed, once nobody refers to it any
more. The code is verified with Verus: the contracts say which access a function
makes to what is behind a lock, and what such accesses add up to is proved of a
model of a value's life, see `src/lifecycle.rs` for what that rests on.

- `src/ref_count.rs`: the count of a value's references, and who has to clean up
- `src/hash_table.rs`, `src/ord_table.rs`: the tables of an interner
- `src/hash.rs`, `src/tree.rs`: the interners and the references that they hand out
- `src/global.rs`: pools with one interner for each type
- `src/lifecycle.rs`: a model of a value's life, what holds at every point of it,
  and how the contracts are its steps
- `src/relations.rs`, `src/foreign.rs`: what is known of the types of the values
- `src/sync.rs`: the locks
- `app/`: pools for the whole program, and traits that have no specification

## License

At your option: Apache-2.0 or MIT
