//! Type-indexed interner pools.
//!
//! A pool has at most one interner for each type. Its slots have one common
//! type, that of a box which can hold any interner.
use crate::hash::HashInterner;
use crate::sync::{Change, Look, RwLock};
use crate::tree::OrdInterner;
use std::any::{Any, TypeId};
use std::hash::Hash;
use std::marker::PhantomData;
use vstd::prelude::*;

verus! {

/// The identity of a type.
#[verifier::external_type_specification]
#[verifier::external_body]
pub struct ExTypeId(TypeId);

/// `TypeId::of`, of which nothing is said here: [`identity`] refers to its
/// result.
pub assume_specification<T: ?Sized + 'static>[ TypeId::of::<T> ]() -> (r: TypeId);

/// The identity of a type: what `TypeId::of` gives for it.
pub open spec fn identity<T: ?Sized + 'static>() -> TypeId {
    choose|key: TypeId| call_ensures(TypeId::of::<T>, (), key)
}

/// Calls `TypeId::of`: the identity of a type, which is always the same for one
/// type within a program. That two types have two identities is not said, for
/// a contract speaks of one type only.
#[verifier::external_body]
fn type_id<T: ?Sized + 'static>() -> (r: TypeId)
    ensures
        r == identity::<T>(),
{
    TypeId::of::<T>()
}

/// Calls `PartialEq::eq` of `TypeId`: whether two identities are the same.
#[verifier::external_body]
fn same_type(a: &TypeId, b: &TypeId) -> (r: bool)
    ensures
        r == (*a == *b),
{
    a == b
}

/// A box of std with a value of any type. Verus does not know such boxes, so
/// the box is hidden here; only [`boxed`] makes one.
#[verifier::external_body]
pub struct AnyBox(Box<dyn Any + Send + Sync>);

/// Calls `Box::new`: a box with the given value, whose type the box then no
/// longer shows. What is in the box is not said here; [`made_of`] refers to it.
#[verifier::external_body]
fn boxed<I: Send + Sync + 'static>(value: I) -> (r: AnyBox) {
    let any: Box<dyn Any + Send + Sync> = Box::new(value);
    AnyBox(any)
}

/// Whether a box was made of a value.
pub closed spec fn made_of<I: Send + Sync + 'static>(any: AnyBox, value: I) -> bool {
    call_ensures(boxed::<I>, (value,), any)
}

/// Calls `<dyn Any>::downcast_ref`: the value that a box was made of, where it is
/// of the given type.
#[verifier::external_body]
fn unboxed<I: Send + Sync + 'static>(any: &AnyBox) -> (r: Option<&I>)
    ensures
        forall|value: I| #[trigger] made_of(*any, value) ==> r == Some(&value),
        r matches Some(value) ==> made_of(*any, *value),
{
    any.0.downcast_ref::<I>()
}

/// Whether a list of slots is that of a map.
spec fn filed<V>(slots: Seq<(TypeId, V)>, map: Map<TypeId, V>) -> bool {
    &&& forall|i: int|
        0 <= i < slots.len() ==> map.contains_key((#[trigger] slots[i]).0) && map[slots[i].0]
            == slots[i].1
    &&& forall|i: int, j: int|
        0 <= i < j < slots.len() ==> (#[trigger] slots[i]).0 != (#[trigger] slots[j]).0
    &&& forall|key: TypeId| #[trigger]
        map.contains_key(key) ==> exists|i: int|
            0 <= i < slots.len() && (#[trigger] slots[i]).0 == key
}

/// A list that gets a slot for a type without one is that of the map that gets
/// the same.
proof fn lemma_filed<V>(slots: Seq<(TypeId, V)>, map: Map<TypeId, V>, key: TypeId, slot: V)
    requires
        filed(slots, map),
        !map.contains_key(key),
    ensures
        filed(slots.push((key, slot)), map.insert(key, slot)),
{
    let more = slots.push((key, slot));
    let wider = map.insert(key, slot);
    assert forall|i: int| 0 <= i < more.len() implies wider.contains_key(
        (#[trigger] more[i]).0,
    ) && wider[more[i].0] == more[i].1 by {
        if i < slots.len() {
            assert(more[i] == slots[i]);
        }
    }
    assert forall|i: int, j: int| 0 <= i < j < more.len() implies (#[trigger] more[i]).0 != (
    #[trigger] more[j]).0 by {
        assert(more[i] == slots[i]);
        if j < slots.len() {
            assert(more[j] == slots[j]);
        }
    }
    assert forall|k: TypeId| #[trigger] wider.contains_key(k) implies exists|i: int|
        0 <= i < more.len() && (#[trigger] more[i]).0 == k by {
        if k == key {
            assert(more[slots.len() as int].0 == k);
        } else {
            let i = choose|i: int| 0 <= i < slots.len() && (#[trigger] slots[i]).0 == k;
            assert(more[i].0 == k);
        }
    }
}

/// A list that gets another slot for a type that has one is that of the map that
/// gets the same.
proof fn lemma_refiled<V>(slots: Seq<(TypeId, V)>, map: Map<TypeId, V>, at: int, slot: V)
    requires
        filed(slots, map),
        0 <= at < slots.len(),
    ensures
        filed(slots.update(at, (slots[at].0, slot)), map.insert(slots[at].0, slot)),
{
    let key = slots[at].0;
    let other = slots.update(at, (key, slot));
    let changed = map.insert(key, slot);
    assert forall|i: int| 0 <= i < other.len() implies changed.contains_key(
        (#[trigger] other[i]).0,
    ) && changed[other[i].0] == other[i].1 by {
        assert(slots[i].0 == other[i].0);
        if i != at {
            assert(other[i] == slots[i]);
            assert(slots[i].0 != slots[at].0);
        }
    }
    assert forall|i: int, j: int| 0 <= i < j < other.len() implies (#[trigger] other[i]).0 != (
    #[trigger] other[j]).0 by {
        assert(slots[i].0 == other[i].0 && slots[j].0 == other[j].0);
    }
    assert forall|k: TypeId| #[trigger] changed.contains_key(k) implies exists|i: int|
        0 <= i < other.len() && (#[trigger] other[i]).0 == k by {
        if k == key {
            assert(other[at].0 == k);
        } else {
            let i = choose|i: int| 0 <= i < slots.len() && (#[trigger] slots[i]).0 == k;
            assert(other[i].0 == k);
        }
    }
}

/// A map from types to slots.
pub struct TypeMap<V> {
    slots: Vec<(TypeId, V)>,
    contents: Ghost<Map<TypeId, V>>,
}

impl<V> View for TypeMap<V> {
    type V = Map<TypeId, V>;

    closed spec fn view(&self) -> Map<TypeId, V> {
        self.contents@
    }
}

impl<V> TypeMap<V> {
    #[verifier::type_invariant]
    spec fn sound(self) -> bool {
        filed(self.slots@, self.contents@)
    }

    /// A map without slots.
    pub fn new() -> (r: Self)
        ensures
            r@ == Map::<TypeId, V>::empty(),
    {
        TypeMap { slots: Vec::new(), contents: Ghost(Map::empty()) }
    }

    /// Where the slot of a type is, if there is one.
    fn position(&self, key: &TypeId) -> (r: Option<usize>)
        ensures
            match r {
                Some(at) => at < self.slots@.len() && self.slots@[at as int].0 == *key
                    && self@.contains_key(*key) && self.slots@[at as int].1 == self@[*key],
                None => !self@.contains_key(*key),
            },
    {
        proof {
            use_type_invariant(self);
        }
        let mut i: usize = 0;
        while i < self.slots.len()
            invariant
                i <= self.slots@.len(),
                self.sound(),
                forall|j: int| 0 <= j < i ==> (#[trigger] self.slots@[j]).0 != *key,
            decreases self.slots@.len() - i,
        {
            if same_type(&self.slots[i].0, key) {
                return Some(i);
            }
            i = i + 1;
        }
        None
    }

    /// The slot of a type, if there is one.
    pub fn get(&self, key: &TypeId) -> (r: Option<&V>)
        ensures
            match r {
                Some(slot) => self@.contains_key(*key) && *slot == self@[*key],
                None => !self@.contains_key(*key),
            },
    {
        match self.position(key) {
            Some(at) => Some(&self.slots[at].1),
            None => None,
        }
    }

    /// Gives a slot to a type, in the place of the one that it has.
    pub fn insert(&mut self, key: TypeId, slot: V)
        ensures
            final(self)@ == old(self)@.insert(key, slot),
    {
        proof {
            use_type_invariant(&*self);
        }
        let place = self.position(&key);
        let mut whole: TypeMap<V> = TypeMap::new();
        core::mem::swap(&mut whole, self);
        let TypeMap { mut slots, contents } = whole;
        match place {
            Some(at) => {
                proof {
                    lemma_refiled(slots@, contents@, at as int, slot);
                }
                slots[at] = (key, slot);
            },
            None => {
                proof {
                    lemma_filed(slots@, contents@, key, slot);
                }
                slots.push((key, slot));
            },
        }
        *self = TypeMap { slots, contents: Ghost(contents@.insert(key, slot)) };
    }
}

/// Whether a reader of a shared pool may find the given one.
pub closed spec fn shows<P>(interners: &RwLock<P>, pool: &P) -> bool {
    interners.shows(pool)
}

/// Whether a writer of a shared pool may find it at the given place, and so leave
/// there what becomes of it.
pub closed spec fn opens<P>(interners: &RwLock<P>, slot: &mut P) -> bool {
    interners.opens(slot)
}

/// The question which interner a pool has for a type.
struct Seeking<T: ?Sized> {
    of: PhantomData<T>,
}

/// The demand for the interner of a type, which finds or makes it.
struct Obtaining<T: ?Sized> {
    of: PhantomData<T>,
}

/// Whether a pool has an interner for the type with the given identity.
pub open spec fn hash_has<T: Eq + Hash + Send + Sync + ?Sized + 'static>(
    pool: Map<TypeId, AnyBox>,
    key: TypeId,
) -> bool {
    pool.contains_key(key) && exists|kept: HashInterner<T>| #[trigger] made_of(pool[key], kept)
}

/// Whether an interner is the one that a pool has in the slot of a type.
pub open spec fn hash_clone<T: Eq + Hash + Send + Sync + ?Sized + 'static>(
    pool: Map<TypeId, AnyBox>,
    key: TypeId,
    r: HashInterner<T>,
) -> bool {
    forall|kept: HashInterner<T>| #[trigger] made_of(pool[key], kept) ==> r.shares(&kept)
}

/// What obtaining an interner for a type from a pool comes to: a clone of the one
/// in the slot of the type, or a new one, of which the slot then has a clone.
pub open spec fn hash_obtained<T: Eq + Hash + Send + Sync + ?Sized + 'static>(
    before: Map<TypeId, AnyBox>,
    after: Map<TypeId, AnyBox>,
    key: TypeId,
    r: HashInterner<T>,
) -> bool {
    if hash_has::<T>(before, key) {
        &&& hash_clone(before, key, r)
        &&& after == before
    } else {
        &&& r.fresh()
        &&& after.contains_key(key)
        &&& after == before.insert(key, after[key])
        &&& exists|kept: HashInterner<T>| kept.shares(&r) && #[trigger] made_of(after[key], kept)
    }
}

/// After an interner for a type was obtained from a pool, the pool has one for
/// it, and for other types exactly those that it had before.
pub proof fn law_hash_interner_stays<T, U>(
    before: Map<TypeId, AnyBox>,
    after: Map<TypeId, AnyBox>,
    key: TypeId,
    other: TypeId,
    r: HashInterner<T>,
) where
    T: Eq + Hash + Send + Sync + ?Sized + 'static,
    U: Eq + Hash + Send + Sync + ?Sized + 'static,

    requires
        hash_obtained(before, after, key, r),
        other != key,
    ensures
        hash_has::<T>(after, key),
        hash_has::<U>(after, other) == hash_has::<U>(before, other),
        before.contains_key(other) ==> after.contains_key(other) && after[other] == before[other],
{
    assert(after.contains_key(other) == before.contains_key(other));
    assert(before.contains_key(other) ==> after[other] == before[other]);
    if hash_has::<U>(before, other) {
        let kept = choose|kept: HashInterner<U>| #[trigger] made_of(before[other], kept);
        assert(made_of(after[other], kept));
    }
    if hash_has::<U>(after, other) {
        let kept = choose|kept: HashInterner<U>| #[trigger] made_of(after[other], kept);
        assert(made_of(before[other], kept));
    }
}

/// You will get the same instance: whoever obtains the interner of a type later
/// from a pool gets a clone of the one that was obtained first, whatever happened
/// to the slots of other types in between.
pub proof fn law_same_hash_interner<T: Eq + Hash + Send + Sync + ?Sized + 'static>(
    before: Map<TypeId, AnyBox>,
    after: Map<TypeId, AnyBox>,
    between: Map<TypeId, AnyBox>,
    later: Map<TypeId, AnyBox>,
    key: TypeId,
    first: HashInterner<T>,
    second: HashInterner<T>,
)
    requires
        hash_obtained(before, after, key, first),
        between.contains_key(key) && between[key] == after[key],
        hash_obtained(between, later, key, second),
    ensures
        first.shares(&second),
        first.home() == second.home(),
        later == between,
{
    if hash_has::<T>(before, key) {
        let kept = choose|kept: HashInterner<T>| #[trigger] made_of(before[key], kept);
        assert(made_of(between[key], kept));
    } else {
        let kept = choose|kept: HashInterner<T>|
            kept.shares(&first) && #[trigger] made_of(after[key], kept);
        assert(made_of(between[key], kept));
    }
}

/// Obtaining an interner from a pool takes nothing away from it: every type that
/// had a slot has one, at most the type in question has got one, and its slot has
/// the very interner that was handed out.
pub proof fn law_hash_interner_kept<T: Eq + Hash + Send + Sync + ?Sized + 'static>(
    before: Map<TypeId, AnyBox>,
    after: Map<TypeId, AnyBox>,
    key: TypeId,
    r: HashInterner<T>,
)
    requires
        hash_obtained(before, after, key, r),
    ensures
        after.dom() == before.dom().insert(key),
        forall|other: TypeId| #[trigger]
            before.contains_key(other) && other != key ==> after[other] == before[other],
        exists|kept: HashInterner<T>| #[trigger] made_of(after[key], kept) && r.shares(&kept),
        hash_has::<T>(before, key) ==> after == before,
{
    assert(after.dom() =~= before.dom().insert(key));
    if hash_has::<T>(before, key) {
        let kept = choose|kept: HashInterner<T>| #[trigger] made_of(before[key], kept);
        assert(made_of(after[key], kept) && r.shares(&kept));
    } else {
        let kept = choose|kept: HashInterner<T>|
            kept.shares(&r) && #[trigger] made_of(after[key], kept);
        assert(made_of(after[key], kept) && r.shares(&kept));
    }
}

/// Whoever obtains interners from a pool, one after the other, for this type or
/// that one, gets the same instance whenever the type is the same.
pub proof fn law_hash_interner_for_all<T: Eq + Hash + Send + Sync + ?Sized + 'static>(
    pools: Seq<Map<TypeId, AnyBox>>,
    keys: Seq<TypeId>,
    interners: Seq<HashInterner<T>>,
    first: int,
    last: int,
)
    requires
        pools.len() == keys.len() + 1,
        interners.len() == keys.len(),
        forall|i: int|
            0 <= i < keys.len() ==> hash_obtained(
                pools[i],
                pools[i + 1],
                keys[i],
                #[trigger] interners[i],
            ),
        0 <= first < last < keys.len(),
        keys[first] == keys[last],
    ensures
        interners[first].shares(&interners[last]),
{
    let key = keys[first];
    assert(hash_obtained(pools[first], pools[first + 1], key, interners[first]));
    lemma_hash_slot_stays(pools, keys, interners, first + 1, last);
    law_hash_interner_kept(pools[first], pools[first + 1], key, interners[first]);
    assert(hash_obtained(pools[last], pools[last + 1], key, interners[last]));
    law_same_hash_interner(
        pools[first],
        pools[first + 1],
        pools[last],
        pools[last + 1],
        key,
        interners[first],
        interners[last],
    );
}

/// A slot that has an interner of the type stays as it is.
proof fn lemma_hash_slot_stays<T: Eq + Hash + Send + Sync + ?Sized + 'static>(
    pools: Seq<Map<TypeId, AnyBox>>,
    keys: Seq<TypeId>,
    interners: Seq<HashInterner<T>>,
    from: int,
    to: int,
)
    requires
        pools.len() == keys.len() + 1,
        interners.len() == keys.len(),
        forall|i: int|
            0 <= i < keys.len() ==> hash_obtained(
                pools[i],
                pools[i + 1],
                keys[i],
                #[trigger] interners[i],
            ),
        1 <= from <= to < keys.len(),
    ensures
        pools[to].contains_key(keys[from - 1]),
        pools[to][keys[from - 1]] == pools[from][keys[from - 1]],
    decreases to - from,
{
    let key = keys[from - 1];
    assert(hash_obtained(pools[from - 1], pools[from], key, interners[from - 1]));
    law_hash_interner_kept(pools[from - 1], pools[from], key, interners[from - 1]);
    let kept = choose|kept: HashInterner<T>| #[trigger]
        made_of(pools[from][key], kept) && interners[from - 1].shares(&kept);
    if from < to {
        lemma_hash_slot_stays(pools, keys, interners, from, to - 1);
        let before = pools[to - 1];
        assert(made_of(before[key], kept));
        assert(hash_has::<T>(before, key));
        assert(hash_obtained(before, pools[to], keys[to - 1], interners[to - 1]));
        law_hash_interner_kept(before, pools[to], keys[to - 1], interners[to - 1]);
    } else {
        assert(pools[from].dom().contains(key));
    }
}

/// A lazy map from type to hash-based interner
///
/// This is the backing implementation for [`hash_interner()`], you can use it if
/// you want the ability to drop the whole pool (note, though, that this will not
/// drop the interned values: they are kept alive by the references you keep to
/// them and are automatically freed when they are no longer referenced).
pub struct HashInternerPool {
    type_map: TypeMap<AnyBox>,
}

impl View for HashInternerPool {
    type V = Map<TypeId, AnyBox>;

    closed spec fn view(&self) -> Map<TypeId, AnyBox> {
        self.type_map@
    }
}

impl Default for HashInternerPool {
    fn default() -> (r: Self)
        ensures
            r@ == Map::<TypeId, AnyBox>::empty(),
    {
        Self::new()
    }
}

impl HashInternerPool {
    /// A pool without interners.
    pub fn new() -> (r: Self)
        ensures
            r@ == Map::<TypeId, AnyBox>::empty(),
    {
        HashInternerPool { type_map: TypeMap::new() }
    }

    /// Obtain an interner for the type with the given identity if it has been
    /// created already.
    pub fn get_at<T: Eq + Hash + Send + Sync + ?Sized + 'static>(
        &self,
        key: &TypeId,
    ) -> (r: Option<HashInterner<T>>)
        ensures
            match r {
                Some(interner) => hash_has::<T>(self@, *key) && hash_clone(self@, *key, interner),
                None => !hash_has::<T>(self@, *key),
            },
    {
        match self.type_map.get(key) {
            Some(any) => match unboxed::<HashInterner<T>>(any) {
                Some(kept) => Some(kept.clone()),
                None => None,
            },
            None => None,
        }
    }

    /// Obtain an interner for the type with the given identity, create it if
    /// necessary.
    pub fn get_or_create_at<T: Eq + Hash + Send + Sync + ?Sized + 'static>(
        &mut self,
        key: TypeId,
    ) -> (r: HashInterner<T>)
        ensures
            hash_obtained(old(self)@, final(self)@, key, r),
    {
        if let Some(interner) = self.get_at(&key) {
            return interner;
        }
        let interner: HashInterner<T> = HashInterner::new();
        let kept = interner.clone();
        let ghost given = kept;
        let any = boxed(kept);
        assert(made_of(any, given));
        self.type_map.insert(key, any);
        interner
    }

    /// Obtain an interner for the given type if it has been created already.
    pub fn get<T: Eq + Hash + Send + Sync + ?Sized + 'static>(&self) -> (r: Option<HashInterner<T>>)
        ensures
            match r {
                Some(interner) => hash_has::<T>(self@, identity::<T>()) && hash_clone(
                    self@,
                    identity::<T>(),
                    interner,
                ),
                None => !hash_has::<T>(self@, identity::<T>()),
            },
    {
        self.get_at(&type_id::<T>())
    }

    /// Obtain an interner for the given type, create it if necessary.
    pub fn get_or_create<T: Eq + Hash + Send + Sync + ?Sized + 'static>(&mut self) -> (r: HashInterner<T>)
        ensures
            hash_obtained(old(self)@, final(self)@, identity::<T>(), r),
    {
        self.get_or_create_at(type_id::<T>())
    }
}

impl<T: Eq + Hash + Send + Sync + ?Sized + 'static> Look<HashInternerPool> for Seeking<T> {
    type Out = Option<HashInterner<T>>;

    fn look(self, pool: &HashInternerPool) -> (r: Option<HashInterner<T>>)
        ensures
            match r {
                Some(interner) => hash_has::<T>(pool@, identity::<T>()) && hash_clone(
                    pool@,
                    identity::<T>(),
                    interner,
                ),
                None => !hash_has::<T>(pool@, identity::<T>()),
            },
    {
        pool.get::<T>()
    }
}

impl<T: Eq + Hash + Send + Sync + ?Sized + 'static> Change<HashInternerPool> for Obtaining<T> {
    type Out = HashInterner<T>;

    fn change(self, slot: &mut HashInternerPool) -> (r: HashInterner<T>)
        ensures
            hash_obtained(old(slot)@, final(slot)@, identity::<T>(), r),
    {
        slot.get_or_create::<T>()
    }
}

/// Obtain an interner for the given type from a shared pool, create it if
/// necessary.
///
/// The interner will be stored in the pool and you will get the same instance
/// when using this method for the same type later again.
pub fn hash_interner<T: Eq + Hash + Send + Sync + ?Sized + 'static>(
    interners: &RwLock<HashInternerPool>,
) -> (r: HashInterner<T>)
    ensures
        (exists|pool: &HashInternerPool| #[trigger]
            shows(interners, pool) && hash_obtained(pool@, pool@, identity::<T>(), r)) || (exists|
            slot: &mut HashInternerPool,
        | #[trigger]
            opens(interners, slot) && hash_obtained(
                (*slot)@,
                (*final(slot))@,
                identity::<T>(),
                r,
            )),
{
    let found: Option<HashInterner<T>> = interners.look(Seeking::<T> { of: PhantomData });
    proof {
        let pool = choose|pool: &HashInternerPool| #[trigger]
            interners.shows(pool) && call_ensures(
                <Seeking<T> as Look<HashInternerPool>>::look,
                (Seeking::<T> { of: PhantomData }, pool),
                found,
            );
        assert(shows(interners, pool));
    }
    if let Some(interner) = found {
        return interner;
    }
    let made: HashInterner<T> = interners.change(Obtaining::<T> { of: PhantomData });
    proof {
        let (slot, access) = choose|slot: &mut HashInternerPool, access: &mut HashInternerPool|
            {
                &&& #[trigger] interners.opens(slot)
                &&& *access == *slot && *final(access) == *final(slot)
                &&& #[trigger] call_ensures(
                    <Obtaining<T> as Change<HashInternerPool>>::change,
                    (Obtaining::<T> { of: PhantomData }, access),
                    made,
                )
            };
        assert(opens(interners, slot));
    }
    made
}

/// Whether a pool has an interner for the type with the given identity.
pub open spec fn ord_has<T: Ord + Send + Sync + ?Sized + 'static>(
    pool: Map<TypeId, AnyBox>,
    key: TypeId,
) -> bool {
    pool.contains_key(key) && exists|kept: OrdInterner<T>| #[trigger] made_of(pool[key], kept)
}

/// Whether an interner is the one that a pool has in the slot of a type.
pub open spec fn ord_clone<T: Ord + Send + Sync + ?Sized + 'static>(
    pool: Map<TypeId, AnyBox>,
    key: TypeId,
    r: OrdInterner<T>,
) -> bool {
    forall|kept: OrdInterner<T>| #[trigger] made_of(pool[key], kept) ==> r.shares(&kept)
}

/// What obtaining an interner for a type from a pool comes to: a clone of the one
/// in the slot of the type, or a new one, of which the slot then has a clone.
pub open spec fn ord_obtained<T: Ord + Send + Sync + ?Sized + 'static>(
    before: Map<TypeId, AnyBox>,
    after: Map<TypeId, AnyBox>,
    key: TypeId,
    r: OrdInterner<T>,
) -> bool {
    if ord_has::<T>(before, key) {
        &&& ord_clone(before, key, r)
        &&& after == before
    } else {
        &&& r.fresh()
        &&& after.contains_key(key)
        &&& after == before.insert(key, after[key])
        &&& exists|kept: OrdInterner<T>| kept.shares(&r) && #[trigger] made_of(after[key], kept)
    }
}

/// After an interner for a type was obtained from a pool, the pool has one for
/// it, and for other types exactly those that it had before.
pub proof fn law_ord_interner_stays<T, U>(
    before: Map<TypeId, AnyBox>,
    after: Map<TypeId, AnyBox>,
    key: TypeId,
    other: TypeId,
    r: OrdInterner<T>,
) where
    T: Ord + Send + Sync + ?Sized + 'static,
    U: Ord + Send + Sync + ?Sized + 'static,

    requires
        ord_obtained(before, after, key, r),
        other != key,
    ensures
        ord_has::<T>(after, key),
        ord_has::<U>(after, other) == ord_has::<U>(before, other),
        before.contains_key(other) ==> after.contains_key(other) && after[other] == before[other],
{
    assert(after.contains_key(other) == before.contains_key(other));
    assert(before.contains_key(other) ==> after[other] == before[other]);
    if ord_has::<U>(before, other) {
        let kept = choose|kept: OrdInterner<U>| #[trigger] made_of(before[other], kept);
        assert(made_of(after[other], kept));
    }
    if ord_has::<U>(after, other) {
        let kept = choose|kept: OrdInterner<U>| #[trigger] made_of(after[other], kept);
        assert(made_of(before[other], kept));
    }
}

/// You will get the same instance: whoever obtains the interner of a type later
/// from a pool gets a clone of the one that was obtained first, whatever happened
/// to the slots of other types in between.
pub proof fn law_same_ord_interner<T: Ord + Send + Sync + ?Sized + 'static>(
    before: Map<TypeId, AnyBox>,
    after: Map<TypeId, AnyBox>,
    between: Map<TypeId, AnyBox>,
    later: Map<TypeId, AnyBox>,
    key: TypeId,
    first: OrdInterner<T>,
    second: OrdInterner<T>,
)
    requires
        ord_obtained(before, after, key, first),
        between.contains_key(key) && between[key] == after[key],
        ord_obtained(between, later, key, second),
    ensures
        first.shares(&second),
        first.home() == second.home(),
        later == between,
{
    if ord_has::<T>(before, key) {
        let kept = choose|kept: OrdInterner<T>| #[trigger] made_of(before[key], kept);
        assert(made_of(between[key], kept));
    } else {
        let kept = choose|kept: OrdInterner<T>|
            kept.shares(&first) && #[trigger] made_of(after[key], kept);
        assert(made_of(between[key], kept));
    }
}

/// Obtaining an interner from a pool takes nothing away from it: every type that
/// had a slot has one, at most the type in question has got one, and its slot has
/// the very interner that was handed out.
pub proof fn law_ord_interner_kept<T: Ord + Send + Sync + ?Sized + 'static>(
    before: Map<TypeId, AnyBox>,
    after: Map<TypeId, AnyBox>,
    key: TypeId,
    r: OrdInterner<T>,
)
    requires
        ord_obtained(before, after, key, r),
    ensures
        after.dom() == before.dom().insert(key),
        forall|other: TypeId| #[trigger]
            before.contains_key(other) && other != key ==> after[other] == before[other],
        exists|kept: OrdInterner<T>| #[trigger] made_of(after[key], kept) && r.shares(&kept),
        ord_has::<T>(before, key) ==> after == before,
{
    assert(after.dom() =~= before.dom().insert(key));
    if ord_has::<T>(before, key) {
        let kept = choose|kept: OrdInterner<T>| #[trigger] made_of(before[key], kept);
        assert(made_of(after[key], kept) && r.shares(&kept));
    } else {
        let kept = choose|kept: OrdInterner<T>|
            kept.shares(&r) && #[trigger] made_of(after[key], kept);
        assert(made_of(after[key], kept) && r.shares(&kept));
    }
}

/// Whoever obtains interners from a pool, one after the other, for this type or
/// that one, gets the same instance whenever the type is the same.
pub proof fn law_ord_interner_for_all<T: Ord + Send + Sync + ?Sized + 'static>(
    pools: Seq<Map<TypeId, AnyBox>>,
    keys: Seq<TypeId>,
    interners: Seq<OrdInterner<T>>,
    first: int,
    last: int,
)
    requires
        pools.len() == keys.len() + 1,
        interners.len() == keys.len(),
        forall|i: int|
            0 <= i < keys.len() ==> ord_obtained(
                pools[i],
                pools[i + 1],
                keys[i],
                #[trigger] interners[i],
            ),
        0 <= first < last < keys.len(),
        keys[first] == keys[last],
    ensures
        interners[first].shares(&interners[last]),
{
    let key = keys[first];
    assert(ord_obtained(pools[first], pools[first + 1], key, interners[first]));
    lemma_ord_slot_stays(pools, keys, interners, first + 1, last);
    law_ord_interner_kept(pools[first], pools[first + 1], key, interners[first]);
    assert(ord_obtained(pools[last], pools[last + 1], key, interners[last]));
    law_same_ord_interner(
        pools[first],
        pools[first + 1],
        pools[last],
        pools[last + 1],
        key,
        interners[first],
        interners[last],
    );
}

/// A slot that has an interner of the type stays as it is.
proof fn lemma_ord_slot_stays<T: Ord + Send + Sync + ?Sized + 'static>(
    pools: Seq<Map<TypeId, AnyBox>>,
    keys: Seq<TypeId>,
    interners: Seq<OrdInterner<T>>,
    from: int,
    to: int,
)
    requires
        pools.len() == keys.len() + 1,
        interners.len() == keys.len(),
        forall|i: int|
            0 <= i < keys.len() ==> ord_obtained(
                pools[i],
                pools[i + 1],
                keys[i],
                #[trigger] interners[i],
            ),
        1 <= from <= to < keys.len(),
    ensures
        pools[to].contains_key(keys[from - 1]),
        pools[to][keys[from - 1]] == pools[from][keys[from - 1]],
    decreases to - from,
{
    let key = keys[from - 1];
    assert(ord_obtained(pools[from - 1], pools[from], key, interners[from - 1]));
    law_ord_interner_kept(pools[from - 1], pools[from], key, interners[from - 1]);
    let kept = choose|kept: OrdInterner<T>| #[trigger]
        made_of(pools[from][key], kept) && interners[from - 1].shares(&kept);
    if from < to {
        lemma_ord_slot_stays(pools, keys, interners, from, to - 1);
        let before = pools[to - 1];
        assert(made_of(before[key], kept));
        assert(ord_has::<T>(before, key));
        assert(ord_obtained(before, pools[to], keys[to - 1], interners[to - 1]));
        law_ord_interner_kept(before, pools[to], keys[to - 1], interners[to - 1]);
    } else {
        assert(pools[from].dom().contains(key));
    }
}

/// A lazy map from type to ord-based interner
///
/// This is the backing implementation for [`ord_interner()`], you can use it if
/// you want the ability to drop the whole pool (note, though, that this will not
/// drop the interned values: they are kept alive by the references you keep to
/// them and are automatically freed when they are no longer referenced).
pub struct OrdInternerPool {
    type_map: TypeMap<AnyBox>,
}

impl View for OrdInternerPool {
    type V = Map<TypeId, AnyBox>;

    closed spec fn view(&self) -> Map<TypeId, AnyBox> {
        self.type_map@
    }
}

impl Default for OrdInternerPool {
    fn default() -> (r: Self)
        ensures
            r@ == Map::<TypeId, AnyBox>::empty(),
    {
        Self::new()
    }
}

impl OrdInternerPool {
    /// A pool without interners.
    pub fn new() -> (r: Self)
        ensures
            r@ == Map::<TypeId, AnyBox>::empty(),
    {
        OrdInternerPool { type_map: TypeMap::new() }
    }

    /// Obtain an interner for the type with the given identity if it has been
    /// created already.
    pub fn get_at<T: Ord + Send + Sync + ?Sized + 'static>(
        &self,
        key: &TypeId,
    ) -> (r: Option<OrdInterner<T>>)
        ensures
            match r {
                Some(interner) => ord_has::<T>(self@, *key) && ord_clone(self@, *key, interner),
                None => !ord_has::<T>(self@, *key),
            },
    {
        match self.type_map.get(key) {
            Some(any) => match unboxed::<OrdInterner<T>>(any) {
                Some(kept) => Some(kept.clone()),
                None => None,
            },
            None => None,
        }
    }

    /// Obtain an interner for the type with the given identity, create it if
    /// necessary.
    pub fn get_or_create_at<T: Ord + Send + Sync + ?Sized + 'static>(
        &mut self,
        key: TypeId,
    ) -> (r: OrdInterner<T>)
        ensures
            ord_obtained(old(self)@, final(self)@, key, r),
    {
        if let Some(interner) = self.get_at(&key) {
            return interner;
        }
        let interner: OrdInterner<T> = OrdInterner::new();
        let kept = interner.clone();
        let ghost given = kept;
        let any = boxed(kept);
        assert(made_of(any, given));
        self.type_map.insert(key, any);
        interner
    }

    /// Obtain an interner for the given type if it has been created already.
    pub fn get<T: Ord + Send + Sync + ?Sized + 'static>(&self) -> (r: Option<OrdInterner<T>>)
        ensures
            match r {
                Some(interner) => ord_has::<T>(self@, identity::<T>()) && ord_clone(
                    self@,
                    identity::<T>(),
                    interner,
                ),
                None => !ord_has::<T>(self@, identity::<T>()),
            },
    {
        self.get_at(&type_id::<T>())
    }

    /// Obtain an interner for the given type, create it if necessary.
    pub fn get_or_create<T: Ord + Send + Sync + ?Sized + 'static>(&mut self) -> (r: OrdInterner<T>)
        ensures
            ord_obtained(old(self)@, final(self)@, identity::<T>(), r),
    {
        self.get_or_create_at(type_id::<T>())
    }
}

impl<T: Ord + Send + Sync + ?Sized + 'static> Look<OrdInternerPool> for Seeking<T> {
    type Out = Option<OrdInterner<T>>;

    fn look(self, pool: &OrdInternerPool) -> (r: Option<OrdInterner<T>>)
        ensures
            match r {
                Some(interner) => ord_has::<T>(pool@, identity::<T>()) && ord_clone(
                    pool@,
                    identity::<T>(),
                    interner,
                ),
                None => !ord_has::<T>(pool@, identity::<T>()),
            },
    {
        pool.get::<T>()
    }
}

impl<T: Ord + Send + Sync + ?Sized + 'static> Change<OrdInternerPool> for Obtaining<T> {
    type Out = OrdInterner<T>;

    fn change(self, slot: &mut OrdInternerPool) -> (r: OrdInterner<T>)
        ensures
            ord_obtained(old(slot)@, final(slot)@, identity::<T>(), r),
    {
        slot.get_or_create::<T>()
    }
}

/// Obtain an interner for the given type from a shared pool, create it if
/// necessary.
///
/// The interner will be stored in the pool and you will get the same instance
/// when using this method for the same type later again.
pub fn ord_interner<T: Ord + Send + Sync + ?Sized + 'static>(
    interners: &RwLock<OrdInternerPool>,
) -> (r: OrdInterner<T>)
    ensures
        (exists|pool: &OrdInternerPool| #[trigger]
            shows(interners, pool) && ord_obtained(pool@, pool@, identity::<T>(), r)) || (exists|
            slot: &mut OrdInternerPool,
        | #[trigger]
            opens(interners, slot) && ord_obtained(
                (*slot)@,
                (*final(slot))@,
                identity::<T>(),
                r,
            )),
{
    let found: Option<OrdInterner<T>> = interners.look(Seeking::<T> { of: PhantomData });
    proof {
        let pool = choose|pool: &OrdInternerPool| #[trigger]
            interners.shows(pool) && call_ensures(
                <Seeking<T> as Look<OrdInternerPool>>::look,
                (Seeking::<T> { of: PhantomData }, pool),
                found,
            );
        assert(shows(interners, pool));
    }
    if let Some(interner) = found {
        return interner;
    }
    let made: OrdInterner<T> = interners.change(Obtaining::<T> { of: PhantomData });
    proof {
        let (slot, access) = choose|slot: &mut OrdInternerPool, access: &mut OrdInternerPool|
            {
                &&& #[trigger] interners.opens(slot)
                &&& *access == *slot && *final(access) == *final(slot)
                &&& #[trigger] call_ensures(
                    <Obtaining<T> as Change<OrdInternerPool>>::change,
                    (Obtaining::<T> { of: PhantomData }, access),
                    made,
                )
            };
        assert(opens(interners, slot));
    }
    made
}

} // verus!
