//! Typed index-based storage.
//!
//! An [`Arena`] hands out [`Key`]s for the values stored in it; a key names the
//! position of its value and stays valid for as long as the arena lives. An
//! [`ArenaMap`] is a dense side table keyed by the keys of some arena.

use vstd::prelude::*;
use vstd::std_specs::cmp::PartialEqSpecImpl;

verus! {

/// An index into an [`Arena`] of `T`.
///
/// Keys of different arenas have different types, so they cannot be mixed up.
/// Two keys are equal when they name the same position.
#[derive(Debug)]
pub struct Key<T> {
    index: u32,
    _phantom: core::marker::PhantomData<T>,
}

/// `Hash::hash` of std for `u32`: feeds the number to the hasher. Nothing
/// is claimed of what the hasher makes of it.
pub assume_specification<H: core::hash::Hasher>[ <u32 as core::hash::Hash>::hash ](
    value: &u32,
    state: &mut H,
);

impl<T> core::hash::Hash for Key<T> {
    /// Hashes the position alone.
    fn hash<H: core::hash::Hasher>(&self, state: &mut H) {
        self.index.hash(state)
    }
}

impl<T> View for Key<T> {
    type V = nat;

    /// The position that the key names.
    closed spec fn view(&self) -> nat {
        self.index as nat
    }
}

impl<T> Key<T> {
    /// The key that names position `index`, for an `index` below 2^32.
    pub closed spec fn at(index: nat) -> Key<T> {
        Key { index: index as u32, _phantom: core::marker::PhantomData }
    }

    /// `at` names the position it is given, and every key is `at` its
    /// position.
    pub broadcast proof fn lemma_at(index: nat)
        requires
            index <= u32::MAX,
        ensures
            (#[trigger] Key::<T>::at(index))@ == index,
    {
    }

    /// Every key is `at` its position.
    pub proof fn lemma_is_at(self)
        ensures
            self == Key::<T>::at(self@),
    {
    }

    /// The key that names position `index`.
    pub fn from_index(index: u32) -> (key: Key<T>)
        ensures
            key@ == index,
            key == Key::<T>::at(index as nat),
    {
        Key { index, _phantom: core::marker::PhantomData }
    }

    /// The position that the key names.
    pub fn index(self) -> (i: usize)
        ensures
            i == self@,
    {
        self.index as usize
    }

    /// The position that the key names, as stored.
    pub fn raw(self) -> (i: u32)
        ensures
            i == self@,
    {
        self.index
    }

    /// Every key names a position below 2^32.
    pub broadcast proof fn lemma_bounded(self)
        ensures
            #[trigger] self@ <= u32::MAX,
    {
    }

    /// A key is determined by the position it names.
    pub proof fn lemma_eq(self, other: Key<T>)
        ensures
            self@ == other@ <==> self == other,
    {
    }
}

impl<T> Clone for Key<T> {
    fn clone(&self) -> (res: Self)
        ensures
            res == *self,
    {
        Key { index: self.index, _phantom: core::marker::PhantomData }
    }
}

impl<T> Copy for Key<T> {

}

impl<T> PartialEq for Key<T> {
    fn eq(&self, other: &Self) -> (r: bool) {
        self.index == other.index
    }
}

impl<T> Eq for Key<T> {

}

impl<T> PartialEqSpecImpl for Key<T> {
    open spec fn obeys_eq_spec() -> bool {
        true
    }

    open spec fn eq_spec(&self, other: &Self) -> bool {
        self@ == other@
    }
}

/// Append-only storage of values of one type.
///
/// Values are never removed: the arena is dropped as a whole.
pub struct Arena<T> {
    items: Vec<T>,
}

impl<T> View for Arena<T> {
    type V = Seq<T>;

    /// The stored values, in the order in which they were allocated.
    closed spec fn view(&self) -> Seq<T> {
        self.items@
    }
}

/// What a run of allocations leaves behind: the arena's contents after the
/// values `values` were allocated in turn, and the keys' positions in the
/// order in which they were handed out.
pub open spec fn allocate_all<T>(arena: Seq<T>, values: Seq<T>) -> (Seq<T>, Seq<nat>)
    decreases values.len(),
{
    if values.len() == 0 {
        (arena, Seq::empty())
    } else {
        let (before, keys) = allocate_all(arena, values.drop_last());
        (before.push(values.last()), keys.push(before.len()))
    }
}

/// Keys are stable and injective: the values allocated in one run get
/// pairwise different keys, each key finds its own value afterwards, and the
/// values that were in the arena before stay where they were.
pub proof fn lemma_keys_stable_and_injective<T>(arena: Seq<T>, values: Seq<T>)
    ensures
        ({
            let (after, keys) = allocate_all(arena, values);
            &&& after.len() == arena.len() + values.len()
            &&& keys.len() == values.len()
            &&& forall|i: int| 0 <= i < keys.len() ==> #[trigger] keys[i] == arena.len() + i
            &&& forall|i: int, j: int|
                0 <= i < keys.len() && 0 <= j < keys.len() && i != j ==> keys[i] != keys[j]
            &&& forall|i: int| 0 <= i < keys.len() ==> after[keys[i] as int] == #[trigger] values[i]
            &&& forall|k: int| 0 <= k < arena.len() ==> #[trigger] after[k] == arena[k]
        }),
    decreases values.len(),
{
    if values.len() > 0 {
        lemma_keys_stable_and_injective(arena, values.drop_last());
        let (before, earlier) = allocate_all(arena, values.drop_last());
        let (after, keys) = allocate_all(arena, values);
        assert(after == before.push(values.last()));
        assert(keys == earlier.push(before.len()));
        assert forall|i: int| 0 <= i < keys.len() implies #[trigger] keys[i] == arena.len() + i by {
            if i < earlier.len() {
                assert(keys[i] == earlier[i]);
            }
        }
        assert forall|i: int| 0 <= i < keys.len() implies after[keys[i] as int]
            == #[trigger] values[i] by {
            if i < earlier.len() {
                assert(keys[i] == earlier[i]);
                assert(values.drop_last()[i] == values[i]);
                assert(after[keys[i] as int] == before[earlier[i] as int]);
            }
        }
        assert forall|k: int| 0 <= k < arena.len() implies #[trigger] after[k] == arena[k] by {
            assert(after[k] == before[k]);
        }
    }
}

impl<T> Arena<T> {
    /// Every stored value has a key: at most 2^32 values are stored.
    pub open spec fn wf(&self) -> bool {
        self@.len() <= u32::MAX + 1
    }

    pub fn new() -> (arena: Arena<T>)
        ensures
            arena@ == Seq::<T>::empty(),
    {
        Arena { items: Vec::new() }
    }

    pub fn len(&self) -> (n: usize)
        ensures
            n == self@.len(),
    {
        self.items.len()
    }

    pub fn get(&self, key: Key<T>) -> (item: Option<&T>)
        ensures
            item == if key@ < self@.len() {
                Some(&self@[key@ as int])
            } else {
                None
            },
    {
        let i = key.index();
        if i < self.items.len() {
            Some(&self.items[i])
        } else {
            None
        }
    }

    pub fn get_mut(&mut self, key: Key<T>) -> (item: Option<&mut T>)
        ensures
            key@ >= old(self)@.len() ==> item is None && *final(self) == *old(self),
            key@ < old(self)@.len() ==> {
                &&& item matches Some(r)
                &&& *r == old(self)@[key@ as int]
                &&& final(self)@ == old(self)@.update(key@ as int, *final(r))
            },
    {
        let i = key.index();
        if i < self.items.len() {
            Some(&mut self.items[i])
        } else {
            None
        }
    }

    /// The value that `key` names.
    pub fn index(&self, key: Key<T>) -> (item: &T)
        requires
            key@ < self@.len(),
        ensures
            *item == self@[key@ as int],
    {
        &self.items[key.index()]
    }

    /// The value that `key` names, for writing.
    pub fn index_mut(&mut self, key: Key<T>) -> (item: &mut T)
        requires
            key@ < old(self)@.len(),
        ensures
            *item == old(self)@[key@ as int],
            final(self)@ == old(self)@.update(key@ as int, *final(item)),
    {
        &mut self.items[key.index()]
    }

    /// Stores `item` and returns its key.
    pub fn allocate(&mut self, item: T) -> (key: Key<T>)
        requires
            old(self)@.len() <= u32::MAX,
        ensures
            (final(self)@, seq![key@]) == allocate_all(old(self)@, seq![item]),
            key@ == old(self)@.len(),
            final(self)@ == old(self)@.push(item),
    {
        let key = self.next_key();
        self.items.push(item);
        proof {
            let one = seq![item];
            assert(one.drop_last() =~= Seq::<T>::empty());
            assert(allocate_all(old(self)@, one.drop_last()).1 =~= Seq::<nat>::empty());
            assert(seq![key@] =~= Seq::<nat>::empty().push(key@));
        }
        key
    }

    /// Stores what `f` makes of the key that the value is going to have.
    pub fn alloc_with_key<F>(&mut self, f: F) -> (key: Key<T>) where F: FnOnce(Key<T>) -> T
        requires
            old(self)@.len() <= u32::MAX,
            forall|k: Key<T>| k@ == old(self)@.len() ==> f.requires((k,)),
        ensures
            key@ == old(self)@.len(),
            final(self)@.len() == old(self)@.len() + 1,
            final(self)@.drop_last() == old(self)@,
            f.ensures((key,), final(self)@.last()),
    {
        let key = self.next_key();
        let value = f(key);
        let key = self.allocate(value);
        assert(self@.drop_last() =~= old(self)@);
        key
    }

    /// The key that the next allocation is going to return.
    pub fn next_key(&self) -> (key: Key<T>)
        requires
            self@.len() <= u32::MAX,
        ensures
            key@ == self@.len(),
    {
        Key::from_index(self.items.len() as u32)
    }

    /// Every key with its value, in the order of allocation.
    pub fn iter(&self) -> (pairs: Vec<(Key<T>, &T)>)
        requires
            self.wf(),
        ensures
            pairs@.len() == self@.len(),
            forall|i: int|
                0 <= i < pairs@.len() ==> (#[trigger] pairs@[i]).0@ == i && *pairs@[i].1 == self@[i],
    {
        let mut pairs: Vec<(Key<T>, &T)> = Vec::new();
        let mut i: usize = 0;
        while i < self.items.len()
            invariant
                i <= self.items@.len() <= u32::MAX + 1,
                pairs@.len() == i,
                forall|j: int|
                    0 <= j < i ==> (#[trigger] pairs@[j]).0@ == j && *pairs@[j].1
                        == self.items@[j],
            decreases self.items@.len() - i,
        {
            pairs.push((Key::from_index(i as u32), &self.items[i]));
            i += 1;
        }
        pairs
    }
}

/// Dense map from the keys of an arena to values of type `V`.
///
/// Meant for side tables in which nearly every key of the arena has an entry:
/// a lookup takes constant time, and the space taken grows with the largest
/// key that was ever inserted.
pub struct ArenaMap<K, V> {
    items: Vec<Option<V>>,
    _phantom: core::marker::PhantomData<K>,
}

impl<T, V> View for ArenaMap<Key<T>, V> {
    type V = Map<nat, V>;

    /// The entries, by the position that each key names.
    closed spec fn view(&self) -> Map<nat, V> {
        occupied(self.items@)
    }
}

/// The map that a dense table stands for: position `i` has an entry when slot
/// `i` exists and is filled.
pub open spec fn occupied<V>(slots: Seq<Option<V>>) -> Map<nat, V> {
    Map::new(
        |i: nat| i < slots.len() && slots[i as int] is Some,
        |i: nat| slots[i as int]->0,
    )
}

/// Filling a slot inserts into the map that the table stands for.
proof fn lemma_occupied_update<V>(slots: Seq<Option<V>>, i: int)
    requires
        0 <= i < slots.len(),
    ensures
        forall|value: V| #[trigger]
            occupied(slots.update(i, Some(value))) == occupied(slots).insert(i as nat, value),
{
    assert forall|value: V| #[trigger]
        occupied(slots.update(i, Some(value))) == occupied(slots).insert(i as nat, value) by {
        assert(occupied(slots.update(i, Some(value))) =~= occupied(slots).insert(i as nat, value));
    }
}

impl<T, V> ArenaMap<Key<T>, V> {
    /// No slot lies beyond what a key can name.
    pub closed spec fn wf(&self) -> bool {
        self.items@.len() <= u32::MAX
    }

    /// The keys of a well-formed map lie below 2^32 - 1.
    pub proof fn lemma_domain(&self)
        requires
            self.wf(),
        ensures
            forall|k: nat| self@.contains_key(k) ==> k < u32::MAX,
    {
    }

    pub fn new() -> (map: ArenaMap<Key<T>, V>)
        ensures
            map.wf(),
            map@ == Map::<nat, V>::empty(),
    {
        let map = ArenaMap { items: Vec::new(), _phantom: core::marker::PhantomData };
        assert(map@ =~= Map::<nat, V>::empty());
        map
    }

    pub fn with_capacity(cap: usize) -> (map: ArenaMap<Key<T>, V>)
        ensures
            map.wf(),
            map@ == Map::<nat, V>::empty(),
    {
        let map = ArenaMap { items: Vec::with_capacity(cap), _phantom: core::marker::PhantomData };
        assert(map@ =~= Map::<nat, V>::empty());
        map
    }

    /// Makes room for `key` without changing any entry.
    fn grow(&mut self, key: Key<T>)
        requires
            old(self).wf(),
            key@ < u32::MAX,
        ensures
            final(self).wf(),
            final(self)@ == old(self)@,
            final(self).items@.len() > key@,
    {
        let min_len = (key.index + 1) as usize;
        while self.items.len() < min_len
            invariant
                min_len <= u32::MAX,
                self.items@.len() <= u32::MAX,
                self.items@.len() >= old(self).items@.len(),
                forall|i: int|
                    0 <= i < old(self).items@.len() ==> self.items@[i] == old(self).items@[i],
                forall|i: int|
                    old(self).items@.len() <= i < self.items@.len() ==> self.items@[i] is None,
            decreases min_len - self.items@.len(),
        {
            self.items.push(None);
        }
        assert(self@ =~= old(self)@);
    }

    pub fn get(&self, key: Key<T>) -> (value: Option<&V>)
        ensures
            value == if self@.contains_key(key@) {
                Some(&self@[key@])
            } else {
                None
            },
    {
        let i = key.index();
        if i < self.items.len() {
            self.items[i].as_ref()
        } else {
            None
        }
    }

    pub fn get_mut(&mut self, key: Key<T>) -> (value: Option<&mut V>)
        ensures
            final(self).wf() == old(self).wf(),
            !old(self)@.contains_key(key@) ==> value is None && final(self)@ == old(self)@,
            old(self)@.contains_key(key@) ==> {
                &&& value matches Some(r)
                &&& *r == old(self)@[key@]
                &&& final(self)@ == old(self)@.insert(key@, *final(r))
            },
    {
        let i = key.index();
        if i < self.items.len() && self.items[i].is_some() {
            proof {
                lemma_occupied_update(self.items@, i as int);
            }
            let slot = &mut self.items[i];
            slot.as_mut()
        } else {
            None
        }
    }

    /// The value stored for `key`.
    pub fn index(&self, key: Key<T>) -> (value: &V)
        requires
            self@.contains_key(key@),
        ensures
            *value == self@[key@],
    {
        self.items[key.index()].as_ref().unwrap()
    }

    /// The value stored for `key`, for writing.
    pub fn index_mut(&mut self, key: Key<T>) -> (value: &mut V)
        requires
            old(self)@.contains_key(key@),
        ensures
            final(self).wf() == old(self).wf(),
            *value == old(self)@[key@],
            final(self)@ == old(self)@.insert(key@, *final(value)),
    {
        proof {
            lemma_occupied_update(self.items@, key@ as int);
        }
        let slot = &mut self.items[key.index()];
        slot.as_mut().unwrap()
    }

    /// Stores `value` for `key` and returns what was stored for it before.
    pub fn insert(&mut self, key: Key<T>, value: V) -> (previous: Option<V>)
        requires
            old(self).wf(),
            key@ < u32::MAX,
        ensures
            final(self).wf(),
            final(self)@ == old(self)@.insert(key@, value),
            previous == if old(self)@.contains_key(key@) {
                Some(old(self)@[key@])
            } else {
                None
            },
    {
        self.grow(key);
        let i = key.index();
        let mut previous = Some(value);
        core::mem::swap(&mut self.items[i], &mut previous);
        assert(self@ =~= old(self)@.insert(key@, value));
        previous
    }

    /// The entry of `key`, for insertion in place.
    pub fn entry(&mut self, key: Key<T>) -> (entry: Entry<'_, Key<T>, V>)
        requires
            old(self).wf(),
            key@ < u32::MAX,
        ensures
            entry.wf(),
            entry.key() == key,
            entry.map()@ == old(self)@,
            entry is Occupied <==> old(self)@.contains_key(key@),
            *final(self) == *final(entry.map_ref()),
    {
        self.grow(key);
        let occupied = self.items[key.index()].is_some();
        if occupied {
            Entry::Occupied(OccupiedEntry { map: self, key })
        } else {
            Entry::Vacant(VacantEntry { map: self, key })
        }
    }

    /// The entries, in the order of their keys.
    pub fn iter(&self) -> (pairs: Vec<(Key<T>, &V)>)
        requires
            self.wf(),
        ensures
            forall|i: int|
                0 <= i < pairs@.len() ==> self@.contains_key((#[trigger] pairs@[i]).0@)
                    && *pairs@[i].1 == self@[pairs@[i].0@],
            forall|i: int, j: int| 0 <= i < j < pairs@.len() ==> pairs@[i].0@ < pairs@[j].0@,
            forall|k: nat|
                self@.contains_key(k) ==> exists|i: int|
                    0 <= i < pairs@.len() && (#[trigger] pairs@[i]).0@ == k,
    {
        let mut pairs: Vec<(Key<T>, &V)> = Vec::new();
        let mut n: usize = 0;
        while n < self.items.len()
            invariant
                n <= self.items@.len() <= u32::MAX,
                forall|i: int|
                    0 <= i < pairs@.len() ==> {
                        &&& (#[trigger] pairs@[i]).0@ < n
                        &&& self.items@[pairs@[i].0@ as int] == Some(*pairs@[i].1)
                    },
                forall|i: int, j: int| 0 <= i < j < pairs@.len() ==> pairs@[i].0@ < pairs@[j].0@,
                forall|k: nat|
                    k < n && self.items@[k as int] is Some ==> exists|i: int|
                        0 <= i < pairs@.len() && (#[trigger] pairs@[i]).0@ == k,
            decreases self.items@.len() - n,
        {
            match &self.items[n] {
                Some(value) => {
                    let ghost before = pairs@;
                    pairs.push((Key::from_index(n as u32), value));
                    proof {
                        assert forall|k: nat|
                            k < n + 1 && self.items@[k as int] is Some implies exists|i: int|
                            0 <= i < pairs@.len() && (#[trigger] pairs@[i]).0@ == k by {
                            if k < n {
                                let i = choose|i: int|
                                    0 <= i < before.len() && (#[trigger] before[i]).0@ == k;
                                assert(pairs@[i].0@ == k);
                            } else {
                                assert(pairs@[before.len() as int].0@ == k);
                            }
                        }
                    }
                },
                None => {},
            }
            n += 1;
        }
        pairs
    }
}

/// One entry of an [`ArenaMap`], which holds a value or does not yet.
pub enum Entry<'a, K, V> {
    Occupied(OccupiedEntry<'a, K, V>),
    Vacant(VacantEntry<'a, K, V>),
}

/// An entry that holds a value.
pub struct OccupiedEntry<'a, K, V> {
    map: &'a mut ArenaMap<K, V>,
    key: K,
}

/// An entry that holds no value yet.
pub struct VacantEntry<'a, K, V> {
    map: &'a mut ArenaMap<K, V>,
    key: K,
}

impl<'a, T, V> Entry<'a, Key<T>, V> {
    /// The key whose entry this is.
    pub closed spec fn key(self) -> Key<T> {
        match self {
            Entry::Occupied(o) => o.key,
            Entry::Vacant(v) => v.key,
        }
    }

    /// The borrow of the map that the entry holds.
    pub closed spec fn map_ref(self) -> &'a mut ArenaMap<Key<T>, V> {
        match self {
            Entry::Occupied(o) => o.map,
            Entry::Vacant(v) => v.map,
        }
    }

    /// The map as the entry found it.
    pub closed spec fn map(self) -> ArenaMap<Key<T>, V> {
        *self.map_ref()
    }

    /// The entry's slot exists, and it is filled exactly in an occupied entry.
    pub closed spec fn wf(self) -> bool {
        &&& self.map().wf()
        &&& self.key()@ < self.map().items@.len()
        &&& self is Occupied <==> self.map().items@[self.key()@ as int] is Some
    }

    /// The value of the entry; a vacant entry is first filled with what `f` returns.
    pub fn or_insert_with<F>(self, f: F) -> (value: &'a mut V) where F: FnOnce() -> V
        requires
            self.wf(),
            self is Vacant ==> f.requires(()),
        ensures
            self is Occupied ==> *value == self.map()@[self.key()@],
            self is Vacant ==> f.ensures((), *value),
            final(self.map_ref()).wf(),
            final(self.map_ref())@ == self.map()@.insert(self.key()@, *final(value)),
    {
        match self {
            Entry::Occupied(o) => {
                proof {
                    lemma_occupied_update(o.map.items@, o.key@ as int);
                }
                let slot = &mut o.map.items[o.key.index()];
                slot.as_mut().unwrap()
            },
            Entry::Vacant(v) => v.insert_with(f),
        }
    }
}

impl<'a, T, V> VacantEntry<'a, Key<T>, V> {
    /// The key whose entry this is.
    pub closed spec fn key(self) -> Key<T> {
        self.key
    }

    /// The borrow of the map that the entry holds.
    pub closed spec fn map_ref(self) -> &'a mut ArenaMap<Key<T>, V> {
        self.map
    }

    /// The map as the entry found it.
    pub closed spec fn map(self) -> ArenaMap<Key<T>, V> {
        *self.map
    }

    /// The entry's slot exists and is empty.
    pub closed spec fn wf(self) -> bool {
        &&& self.map.wf()
        &&& self.key@ < self.map.items@.len()
        &&& self.map.items@[self.key@ as int] is None
    }

    /// Fills the entry with what `f` returns.
    pub fn insert_with<F>(self, f: F) -> (value: &'a mut V) where F: FnOnce() -> V
        requires
            self.wf(),
            f.requires(()),
        ensures
            f.ensures((), *value),
            final(self.map_ref()).wf(),
            final(self.map_ref())@ == self.map()@.insert(self.key()@, *final(value)),
    {
        proof {
            lemma_occupied_update(self.map.items@, self.key@ as int);
        }
        let slot = &mut self.map.items[self.key.index()];
        slot.insert(f())
    }
}

} // verus!
