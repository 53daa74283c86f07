//! The resources of the GPU that the framework manages, and the pool that
//! holds them.
//!
//! A pool has a fixed number of slots. A key names a slot together with the
//! generation of the slot at the time the key was made; destroying a
//! resource moves its slot on to the next generation, so a key to a
//! destroyed resource finds nothing, also after the slot is used again.

use crate::device::{OwnerId, Ownership, OwnershipError};
use crate::pool::{FreeList, RawPool, MAX_LEN};
use vstd::prelude::*;

pub mod buffer;
pub mod image;
pub mod order;
pub mod transient;

verus! {

/// The key of a resource in a pool.
#[derive(Copy, Clone, Debug, PartialEq, Eq, Hash, Structural)]
pub struct ResourceKey {
    generation: u32,
    index: u32,
}

impl ResourceKey {
    /// The generation of the slot when the key was made.
    pub closed spec fn generation(self) -> u32 {
        self.generation
    }

    /// The slot that the key names.
    pub closed spec fn index(self) -> u32 {
        self.index
    }

    /// The slot and the generation of the key.
    pub fn parts(self) -> (parts: (u32, u32))
        ensures
            parts == (self.index(), self.generation()),
    {
        (self.index, self.generation)
    }

    /// A key is its slot and its generation.
    pub proof fn lemma_eq(self, other: ResourceKey)
        ensures
            self == other <==> self.index() == other.index() && self.generation() == other.generation(),
    {
    }
}

/// A kind of resource that lives in a pool.
pub trait Resource: Sized {
    /// What an owner leaves behind when it releases the resource.
    type OwnerState;

    /// The handle of the resource in the GPU API.
    type Handle: Copy;

    /// What else is kept of the resource, for the rare uses.
    type Cold;

    /// The key of the resource.
    spec fn spec_key(&self) -> ResourceKey;

    fn from_key(key: ResourceKey) -> (resource: Self)
        ensures
            resource.spec_key() == key,
    ;

    fn key(&self) -> (key: ResourceKey)
        ensures
            key == self.spec_key(),
    ;
}

/// Why the pool refused.
#[derive(Copy, Clone, Debug, PartialEq, Eq, Structural)]
pub enum PoolError {
    /// The key names no resource of the pool: the resource was destroyed,
    /// or never was.
    StaleKey,
    /// The resource is owned by this owner.
    OwnedBy(OwnerId),
    /// The resource is not owned.
    NotOwned,
}

/// A pool of resources of one kind.
pub struct ResourcePool<T: Resource> {
    free_list: FreeList,
    generation: Vec<u32>,
    ownership: RawPool<Ownership<T::OwnerState>>,
    handle: RawPool<T::Handle>,
    cold: RawPool<T::Cold>,
}

impl<T: Resource> ResourcePool<T> {
    /// The number of slots: each slot has its generation.
    pub open spec fn capacity(&self) -> nat {
        self.generations().len()
    }

    /// The generation of each slot.
    pub closed spec fn generations(&self) -> Seq<u32> {
        self.generation@
    }

    /// The free slots, the one that is used next first.
    pub closed spec fn free(&self) -> Seq<nat> {
        self.free_list@
    }

    /// Does slot `index` hold a resource?
    pub closed spec fn occupied(&self, index: nat) -> bool {
        self.handle@[index as int] is Some
    }

    /// The handle of the resource in slot `index`.
    pub closed spec fn handle_at(&self, index: nat) -> T::Handle {
        self.handle@[index as int]->0
    }

    /// The cold storage of the resource in slot `index`.
    pub closed spec fn cold_at(&self, index: nat) -> T::Cold {
        self.cold@[index as int]->0
    }

    /// The ownership of the resource in slot `index`.
    pub closed spec fn ownership_at(&self, index: nat) -> Ownership<T::OwnerState> {
        self.ownership@[index as int]->0
    }

    /// Is slot `index` spent? A slot is spent once the resource of its last
    /// generation was destroyed: it holds nothing and is never free again.
    pub closed spec fn spent(&self, index: nat) -> bool {
        self.handle@[index as int] is None && !self.free_list@.contains(index)
    }

    /// Does `key` name a resource of the pool? Its slot must hold a
    /// resource and be of the key's generation.
    pub open spec fn is_live(&self, key: ResourceKey) -> bool {
        &&& key.index() < self.capacity()
        &&& self.generations()[key.index() as int] == key.generation()
        &&& self.occupied(key.index() as nat)
    }

    /// Was the resource that `key` named destroyed? The slot has moved on
    /// from the key's generation, or it is spent.
    pub open spec fn retired(&self, key: ResourceKey) -> bool {
        &&& key.index() < self.capacity()
        &&& key.generation() < self.generations()[key.index() as int] || self.spent(key.index() as nat)
    }

    /// The pool `self` is a later state of the pool `before`: it has the
    /// same slots, no slot has gone back to an earlier generation, and a
    /// slot that was spent is spent.
    pub open spec fn follows(&self, before: &ResourcePool<T>) -> bool {
        &&& self.capacity() == before.capacity()
        &&& forall|i: int|
            0 <= i < self.capacity() ==> before.generations()[i] <= #[trigger] self.generations()[i]
        &&& forall|i: nat| i < self.capacity() && before.spent(i) ==> #[trigger] self.spent(i)
    }

    /// The slots are free, hold a resource or are spent; a spent slot is
    /// of the last generation.
    pub closed spec fn wf(&self) -> bool {
        let cap = self.generation@.len();
        &&& self.free_list.wf()
        &&& self.free_list.capacity() == cap
        &&& self.handle@.len() == cap
        &&& self.cold@.len() == cap
        &&& self.ownership@.len() == cap
        &&& forall|i: int|
            0 <= i < cap ==> ((#[trigger] self.handle@[i]) is Some <==> self.cold@[i] is Some) && (
            self.handle@[i] is Some <==> self.ownership@[i] is Some)
        &&& forall|i: int|
            0 <= i < cap && (#[trigger] self.handle@[i]) is Some ==> !self.free_list@.contains(i as nat)
        &&& forall|i: int|
            0 <= i < cap && (#[trigger] self.handle@[i]) is None ==> self.free_list@.contains(i as nat)
                || self.generation@[i] == u32::MAX
    }

    /// A key that is retired names no resource, now or later.
    pub proof fn lemma_stale_key_rejected(&self, before: &ResourcePool<T>, key: ResourceKey)
        requires
            before.retired(key),
            self.follows(before),
        ensures
            self.retired(key),
            !self.is_live(key),
    {
        if before.spent(key.index() as nat) {
            assert(self.spent(key.index() as nat));
        }
    }

    /// A slot that is used again gives a new key: a key that the pool makes
    /// after a resource was destroyed differs from the key of that
    /// resource, in its generation if they share the slot.
    pub proof fn lemma_reused_slot_new_generation(
        &self,
        before: &ResourcePool<T>,
        stale: ResourceKey,
        fresh: ResourceKey,
    )
        requires
            before.retired(stale),
            self.follows(before),
            !self.retired(fresh),
            fresh.index() < self.capacity(),
            fresh.generation() == self.generations()[fresh.index() as int],
        ensures
            fresh != stale,
            fresh.index() == stale.index() ==> fresh.generation() > stale.generation(),
    {
    }

    /// A key that names a resource is not retired.
    pub proof fn lemma_live_not_retired(&self, key: ResourceKey)
        requires
            self.is_live(key),
        ensures
            !self.retired(key),
    {
    }

    /// A pool of `cap` free slots of generation 0.
    pub fn with_capacity(cap: usize) -> (pool: ResourcePool<T>)
        requires
            0 < cap <= MAX_LEN,
        ensures
            pool.wf(),
            pool.capacity() == cap,
            pool.free() == Seq::new(cap as nat, |i: int| i as nat),
            forall|i: int| 0 <= i < cap ==> pool.generations()[i] == 0,
            forall|i: nat| i < cap ==> !pool.occupied(i),
    {
        let free_list = FreeList::with_capacity(cap);
        let mut generations: Vec<u32> = Vec::with_capacity(cap);
        let mut i: usize = 0;
        while i < cap
            invariant
                i <= cap,
                generations@.len() == i,
                forall|j: int| 0 <= j < i ==> generations@[j] == 0,
            decreases cap - i,
        {
            generations.push(0);
            i += 1;
        }
        let ownership = RawPool::with_capacity(cap);
        let hot = RawPool::with_capacity(cap);
        let cold = RawPool::with_capacity(cap);
        let pool = ResourcePool { free_list, generation: generations, ownership, handle: hot, cold };
        proof {
            assert forall|i: int| 0 <= i < cap implies #[trigger] pool.free_list@.contains(i as nat) by {
                assert(pool.free_list@[i] == i as nat);
            }
        }
        pool
    }

    /// Does `key` name a resource of the pool?
    pub fn check_key(&self, key: ResourceKey) -> (live: bool)
        requires
            self.wf(),
        ensures
            live == self.is_live(key),
    {
        let index = key.index as usize;
        index < self.generation.len() && key.generation == self.generation[index] && self.handle.get(
            index,
        ).is_some()
    }

    /// Sets `owner` as the owner of `resource`, unless somebody else owns
    /// it, and hands out the state that the last owner left.
    pub fn acquire(&mut self, resource: T, owner: OwnerId) -> (result: Result<&T::OwnerState, PoolError>)
        requires
            old(self).wf(),
        ensures
            final(self).wf(),
            final(self).follows(old(self)),
            final(self).generations() == old(self).generations(),
            final(self).free() == old(self).free(),
            forall|k: ResourceKey| final(self).is_live(k) == old(self).is_live(k),
            forall|i: nat|
                i < old(self).capacity() ==> final(self).handle_at(i) == old(self).handle_at(i)
                    && final(self).cold_at(i) == old(self).cold_at(i),
            forall|i: nat|
                i < old(self).capacity() && i != resource.spec_key().index() ==> final(self).ownership_at(
                    i,
                ) == old(self).ownership_at(i),
            result is Ok <==> old(self).is_live(resource.spec_key()) && (old(self).ownership_at(
                resource.spec_key().index() as nat,
            ).spec_owner() matches Some(o) ==> o == owner),
            result matches Ok(state) ==> {
                let index = resource.spec_key().index() as nat;
                &&& *state == old(self).ownership_at(index).state()
                &&& final(self).ownership_at(index).spec_owner() == Some(owner)
                &&& final(self).ownership_at(index).state() == old(self).ownership_at(index).state()
            },
            result matches Err(e) ==> {
                &&& e == if !old(self).is_live(resource.spec_key()) {
                    PoolError::StaleKey
                } else {
                    PoolError::OwnedBy(
                        old(self).ownership_at(resource.spec_key().index() as nat).spec_owner()->0,
                    )
                }
                &&& forall|i: nat|
                    i < old(self).capacity() ==> final(self).ownership_at(i) == old(self).ownership_at(i)
            },
    {
        let key = resource.key();
        if !self.check_key(key) {
            return Err(PoolError::StaleKey);
        }
        let index = key.index as usize;
        let current = self.ownership.get(index);
        assert(current is Some);
        match current {
            Some(ownership) => {
                match ownership.owner() {
                    Some(o) => {
                        if o.0 != owner.0 {
                            return Err(PoolError::OwnedBy(o));
                        }
                    },
                    None => {},
                }
            },
            None => {},
        }
        let slot = self.ownership.get_mut(index);
        match slot {
            Some(ownership) => {
                match ownership.acquire(owner) {
                    Ok(state) => Ok(state),
                    Err(_) => Err(PoolError::StaleKey),
                }
            },
            None => Err(PoolError::StaleKey),
        }
    }

    /// Ends the ownership of `owner` over `resource` and leaves `state`.
    pub fn release(&mut self, resource: T, owner: OwnerId, state: T::OwnerState) -> (result: Result<
        (),
        PoolError,
    >)
        requires
            old(self).wf(),
        ensures
            final(self).wf(),
            final(self).follows(old(self)),
            final(self).generations() == old(self).generations(),
            final(self).free() == old(self).free(),
            forall|k: ResourceKey| final(self).is_live(k) == old(self).is_live(k),
            forall|i: nat|
                i < old(self).capacity() ==> final(self).handle_at(i) == old(self).handle_at(i)
                    && final(self).cold_at(i) == old(self).cold_at(i),
            forall|i: nat|
                i < old(self).capacity() && i != resource.spec_key().index() ==> final(self).ownership_at(
                    i,
                ) == old(self).ownership_at(i),
            result is Ok <==> old(self).is_live(resource.spec_key()) && old(self).ownership_at(
                resource.spec_key().index() as nat,
            ).spec_owner() == Some(owner),
            result is Ok ==> {
                let index = resource.spec_key().index() as nat;
                &&& final(self).ownership_at(index).spec_owner() is None
                &&& final(self).ownership_at(index).state() == state
            },
            result matches Err(e) ==> {
                &&& e == if !old(self).is_live(resource.spec_key()) {
                    PoolError::StaleKey
                } else {
                    match old(self).ownership_at(resource.spec_key().index() as nat).spec_owner() {
                        Some(o) => PoolError::OwnedBy(o),
                        None => PoolError::NotOwned,
                    }
                }
                &&& forall|i: nat|
                    i < old(self).capacity() ==> final(self).ownership_at(i) == old(self).ownership_at(i)
            },
    {
        let key = resource.key();
        if !self.check_key(key) {
            return Err(PoolError::StaleKey);
        }
        let index = key.index as usize;
        let current = self.ownership.get(index);
        match current {
            Some(ownership) => {
                match ownership.owner() {
                    Some(o) => {
                        if o.0 != owner.0 {
                            return Err(PoolError::OwnedBy(o));
                        }
                    },
                    None => {
                        return Err(PoolError::NotOwned);
                    },
                }
            },
            None => {
                return Err(PoolError::StaleKey);
            },
        }
        let slot = self.ownership.get_mut(index);
        match slot {
            Some(ownership) => {
                let _ = ownership.release(owner, Some(state));
            },
            None => {},
        }
        Ok(())
    }

    /// The handle of `resource`, if the resource is in the pool.
    pub fn handle(&self, resource: T) -> (handle: Option<T::Handle>)
        requires
            self.wf(),
        ensures
            handle == if self.is_live(resource.spec_key()) {
                Some(self.handle_at(resource.spec_key().index() as nat))
            } else {
                None
            },
    {
        let key = resource.key();
        if !self.check_key(key) {
            return None;
        }
        *self.handle.get(key.index as usize)
    }

    /// The cold storage of the resource that `key` names, if the resource
    /// is in the pool.
    pub fn cold(&self, key: ResourceKey) -> (cold: Option<&T::Cold>)
        requires
            self.wf(),
        ensures
            cold == if self.is_live(key) {
                Some(&self.cold_at(key.index() as nat))
            } else {
                None
            },
    {
        if !self.check_key(key) {
            return None;
        }
        self.cold.get(key.index as usize).as_ref()
    }

    /// Is there a free slot?
    pub fn has_free(&self) -> (free: bool)
        requires
            self.wf(),
        ensures
            free == (self.free().len() > 0),
    {
        self.free_list.has_free()
    }

    /// Puts a resource into the next free slot and returns it with its key:
    /// the slot and the slot's generation. The resource has no owner, and
    /// `state` is the state that its first owner finds. A full pool takes
    /// nothing.
    pub fn create(&mut self, handle: T::Handle, cold: T::Cold, state: T::OwnerState) -> (created: Option<T>)
        requires
            old(self).wf(),
        ensures
            final(self).wf(),
            final(self).follows(old(self)),
            final(self).generations() == old(self).generations(),
            created is Some <==> old(self).free().len() > 0,
            created is None ==> {
                &&& final(self).free() == old(self).free()
                &&& forall|k: ResourceKey| final(self).is_live(k) == old(self).is_live(k)
                &&& forall|i: nat|
                    i < old(self).capacity() ==> final(self).occupied(i) == old(self).occupied(i)
                        && final(self).handle_at(i) == old(self).handle_at(i) && final(self).cold_at(i)
                        == old(self).cold_at(i) && final(self).ownership_at(i) == old(self).ownership_at(i)
            },
            created matches Some(resource) ==> {
                let key = resource.spec_key();
                &&& key.index() == old(self).free()[0]
                &&& key.generation() == old(self).generations()[key.index() as int]
                &&& !old(self).is_live(key)
                &&& !final(self).retired(key)
                &&& final(self).free() == old(self).free().drop_first()
                &&& forall|k: ResourceKey| final(self).is_live(k) == (k == key || old(self).is_live(k))
                &&& final(self).handle_at(key.index() as nat) == handle
                &&& final(self).cold_at(key.index() as nat) == cold
                &&& final(self).ownership_at(key.index() as nat).spec_owner() is None
                &&& final(self).ownership_at(key.index() as nat).state() == state
                &&& forall|i: nat|
                    i < old(self).capacity() && i != key.index() ==> final(self).handle_at(i) == old(
                        self,
                    ).handle_at(i) && final(self).cold_at(i) == old(self).cold_at(i)
                        && final(self).ownership_at(i) == old(self).ownership_at(i)
            },
    {
        proof {
            self.free_list.lemma_wf();
        }
        let ghost free_before = self.free_list@;
        let index = match self.free_list.pop() {
            None => {
                return None;
            },
            Some(index) => index,
        };
        proof {
            assert(free_before[0] == index);
            assert(free_before.contains(index as nat));
            assert forall|i: nat| i < self.generation@.len() && i != index implies (
            #[trigger] self.free_list@.contains(i) <==> free_before.contains(i)) by {
                if free_before.contains(i) {
                    let p = choose|p: int| 0 <= p < free_before.len() && free_before[p] == i;
                    assert(self.free_list@[p - 1] == i);
                }
                if self.free_list@.contains(i) {
                    let p = choose|p: int| 0 <= p < self.free_list@.len() && self.free_list@[p] == i;
                    assert(free_before[p + 1] == i);
                }
            }
            assert(!self.free_list@.contains(index as nat)) by {
                if self.free_list@.contains(index as nat) {
                    let p = choose|p: int| 0 <= p < self.free_list@.len() && self.free_list@[p] == index as nat;
                    assert(free_before[p + 1] == index as nat);
                }
            }
        }
        let slot = self.handle.get_mut(index);
        *slot = Some(handle);
        let slot = self.cold.get_mut(index);
        *slot = Some(cold);
        let slot = self.ownership.get_mut(index);
        *slot = Some(Ownership::new(state));
        let key = ResourceKey { generation: self.generation[index], index: index as u32 };
        proof {
            assert forall|k: ResourceKey| self.is_live(k) == (k == key || old(self).is_live(k)) by {
                key.lemma_eq(k);
            }
        }
        Some(T::from_key(key))
    }

    /// Takes the resource that `key` names out of the pool and hands back
    /// its handle and cold storage, which have to be destroyed. The
    /// resource must be in the pool and have no owner. Its slot moves on to
    /// the next generation and is free again, so `key` names nothing from
    /// now on. A slot of the last generation, whose counter cannot move on,
    /// is spent instead: it stays as it is and is never free again.
    pub fn destroy(&mut self, key: ResourceKey) -> (result: Result<(T::Handle, T::Cold), PoolError>)
        requires
            old(self).wf(),
        ensures
            final(self).wf(),
            final(self).follows(old(self)),
            result is Ok <==> old(self).is_live(key) && old(self).ownership_at(
                key.index() as nat,
            ).spec_owner() is None,
            result matches Err(e) ==> {
                &&& e == if !old(self).is_live(key) {
                    PoolError::StaleKey
                } else {
                    PoolError::OwnedBy(old(self).ownership_at(key.index() as nat).spec_owner()->0)
                }
                &&& final(self).generations() == old(self).generations()
                &&& final(self).free() == old(self).free()
                &&& forall|k: ResourceKey| final(self).is_live(k) == old(self).is_live(k)
            },
            result matches Ok(parts) ==> {
                &&& parts.0 == old(self).handle_at(key.index() as nat)
                &&& parts.1 == old(self).cold_at(key.index() as nat)
                &&& final(self).retired(key)
                &&& final(self).generations() == old(self).generations().update(
                    key.index() as int,
                    if key.generation() < u32::MAX {
                        (key.generation() + 1) as u32
                    } else {
                        u32::MAX
                    },
                )
                &&& final(self).free() == if key.generation() < u32::MAX {
                    seq![key.index() as nat] + old(self).free()
                } else {
                    old(self).free()
                }
                &&& final(self).spent(key.index() as nat) == (key.generation() == u32::MAX)
                &&& !final(self).occupied(key.index() as nat)
                &&& forall|k: ResourceKey| final(self).is_live(k) == (k != key && old(self).is_live(k))
                &&& forall|i: nat|
                    i < old(self).capacity() && i != key.index() ==> final(self).handle_at(i) == old(
                        self,
                    ).handle_at(i) && final(self).cold_at(i) == old(self).cold_at(i)
                        && final(self).ownership_at(i) == old(self).ownership_at(i)
            },
    {
        if !self.check_key(key) {
            return Err(PoolError::StaleKey);
        }
        let index = key.index as usize;
        match self.ownership.get(index) {
            Some(ownership) => {
                match ownership.owner() {
                    Some(owner) => {
                        return Err(PoolError::OwnedBy(owner));
                    },
                    None => {},
                }
            },
            None => {},
        }
        let handle = self.handle.get_mut(index).take();
        let cold = self.cold.get_mut(index).take();
        let _ = self.ownership.get_mut(index).take();
        let ghost free_before = self.free_list@;
        if self.generation[index] < 0xffff_ffff {
            let next = self.generation[index] + 1;
            self.generation[index] = next;
            self.free_list.push(index);
            proof {
                let after = self.free_list@;
                assert(after[0] == index as nat);
                assert forall|i: nat| i < self.generation@.len() implies (#[trigger] after.contains(i) <==> (i
                    == index || free_before.contains(i))) by {
                    if free_before.contains(i) {
                        let p = choose|p: int| 0 <= p < free_before.len() && free_before[p] == i;
                        assert(after[p + 1] == i);
                    }
                    if after.contains(i) && i != index {
                        let p = choose|p: int| 0 <= p < after.len() && after[p] == i;
                        assert(free_before[p - 1] == i);
                    }
                }
            }
        }
        proof {
            assert forall|k: ResourceKey| self.is_live(k) == (k != key && old(self).is_live(k)) by {
                key.lemma_eq(k);
            }
        }
        Ok((handle.unwrap(), cold.unwrap()))
    }
}

} // verus!
