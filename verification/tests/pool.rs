use reify::device::{OwnerId, OwnerIds, Ownership, OwnershipError};
use reify::pool::{FreeList, Gen, Link, RawPool};
use reify::resource::buffer::{
    Buffer, BufferInfo, BufferMemoryType, BufferStorageCold, BufferSyncState,
};
use reify::resource::{PoolError, Resource, ResourcePool};
use std::cmp::Ordering;

fn cold(size: u64) -> BufferStorageCold {
    BufferStorageCold {
        info: BufferInfo { size, usage: 0x80, class: BufferMemoryType::UploadStaging },
        mem: size + 1,
    }
}

fn idle() -> BufferSyncState {
    BufferSyncState { submission: None, stage_mask: 0, access_mask: 0 }
}

#[test]
fn free_list_hands_out_slots_in_order_and_reuses_the_last_returned() {
    let mut list = FreeList::with_capacity(3);
    assert!(list.has_free());
    assert_eq!(list.pop(), Some(0));
    assert_eq!(list.pop(), Some(1));
    assert_eq!(list.pop(), Some(2));
    assert_eq!(list.pop(), None);
    assert!(!list.has_free());
    list.push(1);
    list.push(0);
    assert_eq!(list.pop(), Some(0));
    assert_eq!(list.pop(), Some(1));
    assert_eq!(list.pop(), None);
    let mut one = FreeList::with_capacity(1);
    assert_eq!(one.pop(), Some(0));
    assert_eq!(one.pop(), None);
}

#[test]
fn link_stores_the_follower() {
    let mut link = Link::new(Some(0));
    assert_eq!(link.take_next_free(), Some(0));
    assert_eq!(link.take_next_free(), None);
    link.set_next_free(Some(41));
    assert_eq!(link.take_next_free(), Some(41));
    link.set_next_free(None);
    assert_eq!(link.take_next_free(), None);
    assert_eq!(Link::new(None).take_next_free(), None);
}

#[test]
fn raw_pool_slots_start_empty() {
    let mut pool: RawPool<u32> = RawPool::with_capacity(2);
    assert_eq!(*pool.get(0), None);
    *pool.get_mut(1) = Some(5);
    assert_eq!(*pool.get(1), Some(5));
    assert_eq!(*pool.get(0), None);
}

#[test]
fn gen_counts_replacements() {
    let mut value = Gen::new("a");
    assert_eq!(value.gen(), 0);
    assert_eq!(*value.get(), "a");
    assert_eq!(value.set("b"), "a");
    assert_eq!(value.gen(), 1);
    assert_eq!(value.set("c"), "b");
    assert_eq!(value.gen(), 2);
    assert_eq!(*value.get(), "c");
}

#[test]
fn pool_rejects_stale_keys() {
    let mut pool: ResourcePool<Buffer> = ResourcePool::with_capacity(2);
    let buffer = pool.create(7, cold(16), idle()).unwrap();
    let key = buffer.key();
    assert!(pool.check_key(key));
    assert_eq!(pool.handle(buffer), Some(7));
    assert_eq!(pool.cold(key), Some(&cold(16)));

    assert_eq!(pool.destroy(key), Ok((7, cold(16))));
    assert!(!pool.check_key(key));
    assert_eq!(pool.handle(buffer), None);
    assert_eq!(pool.cold(key), None);
    assert_eq!(pool.acquire(buffer, OwnerId(1)).err(), Some(PoolError::StaleKey));
    assert_eq!(pool.release(buffer, OwnerId(1), idle()), Err(PoolError::StaleKey));
    assert_eq!(pool.destroy(key), Err(PoolError::StaleKey));

    // The slot is used again, under another key.
    let again = pool.create(8, cold(32), idle()).unwrap();
    assert_ne!(again.key(), key);
    let (index, generation) = again.key().parts();
    assert_eq!((index, generation), (0, 1));
    assert_eq!(key.parts(), (0, 0));
    assert_eq!(pool.handle(again), Some(8));
    assert_eq!(pool.handle(buffer), None);
    assert_eq!(pool.cold(key), None);
}

#[test]
fn pool_is_full_when_every_slot_is_taken() {
    let mut pool: ResourcePool<Buffer> = ResourcePool::with_capacity(2);
    assert!(pool.has_free());
    let a = pool.create(1, cold(1), idle()).unwrap();
    let b = pool.create(2, cold(2), idle()).unwrap();
    assert_eq!(a.key().parts(), (0, 0));
    assert_eq!(b.key().parts(), (1, 0));
    assert!(!pool.has_free());
    assert!(pool.create(3, cold(3), idle()).is_none());
    assert_eq!(pool.handle(a), Some(1));
    assert_eq!(pool.handle(b), Some(2));
    pool.destroy(b.key()).unwrap();
    let c = pool.create(3, cold(3), idle()).unwrap();
    assert_eq!(c.key().parts(), (1, 1));
}

#[test]
fn pool_tracks_owners() {
    let mut pool: ResourcePool<Buffer> = ResourcePool::with_capacity(1);
    let buffer = pool.create(7, cold(16), idle()).unwrap();
    let me = OwnerId(1);
    let other = OwnerId(2);
    assert_eq!(pool.release(buffer, me, idle()), Err(PoolError::NotOwned));
    assert_eq!(pool.acquire(buffer, me).map(|s| *s), Ok(idle()));
    // Acquiring again is fine for the owner and refused for others.
    assert_eq!(pool.acquire(buffer, me).map(|s| *s), Ok(idle()));
    assert_eq!(pool.acquire(buffer, other).err(), Some(PoolError::OwnedBy(me)));
    assert_eq!(pool.release(buffer, other, idle()), Err(PoolError::OwnedBy(me)));
    assert_eq!(pool.destroy(buffer.key()), Err(PoolError::OwnedBy(me)));
    let used = BufferSyncState { submission: None, stage_mask: 0x1000, access_mask: 0x800 };
    assert_eq!(pool.release(buffer, me, used), Ok(()));
    assert_eq!(pool.acquire(buffer, other).map(|s| *s), Ok(used));
    assert_eq!(pool.release(buffer, other, idle()), Ok(()));
    assert!(pool.destroy(buffer.key()).is_ok());
}

#[test]
fn ownership_alone() {
    let mut ownership = Ownership::new(5u32);
    assert_eq!(ownership.owner(), None);
    assert_eq!(ownership.release(OwnerId(1), None), Err(OwnershipError::NotOwned));
    assert_eq!(ownership.acquire(OwnerId(1)), Ok(&5));
    assert_eq!(ownership.owner(), Some(OwnerId(1)));
    assert_eq!(ownership.acquire(OwnerId(2)), Err(OwnershipError::OwnedBy(OwnerId(1))));
    assert_eq!(ownership.release(OwnerId(1), None), Ok(()));
    assert_eq!(ownership.acquire(OwnerId(2)), Ok(&5));
    assert_eq!(ownership.release(OwnerId(2), Some(6)), Ok(()));
    assert_eq!(ownership.acquire(OwnerId(3)), Ok(&6));
}

#[test]
fn owner_ids_are_handed_out_once() {
    let mut ids = OwnerIds::new();
    assert_eq!(ids.new_id(), Some(OwnerId(1)));
    assert_eq!(ids.new_id(), Some(OwnerId(2)));
    let mut last = OwnerId(2);
    while let Some(id) = ids.new_id() {
        assert!(id.0 > last.0);
        last = id;
    }
    assert_eq!(last, OwnerId(u16::MAX));
    assert_eq!(ids.new_id(), None);
}

#[test]
fn keys_are_batched_by_slot_then_generation() {
    let mut pool: ResourcePool<Buffer> = ResourcePool::with_capacity(2);
    let a0 = pool.create(1, cold(1), idle()).unwrap();
    let b0 = pool.create(2, cold(2), idle()).unwrap();
    pool.destroy(a0.key()).unwrap();
    let a1 = pool.create(3, cold(3), idle()).unwrap();
    assert_eq!(a0.key().batch_order(b0.key()), Ordering::Less);
    assert_eq!(b0.key().batch_order(a1.key()), Ordering::Greater);
    assert_eq!(a0.key().batch_order(a1.key()), Ordering::Less);
    assert_eq!(a1.key().batch_order(a0.key()), Ordering::Greater);
    assert_eq!(a1.key().batch_order(a1.key()), Ordering::Equal);
    assert_eq!(a0.batch_order(b0), Ordering::Less);
    assert_eq!(a1.batch_order(a1), Ordering::Equal);
    assert_eq!(Buffer::from_key(b0.key()), b0);
}

#[test]
fn destroyed_slot_is_free_again_with_the_next_generation() {
    let mut pool: ResourcePool<Buffer> = ResourcePool::with_capacity(2);
    let first = pool.create(1, cold(8), idle()).unwrap();
    let second = pool.create(2, cold(8), idle()).unwrap();
    assert!(!pool.has_free());
    // A full pool takes nothing and keeps what it holds.
    assert!(pool.create(3, cold(8), idle()).is_none());
    assert_eq!(pool.handle(first), Some(1));
    assert_eq!(pool.handle(second), Some(2));
    assert_eq!(pool.cold(second.key()).map(|c| c.info.size), Some(8));

    let mut key = first.key();
    for generation in 0..5u32 {
        assert_eq!(key.parts(), (0, generation));
        assert_eq!(pool.destroy(key).map(|parts| parts.0), Ok(generation as u64 + 1));
        assert!(pool.has_free());
        assert!(!pool.check_key(key));
        key = pool.create(generation as u64 + 2, cold(8), idle()).unwrap().key();
    }
    assert_eq!(key.parts(), (0, 5));
    assert_eq!(pool.handle(second), Some(2));
}
