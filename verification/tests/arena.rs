use reify::arena::{Arena, ArenaMap, Key};

#[test]
fn arena_keys_are_distinct_and_find_their_values() {
    let mut arena: Arena<u32> = Arena::new();
    let a = arena.allocate(10);
    let b = arena.allocate(20);
    let c = arena.allocate(30);
    assert_ne!(a.index(), b.index());
    assert_ne!(b.index(), c.index());
    assert_ne!(a.index(), c.index());
    assert_eq!(arena.get(a), Some(&10));
    assert_eq!(arena.get(b), Some(&20));
    assert_eq!(arena.get(c), Some(&30));
    assert_eq!(arena.len(), 3);
}

#[test]
fn arena_map_insert_and_get() {
    let mut map: ArenaMap<Key<u8>, u32> = ArenaMap::with_capacity(4);
    let k = Key::<u8>::from_index(3);
    assert_eq!(map.get(k), None);
    assert_eq!(map.insert(k, 7), None);
    assert_eq!(map.insert(k, 8), Some(7));
    assert_eq!(map.get(k), Some(&8));
    assert_eq!(map.get(Key::<u8>::from_index(2)), None);
}

#[test]
fn arena_alloc_with_key_sees_the_key() {
    let mut arena: Arena<usize> = Arena::new();
    arena.allocate(100);
    let key = arena.alloc_with_key(|k| k.index() * 10);
    assert_eq!(key.index(), 1);
    assert_eq!(arena.get(key), Some(&10));
    assert_eq!(arena.next_key().index(), 2);
    assert_eq!(*arena.index(key), 10);
    *arena.index_mut(key) = 11;
    if let Some(value) = arena.get_mut(Key::from_index(0)) {
        *value += 1;
    }
    assert!(arena.get_mut(Key::from_index(2)).is_none());
    let pairs: Vec<(usize, usize)> = arena.iter().into_iter().map(|(k, v)| (k.index(), *v)).collect();
    assert_eq!(pairs, vec![(0, 101), (1, 11)]);
    assert_eq!(arena.get(Key::from_index(2)), None);
}

#[test]
fn arena_map_entries() {
    let mut map: ArenaMap<Key<u8>, Vec<u32>> = ArenaMap::new();
    let a = Key::<u8>::from_index(1);
    let b = Key::<u8>::from_index(4);
    map.entry(b).or_insert_with(Vec::new).push(1);
    map.entry(b).or_insert_with(|| vec![9]).push(2);
    map.entry(a).or_insert_with(|| vec![7]).push(8);
    assert_eq!(map.get(b), Some(&vec![1, 2]));
    assert_eq!(map.get(a), Some(&vec![7, 8]));
    assert_eq!(map.index(a), &vec![7, 8]);
    map.index_mut(a).clear();
    if let Some(values) = map.get_mut(b) {
        values.push(3);
    }
    assert!(map.get_mut(Key::from_index(0)).is_none());
    assert!(map.get_mut(Key::from_index(9)).is_none());
    let pairs: Vec<(usize, Vec<u32>)> = map.iter().into_iter().map(|(k, v)| (k.index(), v.clone())).collect();
    assert_eq!(pairs, vec![(1, vec![]), (4, vec![1, 2, 3])]);
    assert_eq!(a, Key::from_index(1));
    assert_ne!(a, b);
    assert_eq!(a.raw(), 1);
}

#[test]
fn keys_hash_by_their_position() {
    let mut arena: Arena<&str> = Arena::new();
    let a = arena.allocate("a");
    let b = arena.allocate("b");
    let mut seen = std::collections::HashSet::new();
    assert!(seen.insert(a));
    assert!(seen.insert(b));
    assert!(!seen.insert(Key::from_index(0)));
    assert!(seen.contains(&Key::from_index(1)));
    assert!(!seen.contains(&Key::from_index(2)));
    assert_eq!(seen.len(), 2);
}
