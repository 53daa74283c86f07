//! Building blocks of slotted pools: a free list of slot numbers, raw slot
//! storage, and a value with a generation counter.

use vstd::prelude::*;

verus! {

/// The largest number of slots that a pool can have.
pub const MAX_LEN: usize = 0xffff_fffe;

/// One link of the free list: the free slot that follows a free slot.
///
/// The slot number is stored plus one, so that zero can stand for "none".
pub struct Link {
    next_free: u32,
}

impl View for Link {
    type V = Option<nat>;

    /// The slot that follows, if any.
    closed spec fn view(&self) -> Option<nat> {
        if self.next_free == 0 {
            None
        } else {
            Some((self.next_free - 1) as nat)
        }
    }
}

impl Link {
    pub fn new(next_free: Option<usize>) -> (link: Link)
        requires
            next_free matches Some(n) ==> n < u32::MAX,
        ensures
            link@ == match next_free {
                Some(n) => Some(n as nat),
                None => None,
            },
    {
        match next_free {
            Some(n) => Link { next_free: n as u32 + 1 },
            None => Link { next_free: 0 },
        }
    }

    /// Takes the follower out of the link, which then has none.
    pub fn take_next_free(&mut self) -> (next: Option<usize>)
        ensures
            final(self)@ is None,
            next == match old(self)@ {
                Some(n) => Some(n as usize),
                None => None,
            },
            next matches Some(n) ==> n < u32::MAX,
    {
        let stored = self.next_free;
        self.next_free = 0;
        if stored == 0 {
            None
        } else {
            Some(stored as usize - 1)
        }
    }

    pub fn set_next_free(&mut self, index: Option<usize>)
        requires
            index matches Some(n) ==> n < u32::MAX,
        ensures
            final(self)@ == match index {
                Some(n) => Some(n as nat),
                None => None,
            },
    {
        match index {
            Some(n) => {
                self.next_free = n as u32 + 1;
            },
            None => {
                self.next_free = 0;
            },
        }
    }
}

/// A stack of free slot numbers, threaded through one link per slot.
pub struct FreeList {
    head: Option<usize>,
    links: Vec<Link>,
    free: Ghost<Seq<nat>>,
}

impl View for FreeList {
    type V = Seq<nat>;

    /// The free slots, the one that is handed out next first.
    closed spec fn view(&self) -> Seq<nat> {
        self.free@
    }
}

impl FreeList {
    /// The number of slots, free or not.
    pub closed spec fn capacity(&self) -> nat {
        self.links@.len()
    }

    /// The links spell out the free slots in order, and every other link is
    /// empty.
    pub closed spec fn wf(&self) -> bool {
        &&& 0 < self.links@.len() <= MAX_LEN
        &&& self.free@.no_duplicates()
        &&& forall|i: int| 0 <= i < self.free@.len() ==> #[trigger] self.free@[i] < self.links@.len()
        &&& self.head == if self.free@.len() == 0 {
            None
        } else {
            Some(self.free@[0] as usize)
        }
        &&& forall|i: int|
            0 <= i < self.free@.len() ==> (#[trigger] self.links@[self.free@[i] as int])@ == if i
                + 1 < self.free@.len() {
                Some(self.free@[i + 1])
            } else {
                None
            }
        &&& forall|s: int|
            0 <= s < self.links@.len() && !self.free@.contains(s as nat) ==> (
            #[trigger] self.links@[s])@ is None
    }

    /// What a well-formed free list holds: slot numbers below the capacity,
    /// none of them twice.
    pub proof fn lemma_wf(&self)
        requires
            self.wf(),
        ensures
            0 < self.capacity() <= MAX_LEN,
            self@.no_duplicates(),
            forall|i: int| 0 <= i < self@.len() ==> #[trigger] self@[i] < self.capacity(),
    {
    }

    /// A free list of `cap` slots, all of them free, the lowest first.
    pub fn with_capacity(cap: usize) -> (list: FreeList)
        requires
            0 < cap <= MAX_LEN,
        ensures
            list.wf(),
            list.capacity() == cap,
            list@ == Seq::new(cap as nat, |i: int| i as nat),
    {
        let mut links: Vec<Link> = Vec::with_capacity(cap);
        let mut i: usize = 0;
        while i < cap - 1
            invariant
                0 < cap <= MAX_LEN,
                i <= cap - 1,
                links@.len() == i,
                forall|j: int| 0 <= j < i ==> (#[trigger] links@[j])@ == Some((j + 1) as nat),
            decreases cap - 1 - i,
        {
            links.push(Link::new(Some(i + 1)));
            i += 1;
        }
        links.push(Link::new(None));
        let ghost free = Seq::new(cap as nat, |i: int| i as nat);
        let list = FreeList { head: Some(0), links, free: Ghost(free) };
        proof {
            assert(list.free@.no_duplicates());
            assert forall|s: int|
                0 <= s < list.links@.len() && !list.free@.contains(s as nat) implies (
            #[trigger] list.links@[s])@ is None by {
                assert(list.free@[s] == s as nat);
            }
        }
        list
    }

    /// Is there a free slot?
    pub fn has_free(&self) -> (free: bool)
        requires
            self.wf(),
        ensures
            free == (self@.len() > 0),
    {
        self.head.is_some()
    }

    /// Takes the next free slot, if there is one.
    pub fn pop(&mut self) -> (index: Option<usize>)
        requires
            old(self).wf(),
        ensures
            final(self).wf(),
            final(self).capacity() == old(self).capacity(),
            old(self)@.len() == 0 ==> index is None && final(self)@ == old(self)@,
            old(self)@.len() > 0 ==> index == Some(old(self)@[0] as usize) && final(self)@ == old(
                self,
            )@.drop_first(),
    {
        match self.head {
            None => None,
            Some(index) => {
                let ghost before = self.free@;
                assert(before[0] == index);
                self.head = self.links[index].take_next_free();
                self.free = Ghost(before.drop_first());
                proof {
                    let after = self.free@;
                    assert forall|i: int| 0 <= i < after.len() implies (
                    #[trigger] self.links@[after[i] as int])@ == if i + 1 < after.len() {
                        Some(after[i + 1])
                    } else {
                        None
                    } by {
                        assert(after[i] == before[i + 1]);
                        assert(before[i + 1] != before[0]);
                    }
                    assert forall|s: int|
                        0 <= s < self.links@.len() && !after.contains(s as nat) implies (
                    #[trigger] self.links@[s])@ is None by {
                        if s != index {
                            if before.contains(s as nat) {
                                let p = choose|p: int| 0 <= p < before.len() && before[p] == s as nat;
                                assert(after[p - 1] == s as nat);
                            }
                        }
                    }
                    assert(after.no_duplicates()) by {
                        assert forall|i: int, j: int|
                            0 <= i < after.len() && 0 <= j < after.len() && i != j implies after[i]
                            != after[j] by {
                            assert(after[i] == before[i + 1]);
                            assert(after[j] == before[j + 1]);
                        }
                    }
                }
                Some(index)
            },
        }
    }

    /// Returns slot `index` to the list; it is the next to be handed out.
    pub fn push(&mut self, index: usize)
        requires
            old(self).wf(),
            index < old(self).capacity(),
            !old(self)@.contains(index as nat),
        ensures
            final(self).wf(),
            final(self).capacity() == old(self).capacity(),
            final(self)@ == seq![index as nat] + old(self)@,
    {
        let ghost before = self.free@;
        let prev_head = self.head;
        self.head = Some(index);
        self.links[index].set_next_free(prev_head);
        self.free = Ghost(seq![index as nat] + before);
        proof {
            let after = self.free@;
            assert forall|i: int| 0 <= i < after.len() implies #[trigger] after[i]
                < self.links@.len() by {
                if i > 0 {
                    assert(after[i] == before[i - 1]);
                }
            }
            assert(after.no_duplicates()) by {
                assert forall|i: int, j: int|
                    0 <= i < after.len() && 0 <= j < after.len() && i != j implies after[i]
                    != after[j] by {
                    if i > 0 {
                        assert(after[i] == before[i - 1]);
                    }
                    if j > 0 {
                        assert(after[j] == before[j - 1]);
                    }
                }
            }
            assert forall|i: int| 0 <= i < after.len() implies (
            #[trigger] self.links@[after[i] as int])@ == if i + 1 < after.len() {
                Some(after[i + 1])
            } else {
                None
            } by {
                if i > 0 {
                    assert(after[i] == before[i - 1]);
                    assert(before.contains(before[i - 1]));
                    if i + 1 < after.len() {
                        assert(after[i + 1] == before[i]);
                    }
                } else {
                    if before.len() > 0 {
                        assert(after[1] == before[0]);
                    }
                }
            }
            assert forall|s: int|
                0 <= s < self.links@.len() && !after.contains(s as nat) implies (
            #[trigger] self.links@[s])@ is None by {
                assert(after[0] == index as nat);
                if before.contains(s as nat) {
                    let p = choose|p: int| 0 <= p < before.len() && before[p] == s as nat;
                    assert(after[p + 1] == s as nat);
                }
            }
        }
    }
}

/// Slot storage without bookkeeping: a slot holds a value or nothing.
pub struct RawPool<V> {
    values: Vec<Option<V>>,
}

impl<V> View for RawPool<V> {
    type V = Seq<Option<V>>;

    /// The slots in order.
    closed spec fn view(&self) -> Seq<Option<V>> {
        self.values@
    }
}

impl<V> RawPool<V> {
    /// A pool of `cap` empty slots.
    pub fn with_capacity(cap: usize) -> (pool: RawPool<V>)
        ensures
            pool@.len() == cap,
            forall|i: int| 0 <= i < cap ==> pool@[i] is None,
    {
        let mut values: Vec<Option<V>> = Vec::with_capacity(cap);
        let mut i: usize = 0;
        while i < cap
            invariant
                i <= cap,
                values@.len() == i,
                forall|j: int| 0 <= j < i ==> values@[j] is None,
            decreases cap - i,
        {
            values.push(None);
            i += 1;
        }
        RawPool { values }
    }

    pub fn get(&self, index: usize) -> (slot: &Option<V>)
        requires
            index < self@.len(),
        ensures
            *slot == self@[index as int],
    {
        &self.values[index]
    }

    pub fn get_mut(&mut self, index: usize) -> (slot: &mut Option<V>)
        requires
            index < old(self)@.len(),
        ensures
            *slot == old(self)@[index as int],
            final(self)@ == old(self)@.update(index as int, *final(slot)),
    {
        &mut self.values[index]
    }
}

/// A value together with the number of times it was replaced.
pub struct Gen<T> {
    value: T,
    generation: u32,
}

impl<T> Gen<T> {
    /// The value held.
    pub closed spec fn value(&self) -> T {
        self.value
    }

    /// The number of replacements so far, modulo 2^32.
    pub closed spec fn generation(&self) -> u32 {
        self.generation
    }

    pub fn new(value: T) -> (g: Gen<T>)
        ensures
            g.value() == value,
            g.generation() == 0,
    {
        Gen { value, generation: 0 }
    }

    pub fn gen(&self) -> (n: u32)
        ensures
            n == self.generation(),
    {
        self.generation
    }

    pub fn get(&self) -> (value: &T)
        ensures
            *value == self.value(),
    {
        &self.value
    }

    /// Replaces the value, returns the one held before, and counts the
    /// replacement; the count wraps around at 2^32.
    pub fn set(&mut self, value: T) -> (previous: T)
        ensures
            previous == old(self).value(),
            final(self).value() == value,
            final(self).generation() == if old(self).generation() == u32::MAX {
                0u32
            } else {
                (old(self).generation() + 1) as u32
            },
    {
        self.generation = self.generation.wrapping_add(1);
        let mut previous = value;
        core::mem::swap(&mut self.value, &mut previous);
        previous
    }
}

} // verus!
