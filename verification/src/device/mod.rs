//! What the framework keeps of the GPU device: the extensions it found, and
//! who owns a resource.

pub mod extensions;
pub mod features;
pub mod setup;

use vstd::prelude::*;

verus! {

/// Unique ID identifying the owner of a resource.
///
/// This is used in cold paths for verifying ownership of a resource. Current users include graphs
/// and upload/download schedulers.
#[derive(Copy, Clone, Debug, PartialEq, Eq, Structural)]
pub struct OwnerId(pub u16);

/// Hands out owner IDs, each once.
pub struct OwnerIds {
    next: u32,
}

impl OwnerIds {
    /// The number of the ID that is handed out next.
    pub closed spec fn next(&self) -> u32 {
        self.next
    }

    /// A source that starts with the ID 1; the ID 0 stands for "no owner".
    pub fn new() -> (ids: OwnerIds)
        ensures
            ids.next() == 1,
    {
        OwnerIds { next: 1 }
    }

    /// The next ID, or none once they are used up. Every ID is higher than
    /// the ones before it.
    pub fn new_id(&mut self) -> (id: Option<OwnerId>)
        ensures
            id is Some <==> old(self).next() <= u16::MAX,
            id matches Some(owner) ==> owner.0 == old(self).next() && final(self).next() == old(
                self,
            ).next() + 1,
            id is None ==> final(self).next() == old(self).next(),
    {
        if self.next > 0xffff {
            return None;
        }
        let value = self.next as u16;
        self.next = self.next + 1;
        Some(OwnerId(value))
    }
}

/// Why a resource could not be acquired or released.
#[derive(Copy, Clone, Debug, PartialEq, Eq, Structural)]
pub enum OwnershipError {
    /// The resource is owned by this other owner.
    OwnedBy(OwnerId),
    /// The resource is not owned.
    NotOwned,
}

/// The owner of a resource, if it has one, and the state that the owner
/// left it in.
pub struct Ownership<T> {
    owner: Option<OwnerId>,
    state: T,
}

impl<T> Ownership<T> {
    /// The current owner.
    pub closed spec fn spec_owner(&self) -> Option<OwnerId> {
        self.owner
    }

    /// The state that the last owner left.
    pub closed spec fn state(&self) -> T {
        self.state
    }

    /// An ownership without owner.
    pub fn new(state: T) -> (ownership: Ownership<T>)
        ensures
            ownership.spec_owner() is None,
            ownership.state() == state,
    {
        Ownership { owner: None, state }
    }

    pub fn owner(&self) -> (owner: Option<OwnerId>)
        ensures
            owner == self.spec_owner(),
    {
        self.owner
    }

    /// Makes `owner` the owner, unless somebody else is; hands out the
    /// state.
    pub fn acquire(&mut self, owner: OwnerId) -> (result: Result<&T, OwnershipError>)
        ensures
            final(self).state() == old(self).state(),
            result is Ok <==> (old(self).spec_owner() matches Some(o) ==> o == owner),
            result matches Ok(state) ==> *state == old(self).state() && final(self).spec_owner() == Some(
                owner,
            ),
            result matches Err(e) ==> e == OwnershipError::OwnedBy(old(self).spec_owner()->0)
                && final(self).spec_owner() == old(self).spec_owner(),
    {
        match self.owner {
            Some(o) => {
                if o.0 != owner.0 {
                    return Err(OwnershipError::OwnedBy(o));
                }
            },
            None => {
                self.owner = Some(owner);
            },
        }
        Ok(&self.state)
    }

    /// Ends the ownership of `owner`, and takes the new state if one is
    /// given.
    pub fn release(&mut self, owner: OwnerId, state: Option<T>) -> (result: Result<(), OwnershipError>)
        ensures
            result is Ok <==> old(self).spec_owner() == Some(owner),
            result is Ok ==> final(self).spec_owner() is None && final(self).state() == match state {
                Some(s) => s,
                None => old(self).state(),
            },
            result matches Err(e) ==> {
                &&& final(self).spec_owner() == old(self).spec_owner()
                &&& final(self).state() == old(self).state()
                &&& e == match old(self).spec_owner() {
                    Some(o) => OwnershipError::OwnedBy(o),
                    None => OwnershipError::NotOwned,
                }
            },
    {
        match self.owner {
            Some(o) => {
                if o.0 != owner.0 {
                    return Err(OwnershipError::OwnedBy(o));
                }
            },
            None => {
                return Err(OwnershipError::NotOwned);
            },
        }
        self.owner = None;
        match state {
            Some(s) => {
                self.state = s;
            },
            None => {},
        }
        Ok(())
    }
}

/// The index of a family of queues of the device.
#[derive(Copy, Clone, Debug, PartialEq, Eq, Structural)]
pub struct QueueFamily {
    index: u32,
}

impl QueueFamily {
    pub closed spec fn index(self) -> u32 {
        self.index
    }

    pub fn new(index: u32) -> (family: QueueFamily)
        ensures
            family.index() == index,
    {
        QueueFamily { index }
    }

    pub fn as_u32(self) -> (index: u32)
        ensures
            index == self.index(),
    {
        self.index
    }
}

} // verus!
