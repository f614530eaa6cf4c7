//! Identifiers for connected players, live object instances and object kinds,
//! and the allocators that mint them.
//!
//! Each allocator hands out strictly increasing values, so no two live
//! entities of the same kind ever share an id within one allocator's
//! lifetime. The allocators are plain owned values held by the component
//! that creates entities.

use vstd::prelude::*;

verus! {

/// Identifies one connected player.
#[derive(Clone, Copy, Debug, Hash, PartialEq, Eq, Structural)]
pub struct ClientId(pub u32);

/// Identifies one live instance of a network object.
#[derive(Clone, Copy, Debug, Hash, PartialEq, Eq, Structural)]
pub struct ObjectId(pub u32);

/// Identifies an object *kind* (shared by every instance of that kind),
/// stable on the wire.
#[derive(Clone, Copy, Debug, Hash, PartialEq, Eq, Structural)]
pub struct NetworkObjectId(pub u64);

/// Mints `ClientId`s in strictly increasing order.
#[derive(Clone, Copy, Debug)]
pub struct ClientIdAllocator {
    pub next: u32,
}

/// Mints `ObjectId`s in strictly increasing order.
#[derive(Clone, Copy, Debug)]
pub struct ObjectIdAllocator {
    pub next: u32,
}

/// Mints `NetworkObjectId`s in strictly increasing order.
#[derive(Clone, Copy, Debug)]
pub struct NetworkObjectIdAllocator {
    pub next: u64,
}

impl ClientId {
    /// Mint a fresh id, strictly greater than every id the same allocator
    /// returned before.
    pub fn new(allocator: &mut ClientIdAllocator) -> (r: ClientId)
        requires
            old(allocator).next < u32::MAX,
        ensures
            r.0 == old(allocator).next,
            final(allocator).next == old(allocator).next + 1,
    {
        let id = ClientId(allocator.next);
        allocator.next = allocator.next + 1;
        id
    }

    /// The raw value of the id.
    pub fn as_u32(&self) -> (r: u32)
        ensures
            r == self.0,
    {
        self.0
    }

    /// Build an id from its raw value, as read off the wire.
    pub fn from_u32(value: u32) -> (r: ClientId)
        ensures
            r.0 == value,
    {
        ClientId(value)
    }
}

impl ObjectId {
    /// Mint a fresh id, strictly greater than every id the same allocator
    /// returned before.
    pub fn new(allocator: &mut ObjectIdAllocator) -> (r: ObjectId)
        requires
            old(allocator).next < u32::MAX,
        ensures
            r.0 == old(allocator).next,
            final(allocator).next == old(allocator).next + 1,
    {
        let id = ObjectId(allocator.next);
        allocator.next = allocator.next + 1;
        id
    }

    /// The raw value of the id.
    pub fn as_u32(&self) -> (r: u32)
        ensures
            r == self.0,
    {
        self.0
    }

    /// Build an id from its raw value, as read off the wire.
    pub fn from_u32(value: u32) -> (r: ObjectId)
        ensures
            r.0 == value,
    {
        ObjectId(value)
    }
}

impl NetworkObjectId {
    /// Mint a fresh id, strictly greater than every id the same allocator
    /// returned before.
    pub fn new(allocator: &mut NetworkObjectIdAllocator) -> (r: NetworkObjectId)
        requires
            old(allocator).next < u64::MAX,
        ensures
            r.0 == old(allocator).next,
            final(allocator).next == old(allocator).next + 1,
    {
        let id = NetworkObjectId(allocator.next);
        allocator.next = allocator.next + 1;
        id
    }

    /// The raw value of the id.
    pub fn as_u64(&self) -> (r: u64)
        ensures
            r == self.0,
    {
        self.0
    }

    /// Build an id from its raw value, as read off the wire.
    pub fn from_u64(value: u64) -> (r: NetworkObjectId)
        ensures
            r.0 == value,
    {
        NetworkObjectId(value)
    }
}

impl ClientIdAllocator {
    /// An allocator that has handed out nothing yet.
    pub fn new() -> (r: ClientIdAllocator)
        ensures
            r.next == 0,
    {
        ClientIdAllocator { next: 0 }
    }
}

impl ObjectIdAllocator {
    /// An allocator that has handed out nothing yet.
    pub fn new() -> (r: ObjectIdAllocator)
        ensures
            r.next == 0,
    {
        ObjectIdAllocator { next: 0 }
    }
}

impl NetworkObjectIdAllocator {
    /// An allocator that has handed out nothing yet.
    pub fn new() -> (r: NetworkObjectIdAllocator)
        ensures
            r.next == 0,
    {
        NetworkObjectIdAllocator { next: 0 }
    }
}

} // verus!
