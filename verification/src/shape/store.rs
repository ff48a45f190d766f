//! Append-only stores and the handles they issue.

use vstd::prelude::*;

verus! {

/// The kinds of entity that a shape holds, one store for each.
#[derive(Clone, Copy, Debug, PartialEq, Eq, Structural, Hash)]
pub enum Kind {
    Point,
    Curve,
    Surface,
    Vertex,
    Edge,
    Cycle,
    Face,
}

/// A stable reference to one slot of one store.
///
/// A handle names the shape and the kind of the store that issued it and the
/// position of its slot. Two handles are equal exactly when they address the
/// same slot of the same store; what the slots hold plays no part.
#[derive(Clone, Copy, Debug, PartialEq, Eq, Structural, Hash)]
pub struct Handle {
    pub shape: u64,
    pub kind: Kind,
    pub index: usize,
}

/// An ordered sequence of slots, each holding one payload.
///
/// Payloads are only ever appended, so the position of a slot never changes
/// and a handle, once issued, addresses its slot for as long as the store
/// lives. The view of a store is the sequence of its payloads in the order of
/// insertion.
pub struct Store<T> {
    shape: u64,
    kind: Kind,
    slots: Vec<T>,
}

impl<T> View for Store<T> {
    type V = Seq<T>;

    closed spec fn view(&self) -> Seq<T> {
        self.slots@
    }
}

impl<T> Store<T> {
    /// The identity of the shape that this store belongs to.
    pub closed spec fn shape(&self) -> u64 {
        self.shape
    }

    /// The kind of entity that this store holds.
    pub closed spec fn kind(&self) -> Kind {
        self.kind
    }

    /// The handle of the slot at position `index`.
    pub open spec fn handle_at(&self, index: int) -> Handle {
        Handle { shape: self.shape(), kind: self.kind(), index: index as usize }
    }

    /// Whether this store has issued `handle`.
    pub open spec fn issued(&self, handle: Handle) -> bool {
        &&& handle.shape == self.shape()
        &&& handle.kind == self.kind()
        &&& handle.index < self@.len()
    }

    /// An empty store for the given shape and kind.
    pub fn new(shape: u64, kind: Kind) -> (r: Store<T>)
        ensures
            r@ == Seq::<T>::empty(),
            r.shape() == shape,
            r.kind() == kind,
    {
        Store { shape, kind, slots: Vec::new() }
    }

    /// The number of slots.
    pub fn len(&self) -> (r: usize)
        ensures
            r == self@.len(),
    {
        self.slots.len()
    }

    /// Whether the store has no slot yet.
    pub fn is_empty(&self) -> (r: bool)
        ensures
            r == (self@.len() == 0),
    {
        self.slots.len() == 0
    }

    /// Appends a payload in a new slot and returns the handle of that slot.
    pub fn insert(&mut self, payload: T) -> (r: Handle)
        ensures
            final(self)@ == old(self)@.push(payload),
            final(self).shape() == old(self).shape(),
            final(self).kind() == old(self).kind(),
            r == old(self).handle_at(old(self)@.len() as int),
            r.index == old(self)@.len(),
            final(self)@.len() <= usize::MAX,
            final(self).issued(r),
            !old(self).issued(r),
    {
        let index: usize = self.slots.len();
        self.slots.push(payload);
        let _: usize = self.slots.len();
        Handle { shape: self.shape, kind: self.kind, index }
    }

    /// Decides whether this store has issued `handle`.
    pub fn contains(&self, handle: &Handle) -> (r: bool)
        ensures
            r == self.issued(*handle),
    {
        handle.shape == self.shape && handle.kind == self.kind && handle.index < self.slots.len()
    }

    /// The handle of the slot at position `index`.
    pub fn handle(&self, index: usize) -> (r: Handle)
        ensures
            r == self.handle_at(index as int),
    {
        Handle { shape: self.shape, kind: self.kind, index }
    }

    /// The payload at position `index`.
    pub fn at(&self, index: usize) -> (r: &T)
        requires
            index < self@.len(),
        ensures
            *r == self@[index as int],
    {
        &self.slots[index]
    }

    /// The payload that `handle` addresses, or `None` where this store has not
    /// issued the handle.
    pub fn get(&self, handle: &Handle) -> (r: Option<&T>)
        ensures
            r.is_some() == self.issued(*handle),
            r.is_some() ==> *r.unwrap() == self@[handle.index as int],
    {
        if self.contains(handle) {
            Some(&self.slots[handle.index])
        } else {
            None
        }
    }

    /// Replaces the payload that `handle` addresses and returns `true`; where
    /// this store has not issued the handle, changes nothing and returns `false`.
    pub fn set(&mut self, handle: &Handle, payload: T) -> (r: bool)
        ensures
            r == old(self).issued(*handle),
            r ==> final(self)@ == old(self)@.update(handle.index as int, payload),
            !r ==> final(self)@ == old(self)@,
            final(self).shape() == old(self).shape(),
            final(self).kind() == old(self).kind(),
    {
        if self.contains(handle) {
            self.slots.set(handle.index, payload);
            true
        } else {
            false
        }
    }

    /// Replaces all payloads at once by as many others.
    pub(crate) fn replace_all(&mut self, payloads: Vec<T>)
        requires
            payloads@.len() == old(self)@.len(),
        ensures
            final(self)@ == payloads@,
            final(self).shape() == old(self).shape(),
            final(self).kind() == old(self).kind(),
    {
        self.slots = payloads;
    }

    /// Drops the slots from position `len` on.
    pub(crate) fn truncate(&mut self, len: usize)
        requires
            len <= old(self)@.len(),
        ensures
            final(self)@ == old(self)@.subrange(0, len as int),
            final(self).shape() == old(self).shape(),
            final(self).kind() == old(self).kind(),
    {
        self.slots.truncate(len);
    }

    /// A pass over the slots in the order of insertion.
    pub fn iter(&self) -> (r: Iter<'_, T>)
        ensures
            r.store() == self,
            r.position() == 0,
    {
        Iter { store: self, position: 0 }
    }
}

/// One pass over the slots of a store, from the first to the last.
///
/// Each call of `next` hands out the handle and the payload of one slot; a pass
/// cannot be started again, and ends when every slot has been handed out.
pub struct Iter<'a, T> {
    store: &'a Store<T>,
    position: usize,
}

impl<'a, T> Iter<'a, T> {
    /// The store that this pass runs over.
    pub closed spec fn store(&self) -> &Store<T> {
        self.store
    }

    /// The number of slots handed out so far.
    pub closed spec fn position(&self) -> int {
        self.position as int
    }

    /// The handle and the payload of the next slot, or `None` at the end.
    pub fn next(&mut self) -> (r: Option<(Handle, &'a T)>)
        ensures
            final(self).store() == old(self).store(),
            old(self).position() < old(self).store()@.len() ==> {
                &&& r.is_some()
                &&& r.unwrap().0 == old(self).store().handle_at(old(self).position())
                &&& *r.unwrap().1 == old(self).store()@[old(self).position()]
                &&& final(self).position() == old(self).position() + 1
            },
            old(self).position() >= old(self).store()@.len() ==> {
                &&& r.is_none()
                &&& final(self).position() == old(self).position()
            },
    {
        if self.position < self.store.slots.len() {
            let index: usize = self.position;
            self.position = index + 1;
            Some((self.store.handle(index), &self.store.slots[index]))
        } else {
            None
        }
    }
}

} // verus!
