//! A bounded first-in, first-out buffer laid out as a ring.
//!
//! The items live in one block of at most `capacity` slots. `head` is the slot
//! of the oldest item, and the items follow it in order, wrapping round to
//! slot zero at the end of the block. The block is filled slot by slot before
//! anything wraps, so a buffer that never fills never pays for its whole
//! capacity.

use vstd::prelude::*;

verus! {

/// A queue of at most `capacity` items, oldest first.
pub struct BoundedBuffer<T: Copy> {
    slots: Vec<T>,
    capacity: usize,
    head: usize,
    len: usize,
}

impl<T: Copy> View for BoundedBuffer<T> {
    type V = Seq<T>;

    /// The items held, oldest first.
    closed spec fn view(&self) -> Seq<T> {
        Seq::new(self.len as nat, |i: int| self.slots@[self.slot_of(i)])
    }
}

impl<T: Copy> BoundedBuffer<T> {
    /// The slot that holds the `i`-th oldest item.
    spec fn slot_of(&self, i: int) -> int {
        if self.head + i < self.capacity {
            self.head + i
        } else {
            self.head + i - self.capacity
        }
    }

    /// The layout is consistent: the block never outgrows the capacity, every
    /// item lies in an allocated slot, and until the block is whole the items
    /// end where the block ends.
    pub closed spec fn laid_out(&self) -> bool {
        &&& self.slots@.len() <= self.capacity
        &&& self.len <= self.slots@.len()
        &&& self.head < self.capacity || self.head == 0
        &&& self.slots@.len() < self.capacity ==> self.head + self.len == self.slots@.len()
    }

    /// The most items the buffer will hold.
    pub closed spec fn spec_capacity(&self) -> usize {
        self.capacity
    }

    /// What every operation expects and leaves behind.
    pub open spec fn well_formed(&self) -> bool {
        &&& self.laid_out()
        &&& self@.len() <= self.spec_capacity()
    }

    /// An empty buffer for up to `capacity` items. Nothing is allocated until
    /// the first push.
    pub fn new(capacity: usize) -> (buffer: Self)
        ensures
            buffer.well_formed(),
            buffer.spec_capacity() == capacity,
            buffer@ == Seq::<T>::empty(),
    {
        let buffer = BoundedBuffer { slots: Vec::new(), capacity, head: 0, len: 0 };
        assert(buffer@ =~= Seq::<T>::empty());
        buffer
    }

    /// An empty buffer for up to `capacity` items, with the whole block
    /// reserved at once where the allocator grants it. It holds and returns
    /// exactly what a buffer made by [`BoundedBuffer::new`] would.
    pub fn new_preallocated(capacity: usize) -> (buffer: Self)
        ensures
            buffer.well_formed(),
            buffer.spec_capacity() == capacity,
            buffer@ == Seq::<T>::empty(),
    {
        let mut slots: Vec<T> = Vec::new();
        let _ = slots.try_reserve(capacity);
        let buffer = BoundedBuffer { slots, capacity, head: 0, len: 0 };
        assert(buffer@ =~= Seq::<T>::empty());
        buffer
    }

    /// The most items the buffer will hold.
    #[verifier::when_used_as_spec(spec_capacity)]
    pub fn capacity(&self) -> (capacity: usize)
        ensures
            capacity == self.spec_capacity(),
    {
        self.capacity
    }

    /// How many items the buffer holds now.
    pub fn len(&self) -> (len: usize)
        requires
            self.well_formed(),
        ensures
            len == self@.len(),
    {
        self.len
    }

    /// Whether a push would be turned away.
    pub fn is_full(&self) -> (full: bool)
        requires
            self.well_formed(),
        ensures
            full == (self@.len() == self.spec_capacity()),
    {
        self.len == self.capacity
    }

    /// Appends `item` behind the newest item if there is room. A full buffer
    /// hands the item back and stays as it was.
    pub fn push(&mut self, item: T) -> (outcome: Result<(), T>)
        requires
            old(self).well_formed(),
        ensures
            final(self).well_formed(),
            final(self).spec_capacity() == old(self).spec_capacity(),
            old(self)@.len() < old(self).spec_capacity() ==> outcome == Ok::<(), T>(())
                && final(self)@ == old(self)@.push(item),
            old(self)@.len() >= old(self).spec_capacity() ==> outcome == Err::<(), T>(item)
                && final(self)@ == old(self)@,
    {
        if self.len >= self.capacity {
            return Err(item);
        }
        if self.slots.len() < self.capacity {
            self.slots.push(item);
        } else {
            let room: usize = self.capacity - self.len;
            let tail: usize = if self.head < room {
                self.head + self.len
            } else {
                self.head - room
            };
            self.slots.set(tail, item);
        }
        self.len = self.len + 1;
        assert(self@ =~= old(self)@.push(item));
        Ok(())
    }

    /// The oldest item, left in place.
    pub fn peek(&self) -> (front: Option<&T>)
        requires
            self.well_formed(),
        ensures
            self@.len() == 0 ==> front is None,
            self@.len() > 0 ==> front == Some(&self@[0]),
    {
        if self.len > 0 {
            Some(&self.slots[self.head])
        } else {
            None
        }
    }

    /// Removes the oldest item and returns it.
    pub fn pop(&mut self) -> (front: Option<T>)
        requires
            old(self).well_formed(),
        ensures
            final(self).well_formed(),
            final(self).spec_capacity() == old(self).spec_capacity(),
            old(self)@.len() == 0 ==> front is None && final(self)@ == old(self)@,
            old(self)@.len() > 0 ==> front == Some(old(self)@[0]) && final(self)@ == old(
                self,
            )@.skip(1),
    {
        if self.len == 0 {
            return None;
        }
        let front = self.slots[self.head];
        self.head = if self.head + 1 == self.capacity {
            0
        } else {
            self.head + 1
        };
        self.len = self.len - 1;
        assert(self@ =~= old(self)@.skip(1));
        Some(front)
    }
}

} // verus!
