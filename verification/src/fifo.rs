//! The queue as a value: the items that wait, oldest first, and the room
//! there is.  The ring buffer's contracts are stated over this model.

use vstd::prelude::*;
use crate::turn::valid_capacity;

verus! {

/// What a bounded queue holds: `items[0]` is the next item to leave, the last
/// item is the one that entered last, and no more than `capacity` items wait
/// at once.
#[verifier::ext_equal]
pub struct Fifo<T> {
    pub items: Seq<T>,
    pub capacity: nat,
}

impl<T> Fifo<T> {
    /// The queue of the given capacity that holds nothing.
    pub open spec fn empty(capacity: nat) -> Self {
        Fifo { items: Seq::empty(), capacity }
    }

    /// The capacity is a power of two and is not exceeded.
    pub open spec fn valid(self) -> bool {
        &&& valid_capacity(self.capacity as int)
        &&& self.items.len() <= self.capacity
    }

    pub open spec fn len(self) -> nat {
        self.items.len()
    }

    pub open spec fn is_empty(self) -> bool {
        self.items.len() == 0
    }

    pub open spec fn is_full(self) -> bool {
        self.items.len() >= self.capacity
    }

    /// The queue after an attempt to push `value`: the value joins at the
    /// back unless the queue is full, in which case nothing changes.
    pub open spec fn push(self, value: T) -> Self {
        if self.is_full() {
            self
        } else {
            Fifo { items: self.items.push(value), capacity: self.capacity }
        }
    }

    /// The item that a pop hands out: the oldest, if there is any.
    pub open spec fn front(self) -> Option<T> {
        if self.is_empty() {
            None
        } else {
            Some(self.items[0])
        }
    }

    /// The queue after a pop: the oldest item is gone, if there was any.
    pub open spec fn pop(self) -> Self {
        if self.is_empty() {
            self
        } else {
            Fifo { items: self.items.drop_first(), capacity: self.capacity }
        }
    }

    /// The queue after one push for each of `values`, in order.
    pub open spec fn push_all(self, values: Seq<T>) -> Self
        decreases values.len(),
    {
        if values.len() == 0 {
            self
        } else {
            self.push_all(values.drop_last()).push(values.last())
        }
    }

    /// Whether each of the pushes of `push_all` finds room.
    pub open spec fn accepts_all(self, values: Seq<T>) -> bool
        decreases values.len(),
    {
        if values.len() == 0 {
            true
        } else {
            self.accepts_all(values.drop_last()) && !self.push_all(values.drop_last()).is_full()
        }
    }

    /// The queue after `count` pops.
    pub open spec fn pop_times(self, count: nat) -> Self
        decreases count,
    {
        if count == 0 {
            self
        } else {
            self.pop_times((count - 1) as nat).pop()
        }
    }

    /// What `count` pops hand out, in order.
    pub open spec fn popped(self, count: nat) -> Seq<Option<T>>
        decreases count,
    {
        if count == 0 {
            Seq::empty()
        } else {
            self.popped((count - 1) as nat).push(self.pop_times((count - 1) as nat).front())
        }
    }

    /// The queue after one call.
    pub open spec fn apply(self, call: Call<T>) -> Self {
        match call {
            Call::Push(value) => self.push(value),
            Call::Pop => self.pop(),
        }
    }

    /// The queue after the calls of `calls`, in order.
    pub open spec fn run(self, calls: Seq<Call<T>>) -> Self
        decreases calls.len(),
    {
        if calls.len() == 0 {
            self
        } else {
            self.run(calls.drop_last()).apply(calls.last())
        }
    }

    /// How many of the pushes among `calls` find room.
    pub open spec fn accepted(self, calls: Seq<Call<T>>) -> nat
        decreases calls.len(),
    {
        if calls.len() == 0 {
            0
        } else {
            let before = self.run(calls.drop_last());
            let this: nat = if calls.last() is Push && !before.is_full() {
                1
            } else {
                0
            };
            self.accepted(calls.drop_last()) + this
        }
    }

    /// How many of the pops among `calls` hand out an item.
    pub open spec fn served(self, calls: Seq<Call<T>>) -> nat
        decreases calls.len(),
    {
        if calls.len() == 0 {
            0
        } else {
            let before = self.run(calls.drop_last());
            let this: nat = if calls.last() is Pop && !before.is_empty() {
                1
            } else {
                0
            };
            self.served(calls.drop_last()) + this
        }
    }
}

/// One call on a queue.
pub enum Call<T> {
    Push(T),
    Pop,
}

} // verus!
