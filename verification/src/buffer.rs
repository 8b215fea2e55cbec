//! The ring buffer: a fixed array of slots and the two turn counters that
//! hand out reservations to writers and readers.

use vstd::prelude::*;
use crate::fifo::Fifo;
use crate::slot::Slot;
use crate::turn::{advance, distance, valid_capacity, slot_index, is_valid_capacity, index_for,
    turns_between, lemma_index_offset, lemma_marker_parity, lemma_next_lap, lemma_capacity_divides_range};

verus! {

/// A push found the queue holding as many items as it has slots.
#[derive(Debug, Clone, Copy, PartialEq, Eq)]
pub struct QueueFull;

/// A queue was asked for with a capacity that is zero or no power of two.
#[derive(Debug, Clone, Copy, PartialEq, Eq)]
pub struct InvalidCapacity;

/// A bounded first-in first-out queue over a ring of slots, for a single
/// owner.
///
/// `tail` is the next turn offered to a writer, `head` the next turn offered
/// to a reader; both only ever step forward and wrap at the word boundary.
/// The turns from `head` up to `tail` are the items that wait, each in the
/// slot its turn maps to.
///
/// Every call has the buffer to itself, so a claim is never lost to another
/// caller and no call ever retries: `push` and `pop` go through the steps of
/// the reservation protocol once, in order.
pub struct Buffer<T> {
    buf: Vec<Slot<T>>,
    head: u64,
    tail: u64,
    size: usize,
}

impl<T> View for Buffer<T> {
    type V = Fifo<T>;

    /// The items that wait, oldest first, and the capacity.
    closed spec fn view(&self) -> Fifo<T> {
        Fifo {
            items: Seq::new(
                distance(self.head, self.tail) as nat,
                |offset: int| self.slot_at(offset).payload().unwrap(),
            ),
            capacity: self.size as nat,
        }
    }
}

impl<T> Buffer<T> {
    /// The slot that serves the turn `offset` places after `head`.
    spec fn slot_at(&self, offset: int) -> Slot<T> {
        self.buf@[slot_index(advance(self.head, offset as u64), self.size as int)]
    }

    /// The slot `offset` places after `head` is at rest in the state its turn
    /// calls for: published with an item if the turn lies before `tail`,
    /// free and empty if not.
    spec fn settled(&self, offset: int) -> bool {
        let turn = advance(self.head, offset as u64);
        let slot = self.slot_at(offset);
        if offset < distance(self.head, self.tail) {
            slot.readable_on(turn) && slot.payload().is_some()
        } else {
            slot.writable_on(turn) && slot.payload().is_none()
        }
    }

    /// The queue's invariant: a valid capacity, one slot per place, no more
    /// turns outstanding than there are slots, and every slot settled.
    pub closed spec fn wf(&self) -> bool {
        &&& valid_capacity(self.size as int)
        &&& self.buf@.len() == self.size
        &&& distance(self.head, self.tail) <= self.size
        &&& forall|offset: int| 0 <= offset < self.size ==> #[trigger] self.settled(offset)
    }

    /// The next turn offered to a reader.
    pub closed spec fn head_turn(&self) -> u64 {
        self.head
    }

    /// The next turn offered to a writer.
    pub closed spec fn tail_turn(&self) -> u64 {
        self.tail
    }

    /// The slots, by index.
    pub closed spec fn slots(&self) -> Seq<Slot<T>> {
        self.buf@
    }

    /// A well-formed queue never holds more than its capacity, its capacity
    /// is a power of two, it has one slot for each place, and the items
    /// that wait are as many as there are turns from `head` up to `tail`.
    pub proof fn lemma_view_valid(&self)
        requires
            self.wf(),
        ensures
            self@.valid(),
            self.slots().len() == self@.capacity,
            self@.len() == distance(self.head_turn(), self.tail_turn()),
    {
    }

    /// Every slot is at rest in the state its turn calls for.  The slot of
    /// the turn `offset` places after `head` holds the item at `offset` and
    /// shows that turn's read marker, if so many items wait; if not, it is
    /// vacant and shows that turn's write marker.
    pub proof fn lemma_slots_settled(&self, offset: int)
        requires
            self.wf(),
            0 <= offset < self@.capacity,
        ensures
            ({
                let turn = advance(self.head_turn(), offset as u64);
                let index = slot_index(turn, self@.capacity as int);
                let slot = self.slots()[index];
                &&& 0 <= index < self.slots().len()
                &&& offset < self@.len() ==> slot.readable_on(turn) && slot.payload() == Some(
                    self@.items[offset],
                )
                &&& offset >= self@.len() ==> slot.writable_on(turn) && slot.payload().is_none()
            }),
    {
        assert(self.settled(offset));
        lemma_index_offset(self.head, offset as u64, self.size as int);
    }

    /// Makes an empty queue of `size` slots.  Fails, making nothing, unless
    /// `size` is a power of two.
    pub fn new(size: usize) -> (made: Result<Self, InvalidCapacity>)
        ensures
            made.is_ok() == valid_capacity(size as int),
            made matches Ok(buffer) ==> buffer.wf() && buffer@ == Fifo::<T>::empty(size as nat)
                && buffer.head_turn() == 0 && buffer.tail_turn() == 0,
    {
        if !is_valid_capacity(size) {
            return Err(InvalidCapacity);
        }
        let mut buf: Vec<Slot<T>> = Vec::new();
        let mut filled: usize = 0;
        while filled < size
            invariant
                filled <= size,
                buf@.len() == filled,
                forall|i: int| 0 <= i < filled ==> (#[trigger] buf@[i]).writable_on(i as u64)
                    && buf@[i].payload().is_none(),
            decreases size - filled,
        {
            buf.push(Slot::starting_at(filled as u64));
            filled = filled + 1;
        }
        let buffer = Buffer { buf, head: 0, tail: 0, size };
        proof {
            assert forall|offset: int| 0 <= offset < size implies #[trigger] buffer.settled(
                offset,
            ) by {
                lemma_index_offset(0, offset as u64, size as int);
            }
            assert(buffer@.items =~= Seq::<T>::empty());
        }
        Ok(buffer)
    }

    /// The number of slots.
    pub fn capacity(&self) -> (capacity: usize)
        ensures
            capacity == self@.capacity,
    {
        self.size
    }

    /// The number of items that wait.  The figure is exact, since the
    /// caller holds the buffer; of a ring in shared memory the same
    /// difference of counters is only a snapshot, which may be stale as soon
    /// as it is read.
    pub fn len(&self) -> (len: usize)
        requires
            self.wf(),
        ensures
            len == self@.len(),
    {
        turns_between(self.head, self.tail) as usize
    }

    /// Whether no item waits.  Exact here, advisory on a ring in shared
    /// memory, as `len` is.
    pub fn is_empty(&self) -> (empty: bool)
        requires
            self.wf(),
        ensures
            empty == self@.is_empty(),
    {
        self.head == self.tail
    }

    /// Whether every slot holds an item.  Exact here, advisory on a ring in
    /// shared memory, as `len` is.
    pub fn is_full(&self) -> (full: bool)
        requires
            self.wf(),
        ensures
            full == self@.is_full(),
    {
        turns_between(self.head, self.tail) as usize == self.size
    }

    /// Appends `value` unless the queue is full.
    ///
    /// The writer's turn is `tail`.  It claims the slot of that turn, steps
    /// `tail` on, stores the value and publishes the slot.  The claim fails
    /// exactly when the slot still holds the item of the turn one lap before,
    /// which is when `tail - head` equals the capacity: then nothing changes
    /// and the value is dropped.
    pub fn push(&mut self, value: T) -> (pushed: Result<(), QueueFull>)
        requires
            old(self).wf(),
        ensures
            final(self).wf(),
            final(self)@ == old(self)@.push(value),
            pushed.is_ok() == !old(self)@.is_full(),
            final(self).head_turn() == old(self).head_turn(),
            final(self).tail_turn() == if pushed.is_ok() {
                advance(old(self).tail_turn(), 1)
            } else {
                old(self).tail_turn()
            },
    {
        let turn = self.tail;
        let index = index_for(turn, self.size);
        let ghost len = distance(self.head, self.tail);
        proof {
            lemma_index_offset(self.head, len, self.size as int);
            lemma_index_offset(self.head, 0, self.size as int);
            lemma_marker_parity(self.head);
            lemma_marker_parity(turn);
            assert(self.settled(0));
            if len < self.size {
                assert(self.settled(len as int));
            }
        }
        if !self.buf[index].try_claim_for_write(turn) {
            return Err(QueueFull);
        }
        self.tail = turn.wrapping_add(1);
        self.buf[index].write(value);
        self.buf[index].publish();
        proof {
            assert forall|offset: int| 0 <= offset < self.size implies #[trigger] self.settled(
                offset,
            ) by {
                lemma_index_offset(self.head, offset as u64, self.size as int);
                assert(old(self).settled(offset));
            }
            assert forall|offset: int| 0 <= offset < len implies self.slot_at(offset).payload()
                == old(self).slot_at(offset).payload() by {
                lemma_index_offset(self.head, offset as u64, self.size as int);
            }
            assert(self@.items =~= old(self)@.items.push(value));
        }
        Ok(())
    }

    /// Removes and returns the oldest item, or returns `None` if there is
    /// none.
    ///
    /// The reader's turn is `head`.  It claims the slot of that turn, steps
    /// `head` on, takes the item and frees the slot for the turn one lap
    /// later.  The claim fails exactly when the slot has not been published
    /// for this turn, which is when `head` equals `tail`.
    pub fn pop(&mut self) -> (popped: Option<T>)
        requires
            old(self).wf(),
        ensures
            final(self).wf(),
            final(self)@ == old(self)@.pop(),
            popped == old(self)@.front(),
            final(self).tail_turn() == old(self).tail_turn(),
            final(self).head_turn() == if popped.is_some() {
                advance(old(self).head_turn(), 1)
            } else {
                old(self).head_turn()
            },
    {
        let turn = self.head;
        let index = index_for(turn, self.size);
        let ghost len = distance(self.head, self.tail);
        proof {
            lemma_capacity_divides_range(self.size as int);
            lemma_index_offset(turn, 0, self.size as int);
            lemma_index_offset(turn, self.size as u64, self.size as int);
            lemma_marker_parity(turn);
            lemma_next_lap(turn, self.size as u64);
            assert(self.settled(0));
        }
        if !self.buf[index].try_claim_for_read(turn) {
            return None;
        }
        self.head = turn.wrapping_add(1);
        let popped = self.buf[index].take();
        self.buf[index].release_for_next_lap(self.size as u64);
        proof {
            assert forall|offset: int| 0 <= offset < self.size implies #[trigger] self.settled(
                offset,
            ) by {
                lemma_index_offset(turn, (offset + 1) as u64, self.size as int);
                if offset + 1 < self.size {
                    assert(old(self).settled(offset + 1));
                }
            }
            assert forall|offset: int| 0 <= offset < len - 1 implies self.slot_at(
                offset,
            ).payload() == old(self).slot_at(offset + 1).payload() by {
                lemma_index_offset(turn, (offset + 1) as u64, self.size as int);
            }
            assert(self@.items =~= old(self)@.items.drop_first());
        }
        popped
    }
}

} // verus!
