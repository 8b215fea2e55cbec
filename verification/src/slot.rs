//! One cell of the ring: room for a single item and the sequence marker that
//! says whose turn it is to touch it.

use vstd::prelude::*;
use crate::turn::{write_marker, read_marker, next_lap_marker, marker_for_write, marker_for_read};

verus! {

/// A storage cell for at most one item.
///
/// The marker cycles through two states per lap.  While it is the write
/// marker of a turn the cell is free and belongs to that turn's writer; once
/// the writer has stored its item and published, the marker is the read marker
/// of the same turn and the item belongs to that turn's reader; once the
/// reader has taken the item and released the cell, the marker is the write
/// marker of the turn one lap later.
pub struct Slot<T> {
    sequence: u64,
    value: Option<T>,
}

impl<T> Slot<T> {
    /// The slot's sequence marker.
    pub closed spec fn sequence(&self) -> u64 {
        self.sequence
    }

    /// The item in the slot, if one is stored.
    pub closed spec fn payload(&self) -> Option<T> {
        self.value
    }

    /// The slot is free and waits for the writer of `turn`.
    pub open spec fn writable_on(&self, turn: u64) -> bool {
        self.sequence() == write_marker(turn)
    }

    /// The slot was published by the writer of `turn` and waits for that
    /// turn's reader.
    pub open spec fn readable_on(&self, turn: u64) -> bool {
        self.sequence() == read_marker(turn)
    }

    /// The slot shows a write marker: it is free, or being written.
    pub open spec fn in_write_phase(&self) -> bool {
        self.sequence() % 2 == 0
    }

    /// The slot shows a read marker: it is published, or being read.
    pub open spec fn in_read_phase(&self) -> bool {
        self.sequence() % 2 == 1
    }

    /// An empty slot that waits for the writer of turn 0.
    pub fn init() -> (slot: Self)
        ensures
            slot.writable_on(0),
            slot.payload().is_none(),
    {
        Slot::starting_at(0)
    }

    /// An empty slot that waits for the writer of `turn`: the state in which
    /// the slot at index `turn` of a new ring starts its first lap.
    pub fn starting_at(turn: u64) -> (slot: Self)
        ensures
            slot.writable_on(turn),
            slot.payload().is_none(),
    {
        Slot { sequence: marker_for_write(turn), value: None }
    }

    /// Whether the slot is free for the writer of `expected_turn`.  On `true`
    /// that writer alone may store an item and publish.
    pub fn try_claim_for_write(&self, expected_turn: u64) -> (claimed: bool)
        ensures
            claimed == self.writable_on(expected_turn),
    {
        self.sequence == marker_for_write(expected_turn)
    }

    /// Stores `value` in a slot claimed for writing.  The marker does not
    /// move: readers do not see the item before `publish`.
    pub fn write(&mut self, value: T)
        requires
            old(self).in_write_phase(),
        ensures
            final(self).sequence() == old(self).sequence(),
            final(self).payload() == Some(value),
    {
        self.value = Some(value);
    }

    /// Hands a written slot to its reader: the marker moves from the write
    /// marker of the writer's turn to the read marker of that turn.
    pub fn publish(&mut self)
        requires
            old(self).in_write_phase(),
            old(self).payload().is_some(),
        ensures
            final(self).sequence() == old(self).sequence() + 1,
            final(self).payload() == old(self).payload(),
    {
        self.sequence = self.sequence + 1;
    }

    /// Whether the slot holds the item published on `expected_turn`.  On
    /// `true` the reader of that turn alone may take the item and release.
    pub fn try_claim_for_read(&self, expected_turn: u64) -> (claimed: bool)
        ensures
            claimed == self.readable_on(expected_turn),
    {
        self.sequence == marker_for_read(expected_turn)
    }

    /// Moves the item out of a slot claimed for reading and leaves the slot
    /// vacant.  The marker does not move: writers do not see the slot as free
    /// before `release_for_next_lap`.
    pub fn take(&mut self) -> (value: Option<T>)
        requires
            old(self).in_read_phase(),
        ensures
            value == old(self).payload(),
            final(self).sequence() == old(self).sequence(),
            final(self).payload().is_none(),
    {
        self.value.take()
    }

    /// Frees a slot whose item was taken: the marker moves from the read
    /// marker of the reader's turn to the write marker of the turn `capacity`
    /// turns later, the next one that this slot serves.
    pub fn release_for_next_lap(&mut self, capacity: u64)
        requires
            old(self).in_read_phase(),
            old(self).payload().is_none(),
        ensures
            final(self).sequence() == next_lap_marker(old(self).sequence(), capacity),
            final(self).payload().is_none(),
    {
        self.sequence = self.sequence.wrapping_sub(1).wrapping_add(capacity).wrapping_add(capacity);
    }
}

} // verus!
