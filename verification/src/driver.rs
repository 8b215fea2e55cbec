//! The calls of the reservation protocol as state machines over plain words.
//!
//! A push or a pop on shared memory is a run of single accesses: read a
//! counter, read a marker, compare-and-swap a counter, write or move the
//! value, set a marker.  Here a call is a `Stage` that names its next access;
//! whoever owns the memory performs the access and hands the answer to
//! `advance`, which decides how the call goes on.  Nothing here touches
//! memory, so the same decisions serve any memory that performs each access
//! atomically.

use vstd::prelude::*;
use crate::turn::{advance, distance, index_for, marker_for_read, marker_for_write, read_marker,
    slot_index, turns_between, valid_capacity, write_marker};

verus! {

/// How a call ended.
#[derive(Debug, Clone, Copy, PartialEq, Eq)]
pub enum Outcome {
    /// The push wrote its value and published it.
    Pushed,
    /// The push found the queue full and wrote nothing.
    Refused,
    /// The pop moved a value out and released its slot.
    Popped,
    /// The pop found the queue empty.
    Missed,
}

/// One access to the shared memory of a ring.
#[derive(Debug, Clone, Copy, PartialEq, Eq)]
pub enum Access {
    /// Read `tail`; answered by `Reply::Word`.
    LoadTail,
    /// Read `head`; answered by `Reply::Word`.
    LoadHead,
    /// Read the marker of the slot at `index`; answered by `Reply::Word`.
    LoadSequence { index: usize },
    /// Read `head` and `tail` at one moment; answered by `Reply::Counters`.
    LoadCounters,
    /// Set `tail` to `new` if it is `current`; answered by `Reply::Swapped`.
    CompareTail { current: u64, new: u64 },
    /// Set `head` to `new` if it is `current`; answered by `Reply::Swapped`.
    CompareHead { current: u64, new: u64 },
    /// Write the value of the push into the slot at `index`; answered by
    /// `Reply::Done`.
    Store { index: usize },
    /// Move the value out of the slot at `index`; answered by `Reply::Done`.
    Take { index: usize },
    /// Set the marker of the slot at `index` to `marker`, after every
    /// earlier access of this call; answered by `Reply::Done`.
    StoreSequence { index: usize, marker: u64 },
    /// Nothing: the call is over.
    Return { outcome: Outcome },
}

/// What the memory answers to an access.
#[derive(Debug, Clone, Copy, PartialEq, Eq)]
pub enum Reply {
    /// The counter or marker that was read.
    Word(u64),
    /// The two counters, read at one moment.
    Counters { head: u64, tail: u64 },
    /// Whether the compare-and-swap found the expected value and set the new
    /// one.
    Swapped(bool),
    /// The write, the move or the store was performed.
    Done,
}

/// Where a call stands: each variant but `Finished` names the access that
/// comes next.
#[derive(Debug, Clone, Copy, PartialEq, Eq)]
pub enum Stage {
    /// Push: read `tail`.
    PushLoadTail,
    /// Push: read the marker of the slot of `turn`, the tail as last read.
    PushLoadSequence { turn: u64 },
    /// Push: the slot was not free; read both counters to tell a full queue
    /// from a lost race.
    PushRecheck,
    /// Push: the slot was free; try to move `tail` past `turn`.
    PushCompareTail { turn: u64 },
    /// Push: the turn is won; write the value.
    PushStore { turn: u64 },
    /// Push: the value is written; publish the slot.
    PushPublish { turn: u64 },
    /// Pop: read `head`.
    PopLoadHead,
    /// Pop: read the marker of the slot of `turn`, the head as last read.
    PopLoadSequence { turn: u64 },
    /// Pop: the slot was not published; read both counters to tell an empty
    /// queue from a lost race.
    PopRecheck,
    /// Pop: the slot was published; try to move `head` past `turn`.
    PopCompareHead { turn: u64 },
    /// Pop: the turn is won; move the value out.
    PopTake { turn: u64 },
    /// Pop: the value is out; release the slot for the next lap.
    PopRelease { turn: u64 },
    /// The call is over.
    Finished { outcome: Outcome },
}

impl Stage {
    /// The access that a call at this stage makes next, on a ring of
    /// `capacity` slots.
    pub open spec fn access_spec(self, capacity: usize) -> Access {
        match self {
            Stage::PushLoadTail => Access::LoadTail,
            Stage::PushLoadSequence { turn } => Access::LoadSequence {
                index: slot_index(turn, capacity as int) as usize,
            },
            Stage::PushRecheck => Access::LoadCounters,
            Stage::PushCompareTail { turn } => Access::CompareTail {
                current: turn,
                new: advance(turn, 1),
            },
            Stage::PushStore { turn } => Access::Store {
                index: slot_index(turn, capacity as int) as usize,
            },
            Stage::PushPublish { turn } => Access::StoreSequence {
                index: slot_index(turn, capacity as int) as usize,
                marker: read_marker(turn),
            },
            Stage::PopLoadHead => Access::LoadHead,
            Stage::PopLoadSequence { turn } => Access::LoadSequence {
                index: slot_index(turn, capacity as int) as usize,
            },
            Stage::PopRecheck => Access::LoadCounters,
            Stage::PopCompareHead { turn } => Access::CompareHead {
                current: turn,
                new: advance(turn, 1),
            },
            Stage::PopTake { turn } => Access::Take {
                index: slot_index(turn, capacity as int) as usize,
            },
            Stage::PopRelease { turn } => Access::StoreSequence {
                index: slot_index(turn, capacity as int) as usize,
                marker: write_marker(advance(turn, capacity as u64)),
            },
            Stage::Finished { outcome } => Access::Return { outcome },
        }
    }

    /// The stage that follows when the memory answers `reply` to the access
    /// of this stage.  An answer of the wrong kind, and any answer to a call
    /// that is over, changes nothing.
    pub open spec fn after(self, reply: Reply, capacity: usize) -> Stage {
        match (self, reply) {
            (Stage::PushLoadTail, Reply::Word(tail)) => Stage::PushLoadSequence { turn: tail },
            (Stage::PushLoadSequence { turn }, Reply::Word(marker)) => if marker == write_marker(
                turn,
            ) {
                Stage::PushCompareTail { turn }
            } else {
                Stage::PushRecheck
            },
            (Stage::PushRecheck, Reply::Counters { head, tail }) => if distance(head, tail)
                == capacity {
                Stage::Finished { outcome: Outcome::Refused }
            } else {
                Stage::PushLoadTail
            },
            (Stage::PushCompareTail { turn }, Reply::Swapped(won)) => if won {
                Stage::PushStore { turn }
            } else {
                Stage::PushLoadTail
            },
            (Stage::PushStore { turn }, Reply::Done) => Stage::PushPublish { turn },
            (Stage::PushPublish { turn }, Reply::Done) => Stage::Finished {
                outcome: Outcome::Pushed,
            },
            (Stage::PopLoadHead, Reply::Word(head)) => Stage::PopLoadSequence { turn: head },
            (Stage::PopLoadSequence { turn }, Reply::Word(marker)) => if marker == read_marker(
                turn,
            ) {
                Stage::PopCompareHead { turn }
            } else {
                Stage::PopRecheck
            },
            (Stage::PopRecheck, Reply::Counters { head, tail }) => if head == tail {
                Stage::Finished { outcome: Outcome::Missed }
            } else {
                Stage::PopLoadHead
            },
            (Stage::PopCompareHead { turn }, Reply::Swapped(won)) => if won {
                Stage::PopTake { turn }
            } else {
                Stage::PopLoadHead
            },
            (Stage::PopTake { turn }, Reply::Done) => Stage::PopRelease { turn },
            (Stage::PopRelease { turn }, Reply::Done) => Stage::Finished {
                outcome: Outcome::Popped,
            },
            _ => self,
        }
    }

    /// The first stage of a push.
    pub fn begin_push() -> (stage: Stage)
        ensures
            stage == Stage::PushLoadTail,
    {
        Stage::PushLoadTail
    }

    /// The first stage of a pop.
    pub fn begin_pop() -> (stage: Stage)
        ensures
            stage == Stage::PopLoadHead,
    {
        Stage::PopLoadHead
    }

    /// The access that the call makes next.
    pub fn access(&self, capacity: usize) -> (access: Access)
        requires
            valid_capacity(capacity as int),
        ensures
            access == self.access_spec(capacity),
    {
        match *self {
            Stage::PushLoadTail => Access::LoadTail,
            Stage::PushLoadSequence { turn } => Access::LoadSequence {
                index: index_for(turn, capacity),
            },
            Stage::PushRecheck => Access::LoadCounters,
            Stage::PushCompareTail { turn } => Access::CompareTail {
                current: turn,
                new: turn.wrapping_add(1),
            },
            Stage::PushStore { turn } => Access::Store { index: index_for(turn, capacity) },
            Stage::PushPublish { turn } => Access::StoreSequence {
                index: index_for(turn, capacity),
                marker: marker_for_read(turn),
            },
            Stage::PopLoadHead => Access::LoadHead,
            Stage::PopLoadSequence { turn } => Access::LoadSequence {
                index: index_for(turn, capacity),
            },
            Stage::PopRecheck => Access::LoadCounters,
            Stage::PopCompareHead { turn } => Access::CompareHead {
                current: turn,
                new: turn.wrapping_add(1),
            },
            Stage::PopTake { turn } => Access::Take { index: index_for(turn, capacity) },
            Stage::PopRelease { turn } => Access::StoreSequence {
                index: index_for(turn, capacity),
                marker: marker_for_write(turn.wrapping_add(capacity as u64)),
            },
            Stage::Finished { outcome } => Access::Return { outcome },
        }
    }

    /// Decides how the call goes on after the memory has answered `reply` to
    /// its access.
    pub fn advance(self, reply: Reply, capacity: usize) -> (next: Stage)
        ensures
            next == self.after(reply, capacity),
    {
        match (self, reply) {
            (Stage::PushLoadTail, Reply::Word(tail)) => Stage::PushLoadSequence { turn: tail },
            (Stage::PushLoadSequence { turn }, Reply::Word(marker)) => {
                if marker == marker_for_write(turn) {
                    Stage::PushCompareTail { turn }
                } else {
                    Stage::PushRecheck
                }
            },
            (Stage::PushRecheck, Reply::Counters { head, tail }) => {
                if turns_between(head, tail) == capacity as u64 {
                    Stage::Finished { outcome: Outcome::Refused }
                } else {
                    Stage::PushLoadTail
                }
            },
            (Stage::PushCompareTail { turn }, Reply::Swapped(won)) => {
                if won {
                    Stage::PushStore { turn }
                } else {
                    Stage::PushLoadTail
                }
            },
            (Stage::PushStore { turn }, Reply::Done) => Stage::PushPublish { turn },
            (Stage::PushPublish { turn }, Reply::Done) => Stage::Finished {
                outcome: Outcome::Pushed,
            },
            (Stage::PopLoadHead, Reply::Word(head)) => Stage::PopLoadSequence { turn: head },
            (Stage::PopLoadSequence { turn }, Reply::Word(marker)) => {
                if marker == marker_for_read(turn) {
                    Stage::PopCompareHead { turn }
                } else {
                    Stage::PopRecheck
                }
            },
            (Stage::PopRecheck, Reply::Counters { head, tail }) => {
                if head == tail {
                    Stage::Finished { outcome: Outcome::Missed }
                } else {
                    Stage::PopLoadHead
                }
            },
            (Stage::PopCompareHead { turn }, Reply::Swapped(won)) => {
                if won {
                    Stage::PopTake { turn }
                } else {
                    Stage::PopLoadHead
                }
            },
            (Stage::PopTake { turn }, Reply::Done) => Stage::PopRelease { turn },
            (Stage::PopRelease { turn }, Reply::Done) => Stage::Finished {
                outcome: Outcome::Popped,
            },
            (stage, _) => stage,
        }
    }
}

} // verus!
