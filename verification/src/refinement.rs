//! The driver decides as the protocol steps: on a ring whose counters are
//! below half the range of a machine word, a memory that performs the access
//! a stage asks for, and a call that goes on as `Stage::advance` decides,
//! together make the step that the transition system takes.

use vstd::prelude::*;
use crate::driver::{Access, Reply, Stage};
use crate::protocol::{even_marker, odd_marker, Cell, Event, Payload, Ring, Task};
use crate::turn::{advance, next_lap_marker, read_marker, slot_index, valid_capacity, write_marker};

verus! {

impl Stage {
    /// The state of a thread in the transition system that this stage
    /// stands for, for a call that carries `value`: the value to push, or
    /// the value that a pop has moved out.
    pub open spec fn task<T>(self, value: T) -> Task<T> {
        match self {
            Stage::PushLoadTail => Task::PushLoadTail { value },
            Stage::PushLoadSequence { turn } => Task::PushLoadSequence { value, turn: turn as nat },
            Stage::PushRecheck => Task::PushRecheck { value },
            Stage::PushCompareTail { turn } => Task::PushCompareTail { value, turn: turn as nat },
            Stage::PushStore { turn } => Task::PushStore { value, turn: turn as nat },
            Stage::PushPublish { turn } => Task::PushPublish { turn: turn as nat },
            Stage::PopLoadHead => Task::PopLoadHead,
            Stage::PopLoadSequence { turn } => Task::PopLoadSequence { turn: turn as nat },
            Stage::PopRecheck => Task::PopRecheck,
            Stage::PopCompareHead { turn } => Task::PopCompareHead { turn: turn as nat },
            Stage::PopTake { turn } => Task::PopTake { turn: turn as nat },
            Stage::PopRelease { turn } => Task::PopRelease { turn: turn as nat, value },
            Stage::Finished { .. } => Task::Idle,
        }
    }
}

impl<T> Ring<T> {
    /// What the memory of the ring answers to `access`.
    pub open spec fn answer(self, access: Access) -> Reply {
        match access {
            Access::LoadTail => Reply::Word(self.tail as u64),
            Access::LoadHead => Reply::Word(self.head as u64),
            Access::LoadSequence { index } => Reply::Word(self.cells[index as int].sequence as u64),
            Access::LoadCounters => Reply::Counters {
                head: self.head as u64,
                tail: self.tail as u64,
            },
            Access::CompareTail { current, .. } => Reply::Swapped(self.tail == current),
            Access::CompareHead { current, .. } => Reply::Swapped(self.head == current),
            _ => Reply::Done,
        }
    }

    /// `after` is the memory of this ring once `access` was performed, by a
    /// push that carries `value`.
    pub open spec fn performed(self, access: Access, value: T, after: Ring<T>) -> bool {
        match access {
            Access::CompareTail { current, new } => {
                &&& after.head == self.head
                &&& after.cells == self.cells
                &&& after.tail == if self.tail == current {
                    new as nat
                } else {
                    self.tail
                }
            },
            Access::CompareHead { current, new } => {
                &&& after.tail == self.tail
                &&& after.cells == self.cells
                &&& after.head == if self.head == current {
                    new as nat
                } else {
                    self.head
                }
            },
            Access::Store { index } => {
                &&& after.head == self.head
                &&& after.tail == self.tail
                &&& after.cells == self.cells.update(
                    index as int,
                    Cell {
                        sequence: self.cells[index as int].sequence,
                        payload: Payload::Whole(value),
                    },
                )
            },
            Access::Take { index } => {
                &&& after.head == self.head
                &&& after.tail == self.tail
                &&& after.cells == self.cells.update(
                    index as int,
                    Cell { sequence: self.cells[index as int].sequence, payload: Payload::Vacant },
                )
            },
            Access::StoreSequence { index, marker } => {
                &&& after.head == self.head
                &&& after.tail == self.tail
                &&& after.cells == self.cells.update(
                    index as int,
                    Cell { sequence: marker as nat, payload: self.cells[index as int].payload },
                )
            },
            _ => {
                &&& after.head == self.head
                &&& after.tail == self.tail
                &&& after.cells == self.cells
            },
        }
    }
}

/// Every stage of a call is a step of the protocol.  Let a thread of the
/// ring stand where `stage` stands, on a ring whose counters are below half
/// the range of a word.  Then the thread's next step (its next two, where it
/// writes the value, which the transition system does in halves) changes the
/// memory as the access of the stage says, and leaves the thread where
/// `Stage::after` leads on the memory's answer.
pub proof fn law_driver_follows_protocol<T>(
    ring: Ring<T>,
    thread: int,
    stage: Stage,
    value: T,
    capacity: usize,
)
    requires
        ring.inv(),
        ring.is_thread(thread),
        ring.capacity == capacity,
        valid_capacity(capacity as int),
        ring.tail + ring.capacity < 0x8000_0000_0000_0000,
        ring.tasks[thread] == stage.task(value),
        !(stage is Finished),
    ensures
        ({
            let access = stage.access_spec(capacity);
            let next = ring.alone(
                thread,
                if stage is PushStore {
                    2
                } else {
                    1
                },
            );
            let carried = match next.tasks[thread] {
                Task::PopRelease { value: taken, .. } => taken,
                _ => value,
            };
            &&& ring.performed(access, value, next)
            &&& next.tasks[thread] == stage.after(ring.answer(access), capacity).task(carried)
        }),
{
    reveal_with_fuel(Ring::alone, 3);
    let step = Event::<T>::Step { thread };
    let once = ring.next(step);
    assert(ring.thread_ok(thread));
    assert forall|t: nat| 0 <= #[trigger] ring.index(t) < ring.capacity by {
        ring.lemma_index_in_range(t);
    }
    assert forall|i: int| 0 <= i < ring.cells.len() implies (#[trigger] ring.cells[i]).sequence
        < 0x1_0000_0000_0000_0000 by {
        assert(ring.cell_ok(i));
    }
    match stage {
        Stage::PushStore { turn } => {
            crate::safety::lemma_next_inv(ring, step);
            assert(once.thread_ok(thread));
            let twice = once.next(step);
            assert(twice.cells =~= ring.cells.update(
                ring.index(turn as nat),
                Cell {
                    sequence: ring.cells[ring.index(turn as nat)].sequence,
                    payload: Payload::Whole(value),
                },
            ));
        },
        _ => {},
    }
}

/// The arithmetic of the buffer is that of the protocol, reduced to the
/// machine word: its markers are the protocol's modulo the range of a turn
/// counter, and equal to them for every turn below half that range; and a
/// turn maps to the same cell in both.
pub proof fn law_marker_arithmetic_agrees<T>(ring: Ring<T>, turn: u64, capacity: u64)
    requires
        ring.capacity == capacity,
    ensures
        write_marker(turn) == even_marker(turn as nat) % 0x1_0000_0000_0000_0000,
        read_marker(turn) == odd_marker(turn as nat) % 0x1_0000_0000_0000_0000,
        turn < 0x8000_0000_0000_0000 ==> write_marker(turn) == even_marker(turn as nat)
            && read_marker(turn) == odd_marker(turn as nat),
        next_lap_marker(read_marker(turn), capacity) == even_marker((turn + capacity) as nat)
            % 0x1_0000_0000_0000_0000,
        capacity >= 1 ==> slot_index(turn, capacity as int) == ring.index(turn as nat),
{
    crate::turn::lemma_next_lap(turn, capacity);
    let next = advance(turn, capacity);
    assert(write_marker(next) == even_marker(next as nat) % 0x1_0000_0000_0000_0000);
}

} // verus!
