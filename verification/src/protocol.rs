//! The reservation protocol under concurrency, as a transition system.
//!
//! Any number of threads push and pop on one ring.  Each thread works through
//! its call one access to shared memory at a time, and the accesses of
//! different threads interleave in any order.  Turn counters are unbounded
//! here.  The payload of a cell is written in two steps, so that a reader
//! which came too early would find it half written: a thread that reads a
//! cell which is not whole, or writes one which is not vacant, ends in
//! `Task::Fault`.

use vstd::prelude::*;
use crate::fifo::Fifo;

verus! {

/// The marker of a cell that is free for the writer of `turn`.
pub open spec fn even_marker(turn: nat) -> nat {
    2 * turn
}

/// The marker of a cell that holds the value written on `turn`.
pub open spec fn odd_marker(turn: nat) -> nat {
    2 * turn + 1
}

/// What the storage of a cell holds.
pub enum Payload<T> {
    /// Nothing: never written, or moved out.
    Vacant,
    /// A write has begun and not finished.
    Partial,
    /// A value, written in full.
    Whole(T),
}

/// One cell of the ring as the threads see it.
pub struct Cell<T> {
    pub sequence: nat,
    pub payload: Payload<T>,
}

/// Where a thread stands in its call.  Each variant but `Idle` and `Fault`
/// names the access to shared memory that the thread makes next.
pub enum Task<T> {
    /// Between calls.
    Idle,
    /// Push: read `tail`.
    PushLoadTail { value: T },
    /// Push: read the marker of the cell of `turn`, the tail as last read.
    PushLoadSequence { value: T, turn: nat },
    /// Push: the cell was not free; read `head` and `tail` to tell a full
    /// queue from a lost race.
    PushRecheck { value: T },
    /// Push: the cell was free; move `tail` from `turn` to `turn + 1` if it
    /// still is `turn`.
    PushCompareTail { value: T, turn: nat },
    /// Push: the turn is won; begin to write the value into its cell.
    PushStore { value: T, turn: nat },
    /// Push: finish writing the value.
    PushFinish { value: T, turn: nat },
    /// Push: set the cell's marker to the odd marker of `turn`.
    PushPublish { turn: nat },
    /// Pop: read `head`.
    PopLoadHead,
    /// Pop: read the marker of the cell of `turn`, the head as last read.
    PopLoadSequence { turn: nat },
    /// Pop: the cell was not published; read `head` and `tail` to tell an
    /// empty queue from a lost race.
    PopRecheck,
    /// Pop: the cell was published; move `head` from `turn` to `turn + 1` if
    /// it still is `turn`.
    PopCompareHead { turn: nat },
    /// Pop: the turn is won; move the value out of its cell.
    PopTake { turn: nat },
    /// Pop: set the cell's marker to the even marker of `turn + capacity`,
    /// and return `value`.
    PopRelease { turn: nat, value: T },
    /// The thread read a cell that was not whole or wrote one that was not
    /// vacant.
    Fault,
}

/// What happens next: a thread between calls begins one, or a thread inside
/// a call makes its next access.
pub enum Event<T> {
    Push { thread: int, value: T },
    Pop { thread: int },
    Step { thread: int },
}

/// What a step means for the queue as a whole.
pub enum Effect<T> {
    /// Nothing that a caller could tell.
    Silent,
    /// A push took its place in the queue.
    Pushed(T),
    /// A push gave up: the queue was full.
    Refused,
    /// A pop took the oldest item out of the queue.
    Popped(T),
    /// A pop gave up: the queue was empty.
    Missed,
}

/// The shared memory, the threads, and the record of what was sent and
/// received.
pub struct Ring<T> {
    pub capacity: nat,
    /// The next turn offered to a reader.
    pub head: nat,
    /// The next turn offered to a writer.
    pub tail: nat,
    pub cells: Seq<Cell<T>>,
    pub tasks: Seq<Task<T>>,
    /// The values of the pushes that won a turn, by turn.
    pub sent: Seq<T>,
    /// The values that pops returned, in the order of their return.
    pub received: Seq<T>,
}

impl<T> Task<T> {
    /// The turn whose cell the thread may write, if it has won one.
    pub open spec fn writes(self) -> Option<nat> {
        match self {
            Task::PushStore { turn, .. } => Some(turn),
            Task::PushFinish { turn, .. } => Some(turn),
            Task::PushPublish { turn } => Some(turn),
            _ => None,
        }
    }

    /// The turn whose cell the thread may read, if it has won one.
    pub open spec fn reads(self) -> Option<nat> {
        match self {
            Task::PopTake { turn } => Some(turn),
            Task::PopRelease { turn, .. } => Some(turn),
            _ => None,
        }
    }
}

impl<T> Ring<T> {
    /// A new ring: every cell vacant and free for the first turn that maps
    /// to it, no turn taken, every thread between calls.
    pub open spec fn init(capacity: nat, threads: nat) -> Self {
        Ring {
            capacity,
            head: 0,
            tail: 0,
            cells: Seq::new(
                capacity,
                |i: int| Cell { sequence: even_marker(i as nat), payload: Payload::Vacant },
            ),
            tasks: Seq::new(threads, |a: int| Task::Idle),
            sent: Seq::empty(),
            received: Seq::empty(),
        }
    }

    /// The index of the cell that serves `turn`.
    pub open spec fn index(self, turn: nat) -> int {
        (turn % self.capacity) as int
    }

    /// The cell that serves `turn`.
    pub open spec fn cell(self, turn: nat) -> Cell<T> {
        self.cells[self.index(turn)]
    }

    pub open spec fn with_task(self, thread: int, task: Task<T>) -> Self {
        Ring { tasks: self.tasks.update(thread, task), ..self }
    }

    pub open spec fn with_cell(self, turn: nat, cell: Cell<T>) -> Self {
        Ring { cells: self.cells.update(self.index(turn), cell), ..self }
    }

    pub open spec fn is_thread(self, thread: int) -> bool {
        0 <= thread < self.tasks.len()
    }

    /// The ring after `thread`, inside a call, has made its next access.
    pub open spec fn step(self, thread: int) -> Self {
        match self.tasks[thread] {
            Task::Idle => self,
            Task::Fault => self,
            Task::PushLoadTail { value } => self.with_task(
                thread,
                Task::PushLoadSequence { value, turn: self.tail },
            ),
            Task::PushLoadSequence { value, turn } => if self.cell(turn).sequence == even_marker(
                turn,
            ) {
                self.with_task(thread, Task::PushCompareTail { value, turn })
            } else {
                self.with_task(thread, Task::PushRecheck { value })
            },
            Task::PushRecheck { value } => if self.tail - self.head == self.capacity {
                self.with_task(thread, Task::Idle)
            } else {
                self.with_task(thread, Task::PushLoadTail { value })
            },
            Task::PushCompareTail { value, turn } => if self.tail == turn {
                (Ring { tail: turn + 1, sent: self.sent.push(value), ..self }).with_task(
                    thread,
                    Task::PushStore { value, turn },
                )
            } else {
                self.with_task(thread, Task::PushLoadTail { value })
            },
            Task::PushStore { value, turn } => match self.cell(turn).payload {
                Payload::Vacant => self.with_cell(
                    turn,
                    Cell { sequence: self.cell(turn).sequence, payload: Payload::Partial },
                ).with_task(thread, Task::PushFinish { value, turn }),
                _ => self.with_task(thread, Task::Fault),
            },
            Task::PushFinish { value, turn } => match self.cell(turn).payload {
                Payload::Partial => self.with_cell(
                    turn,
                    Cell { sequence: self.cell(turn).sequence, payload: Payload::Whole(value) },
                ).with_task(thread, Task::PushPublish { turn }),
                _ => self.with_task(thread, Task::Fault),
            },
            Task::PushPublish { turn } => self.with_cell(
                turn,
                Cell { sequence: odd_marker(turn), payload: self.cell(turn).payload },
            ).with_task(thread, Task::Idle),
            Task::PopLoadHead => self.with_task(thread, Task::PopLoadSequence { turn: self.head }),
            Task::PopLoadSequence { turn } => if self.cell(turn).sequence == odd_marker(turn) {
                self.with_task(thread, Task::PopCompareHead { turn })
            } else {
                self.with_task(thread, Task::PopRecheck)
            },
            Task::PopRecheck => if self.head == self.tail {
                self.with_task(thread, Task::Idle)
            } else {
                self.with_task(thread, Task::PopLoadHead)
            },
            Task::PopCompareHead { turn } => if self.head == turn {
                (Ring { head: turn + 1, ..self }).with_task(thread, Task::PopTake { turn })
            } else {
                self.with_task(thread, Task::PopLoadHead)
            },
            Task::PopTake { turn } => match self.cell(turn).payload {
                Payload::Whole(value) => self.with_cell(
                    turn,
                    Cell { sequence: self.cell(turn).sequence, payload: Payload::Vacant },
                ).with_task(thread, Task::PopRelease { turn, value }),
                _ => self.with_task(thread, Task::Fault),
            },
            Task::PopRelease { turn, value } => (Ring {
                received: self.received.push(value),
                ..self
            }).with_cell(
                turn,
                Cell {
                    sequence: even_marker(turn + self.capacity),
                    payload: self.cell(turn).payload,
                },
            ).with_task(thread, Task::Idle),
        }
    }

    /// The ring after `event`.  An event that names no thread, begins a call
    /// on a thread that is inside one, or steps a thread that is between
    /// calls, changes nothing.
    pub open spec fn next(self, event: Event<T>) -> Self {
        match event {
            Event::Push { thread, value } => if self.is_thread(thread)
                && self.tasks[thread] is Idle {
                self.with_task(thread, Task::PushLoadTail { value })
            } else {
                self
            },
            Event::Pop { thread } => if self.is_thread(thread) && self.tasks[thread] is Idle {
                self.with_task(thread, Task::PopLoadHead)
            } else {
                self
            },
            Event::Step { thread } => if self.is_thread(thread) {
                self.step(thread)
            } else {
                self
            },
        }
    }

    /// The ring after the events of `events`, in order.
    pub open spec fn run(self, events: Seq<Event<T>>) -> Self
        decreases events.len(),
    {
        if events.len() == 0 {
            self
        } else {
            self.run(events.drop_last()).next(events.last())
        }
    }

    /// The ring after `thread` has made its next `count` accesses with no
    /// other thread in between.
    pub open spec fn alone(self, thread: int, count: nat) -> Self
        decreases count,
    {
        if count == 0 {
            self
        } else {
            self.alone(thread, (count - 1) as nat).next(Event::Step { thread })
        }
    }

    /// What `event` means for the queue as a whole: the moment at which a
    /// call takes effect is the step that moves `tail` or `head`, or the
    /// step that finds the queue full or empty.
    pub open spec fn effect(self, event: Event<T>) -> Effect<T> {
        match event {
            Event::Step { thread } => if self.is_thread(thread) {
                match self.tasks[thread] {
                    Task::PushCompareTail { value, turn } => if self.tail == turn {
                        Effect::Pushed(value)
                    } else {
                        Effect::Silent
                    },
                    Task::PushRecheck { value } => if self.tail - self.head == self.capacity {
                        Effect::Refused
                    } else {
                        Effect::Silent
                    },
                    Task::PopCompareHead { turn } => if self.head == turn && turn
                        < self.sent.len() {
                        Effect::Popped(self.sent[turn as int])
                    } else {
                        Effect::Silent
                    },
                    Task::PopRecheck => if self.head == self.tail {
                        Effect::Missed
                    } else {
                        Effect::Silent
                    },
                    _ => Effect::Silent,
                }
            } else {
                Effect::Silent
            },
            _ => Effect::Silent,
        }
    }

    /// The queue that the ring stands for: the values of the turns from
    /// `head` up to `tail`.
    pub open spec fn contents(self) -> Fifo<T> {
        Fifo { items: self.sent.subrange(self.head as int, self.tail as int), capacity: self.capacity }
    }

    /// No thread is inside a call.
    pub open spec fn quiet(self) -> bool {
        forall|a: int| 0 <= a < self.tasks.len() ==> #[trigger] self.tasks[a] is Idle
    }

    /// No thread but `thread` is inside a call.
    pub open spec fn alone_at_work(self, thread: int) -> bool {
        forall|a: int| 0 <= a < self.tasks.len() && a != thread ==> #[trigger] self.tasks[a] is Idle
    }

    /// No thread holds a turn it has won: every cell is at rest.
    pub open spec fn unheld(self) -> bool {
        forall|a: int|
            0 <= a < self.tasks.len() ==> (#[trigger] self.tasks[a]).writes() is None
                && self.tasks[a].reads() is None
    }

    /// An upper bound on the accesses that `thread` still has to make to
    /// finish its call, if no other thread is inside one.
    pub open spec fn accesses_left(self, thread: int) -> nat {
        match self.tasks[thread] {
            Task::Idle => 0,
            Task::Fault => 0,
            Task::PushLoadTail { .. } => 6,
            Task::PushLoadSequence { turn, .. } => if turn == self.tail {
                5
            } else {
                8
            },
            Task::PushRecheck { .. } => if self.tail - self.head == self.capacity {
                1
            } else {
                7
            },
            Task::PushCompareTail { turn, .. } => if turn == self.tail {
                4
            } else {
                7
            },
            Task::PushStore { .. } => 3,
            Task::PushFinish { .. } => 2,
            Task::PushPublish { .. } => 1,
            Task::PopLoadHead => 5,
            Task::PopLoadSequence { turn } => if turn == self.head {
                4
            } else {
                7
            },
            Task::PopRecheck => if self.head == self.tail {
                1
            } else {
                6
            },
            Task::PopCompareHead { turn } => if turn == self.head {
                3
            } else {
                6
            },
            Task::PopTake { .. } => 2,
            Task::PopRelease { .. } => 1,
        }
    }
}

} // verus!
