//! Progress: what a call achieves when no other call is under way.  From a
//! ring at rest a push or a pop returns after a fixed number of accesses with
//! the effect that the queue model gives it; and a call that was held up by
//! others returns once they are done.

use vstd::prelude::*;
use crate::protocol::{even_marker, odd_marker, Cell, Event, Payload, Ring, Task};
use crate::safety::lemma_next_inv;

verus! {

/// At rest the ring is laid out as the turns say: while no thread holds a
/// turn it has won, the cell of each turn from `head` up to `tail` holds that
/// turn's value under its odd marker, and the cell of each later turn of the
/// lap is vacant under its even marker.
pub proof fn law_cells_at_rest<T>(ring: Ring<T>, turn: nat)
    requires
        ring.inv(),
        ring.unheld(),
        ring.head <= turn < ring.head + ring.capacity,
    ensures
        turn < ring.tail ==> ring.cell(turn) == (Cell {
            sequence: odd_marker(turn),
            payload: Payload::Whole(ring.sent[turn as int]),
        }),
        turn >= ring.tail ==> ring.cell(turn) == (Cell {
            sequence: even_marker(turn),
            payload: Payload::<T>::Vacant,
        }),
{
    ring.lemma_index_in_range(turn);
    let i = ring.index(turn);
    let named = ring.cells[i].sequence / 2;
    assert(ring.cell_ok(i));
    assert(!ring.has_writer(named) && !ring.has_reader(named));
    if named <= turn {
        ring.lemma_index_window(named, turn);
    } else {
        ring.lemma_index_window(turn, named);
    }
}

/// A push that runs alone returns: from a ring at rest, the thread is
/// between calls again after three accesses if the queue is full, with
/// nothing changed, and after six if it is not, with the value at the back of
/// the queue.
pub proof fn law_push_alone_completes<T>(ring: Ring<T>, thread: int, value: T)
    requires
        ring.inv(),
        ring.quiet(),
        ring.is_thread(thread),
    ensures
        ({
            let begun = ring.next(Event::Push { thread, value });
            if ring.contents().is_full() {
                begun.alone(thread, 3) == ring
            } else {
                let done = begun.alone(thread, 6);
                &&& done.quiet()
                &&& done.inv()
                &&& done.tasks.len() == ring.tasks.len()
                &&& done.contents() == ring.contents().push(value)
                &&& done.received == ring.received
            }
        }),
{
    let step = Event::<T>::Step { thread };
    let turn = ring.tail;
    assert(ring.tasks[thread] is Idle);
    assert(ring.unheld()) by {
        assert forall|a: int| 0 <= a < ring.tasks.len() implies (#[trigger] ring.tasks[a]).writes()
            is None && ring.tasks[a].reads() is None by {
            assert(ring.tasks[a] is Idle);
        }
    }
    ring.lemma_index_in_range(turn);
    reveal_with_fuel(Ring::alone, 7);
    let r0 = ring.next(Event::Push { thread, value });
    let r1 = r0.next(step);
    let r2 = r1.next(step);
    let r3 = r2.next(step);
    assert(r1.tasks[thread] == Task::PushLoadSequence { value, turn });
    if ring.contents().is_full() {
        assert(ring.head + ring.capacity == turn);
        law_cells_at_rest(ring, ring.head);
        ring.lemma_index_in_range(ring.head);
        assert(r2.tasks[thread] == Task::PushRecheck { value });
        assert(r3.tasks =~= ring.tasks);
        assert(r3 == ring);
    } else {
        law_cells_at_rest(ring, turn);
        assert(r2.tasks[thread] == Task::PushCompareTail { value, turn });
        assert(r3.tasks[thread] == Task::PushStore { value, turn });
        let r4 = r3.next(step);
        assert(r4.tasks[thread] == Task::PushFinish { value, turn });
        let r5 = r4.next(step);
        assert(r5.tasks[thread] == Task::<T>::PushPublish { turn });
        let r6 = r5.next(step);
        assert(r6.tasks =~= ring.tasks);
        assert(r6.contents().items =~= ring.contents().items.push(value));
        lemma_next_inv(ring, Event::Push { thread, value });
        lemma_next_inv(r0, step);
        lemma_next_inv(r1, step);
        lemma_next_inv(r2, step);
        lemma_next_inv(r3, step);
        lemma_next_inv(r4, step);
        lemma_next_inv(r5, step);
    }
}

/// A pop that runs alone returns: from a ring at rest, the thread is between
/// calls again after three accesses if the queue is empty, with nothing
/// changed, and after five if it is not, with the oldest item taken out of
/// the queue and received.
pub proof fn law_pop_alone_completes<T>(ring: Ring<T>, thread: int)
    requires
        ring.inv(),
        ring.quiet(),
        ring.is_thread(thread),
    ensures
        ({
            let begun = ring.next(Event::Pop { thread });
            if ring.contents().is_empty() {
                begun.alone(thread, 3) == ring
            } else {
                let done = begun.alone(thread, 5);
                &&& done.quiet()
                &&& done.inv()
                &&& done.tasks.len() == ring.tasks.len()
                &&& done.contents() == ring.contents().pop()
                &&& Some(done.received.last()) == ring.contents().front()
                &&& done.received == ring.received.push(done.received.last())
            }
        }),
{
    let step = Event::<T>::Step { thread };
    let turn = ring.head;
    assert(ring.tasks[thread] is Idle);
    assert(ring.unheld()) by {
        assert forall|a: int| 0 <= a < ring.tasks.len() implies (#[trigger] ring.tasks[a]).writes()
            is None && ring.tasks[a].reads() is None by {
            assert(ring.tasks[a] is Idle);
        }
    }
    ring.lemma_index_in_range(turn);
    reveal_with_fuel(Ring::alone, 6);
    let r0 = ring.next(Event::Pop { thread });
    let r1 = r0.next(step);
    let r2 = r1.next(step);
    let r3 = r2.next(step);
    assert(r1.tasks[thread] == Task::<T>::PopLoadSequence { turn });
    law_cells_at_rest(ring, turn);
    if ring.contents().is_empty() {
        assert(ring.head == ring.tail);
        assert(r2.tasks[thread] == Task::<T>::PopRecheck);
        assert(r3.tasks =~= ring.tasks);
        assert(r3 == ring);
    } else {
        let value = ring.sent[turn as int];
        assert(r2.tasks[thread] == Task::<T>::PopCompareHead { turn });
        assert(r3.tasks[thread] == Task::<T>::PopTake { turn });
        let r4 = r3.next(step);
        assert(r4.tasks[thread] == Task::PopRelease { turn, value });
        let r5 = r4.next(step);
        assert(r5.tasks =~= ring.tasks);
        assert(r5.received == ring.received.push(value));
        assert(r5.contents().items =~= ring.contents().items.drop_first());
        lemma_next_inv(ring, Event::Pop { thread });
        lemma_next_inv(r0, step);
        lemma_next_inv(r1, step);
        lemma_next_inv(r2, step);
        lemma_next_inv(r3, step);
        lemma_next_inv(r4, step);
    }
}

/// While no other thread is inside a call, every access of a thread brings
/// it nearer to the end of its own: the access strictly lowers
/// `accesses_left`.  So a call that stands alone starts over only from a
/// counter that it read before another call moved it, and only once.
pub proof fn law_access_alone_makes_progress<T>(ring: Ring<T>, thread: int)
    requires
        ring.inv(),
        ring.is_thread(thread),
        ring.alone_at_work(thread),
        !(ring.tasks[thread] is Idle),
    ensures
        ({
            let after = ring.next(Event::Step { thread });
            &&& after.inv()
            &&& after.is_thread(thread)
            &&& after.alone_at_work(thread)
            &&& after.accesses_left(thread) < ring.accesses_left(thread)
        }),
{
    let after = ring.next(Event::Step { thread });
    lemma_next_inv(ring, Event::Step { thread });
    assert(ring.thread_ok(thread));
    assert forall|t: nat| 0 <= #[trigger] ring.index(t) < ring.capacity by {
        ring.lemma_index_in_range(t);
    }
    assert forall|a: int| 0 <= a < after.tasks.len() && a != thread implies #[trigger] after.tasks[a]
        is Idle by {
        assert(ring.tasks[a] is Idle);
    }
    if ring.tasks[thread].writes() is None && ring.tasks[thread].reads() is None {
        assert(ring.unheld()) by {
            assert forall|a: int| 0 <= a < ring.tasks.len() implies (#[trigger] ring.tasks[a]).writes()
                is None && ring.tasks[a].reads() is None by {
                if a != thread {
                    assert(ring.tasks[a] is Idle);
                }
            }
        }
        match ring.tasks[thread] {
            Task::PushLoadSequence { turn, .. } => {
                if turn == ring.tail {
                    if ring.tail < ring.head + ring.capacity {
                        law_cells_at_rest(ring, turn);
                    } else {
                        law_cells_at_rest(ring, ring.head);
                        ring.lemma_index_in_range(ring.head);
                    }
                }
            },
            Task::PopLoadSequence { turn } => {
                if turn == ring.head {
                    law_cells_at_rest(ring, turn);
                }
            },
            _ => {},
        }
    }
}

/// A call that is left alone returns: once no other thread is inside a call,
/// a thread is between calls again after at most eight accesses of its own.
pub proof fn law_call_alone_completes<T>(ring: Ring<T>, thread: int, count: nat)
    requires
        ring.inv(),
        ring.is_thread(thread),
        ring.alone_at_work(thread),
    ensures
        ring.alone(thread, count).inv(),
        ring.alone(thread, count).is_thread(thread),
        ring.alone(thread, count).alone_at_work(thread),
        ring.alone(thread, count).accesses_left(thread) + count <= ring.accesses_left(thread)
            || ring.alone(thread, count).tasks[thread] is Idle,
        count >= 8 ==> ring.alone(thread, count).quiet(),
    decreases count,
{
    if count > 0 {
        let before = ring.alone(thread, (count - 1) as nat);
        law_call_alone_completes(ring, thread, (count - 1) as nat);
        if before.tasks[thread] is Idle {
            assert(before.next(Event::Step { thread }) == before);
        } else {
            law_access_alone_makes_progress(before, thread);
        }
    }
    let after = ring.alone(thread, count);
    assert(ring.thread_ok(thread));
    assert(after.thread_ok(thread));
    if count >= 8 {
        assert forall|a: int| 0 <= a < after.tasks.len() implies #[trigger] after.tasks[a]
            is Idle by {}
    }
}

} // verus!
