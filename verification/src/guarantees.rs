//! What the reservation protocol guarantees under every interleaving: each
//! law here is stated of the ring after any run of events from a new ring,
//! or of any step from a ring that satisfies the invariant.

use vstd::prelude::*;
use vstd::multiset::Multiset;
use vstd::seq_lib::lemma_multiset_commutative;
use crate::fifo::Fifo;
use crate::protocol::{Effect, Event, Payload, Ring, Task};
use crate::safety::{lemma_next_inv, lemma_owed_none, lemma_run_inv};

verus! {

/// The number of turns between `head` and `tail` is never negative and never
/// more than the capacity.
pub proof fn law_counters_in_bounds<T>(capacity: nat, threads: nat, events: Seq<Event<T>>)
    requires
        capacity >= 1,
    ensures
        ({
            let ring = Ring::<T>::init(capacity, threads).run(events);
            0 <= ring.tail - ring.head <= capacity
        }),
{
    lemma_run_inv(capacity, threads, events);
    lemma_run_keeps_threads(Ring::<T>::init(capacity, threads), events);
}

/// No torn reads and no lost writes: no thread ever reads a cell that is
/// vacant or half written, and none ever writes a cell that is not vacant.
/// A thread about to move a value out finds the value sent on its turn,
/// whole; a thread about to write finds its cell vacant.
pub proof fn law_no_fault<T>(capacity: nat, threads: nat, events: Seq<Event<T>>, thread: int)
    requires
        capacity >= 1,
        0 <= thread < threads,
    ensures
        ({
            let ring = Ring::<T>::init(capacity, threads).run(events);
            &&& ring.is_thread(thread)
            &&& !(ring.tasks[thread] is Fault)
            &&& ring.tasks[thread] matches Task::PopTake { turn } ==> turn < ring.sent.len()
                && ring.cell(turn).payload == Payload::Whole(ring.sent[turn as int])
            &&& ring.tasks[thread] matches Task::PopRelease { turn, value } ==> turn
                < ring.sent.len() && value == ring.sent[turn as int]
            &&& ring.tasks[thread] matches Task::PushStore { turn, .. } ==> ring.cell(
                turn,
            ).payload is Vacant
        }),
{
    lemma_run_inv(capacity, threads, events);
    lemma_run_keeps_threads(Ring::<T>::init(capacity, threads), events);
    let ring = Ring::<T>::init(capacity, threads).run(events);
    assert(ring.thread_ok(thread));
}

/// A run neither adds nor removes threads, and does not change the capacity.
pub proof fn lemma_run_keeps_threads<T>(ring: Ring<T>, events: Seq<Event<T>>)
    ensures
        ring.run(events).tasks.len() == ring.tasks.len(),
        ring.run(events).capacity == ring.capacity,
    decreases events.len(),
{
    if events.len() > 0 {
        lemma_run_keeps_threads(ring, events.drop_last());
    }
}

/// Exclusive access: two threads that each hold a turn, to write or to read,
/// never hold the same turn, and their turns never map to the same cell.
pub proof fn law_exclusive_cells<T>(ring: Ring<T>, a: int, b: int)
    requires
        ring.inv(),
        ring.is_thread(a),
        ring.is_thread(b),
        a != b,
        ring.tasks[a].writes() is Some || ring.tasks[a].reads() is Some,
        ring.tasks[b].writes() is Some || ring.tasks[b].reads() is Some,
    ensures
        ({
            let turn_a = if ring.tasks[a].writes() is Some {
                ring.tasks[a].writes().unwrap()
            } else {
                ring.tasks[a].reads().unwrap()
            };
            let turn_b = if ring.tasks[b].writes() is Some {
                ring.tasks[b].writes().unwrap()
            } else {
                ring.tasks[b].reads().unwrap()
            };
            ring.index(turn_a) != ring.index(turn_b)
        }),
{
    assert(ring.thread_ok(a));
    assert(ring.thread_ok(b));
    assert(ring.apart(a, b));
    assert(ring.apart(b, a));
}

/// Every step is invisible, or takes effect on the queue as one whole call
/// at that moment: the step that moves `tail` is a push that found room; the
/// step that moves `head` is a pop that takes the oldest item; a push gives
/// up only on a full queue, and a pop only on an empty one.
pub proof fn law_steps_take_effect_at_once<T>(ring: Ring<T>, event: Event<T>)
    requires
        ring.inv(),
    ensures
        ring.next(event).inv(),
        match ring.effect(event) {
            Effect::Silent => ring.next(event).contents() == ring.contents(),
            Effect::Pushed(value) => !ring.contents().is_full() && ring.next(event).contents()
                == ring.contents().push(value),
            Effect::Refused => ring.contents().is_full() && ring.next(event).contents()
                == ring.contents(),
            Effect::Popped(value) => ring.contents().front() == Some(value) && ring.next(
                event,
            ).contents() == ring.contents().pop(),
            Effect::Missed => ring.contents().front().is_none() && ring.next(event).contents()
                == ring.contents(),
        },
{
    lemma_next_inv(ring, event);
    let after = ring.next(event);
    assert forall|t: nat| 0 <= #[trigger] ring.index(t) < ring.capacity by {
        ring.lemma_index_in_range(t);
    }
    match event {
        Event::Step { thread } => {
            if ring.is_thread(thread) {
                assert(ring.thread_ok(thread));
                match ring.tasks[thread] {
                    Task::PushCompareTail { value, turn } => {
                        if ring.tail == turn {
                            assert(ring.cell_ok(ring.index(turn)));
                            assert(after.contents().items =~= ring.contents().items.push(value));
                        } else {
                            assert(after.contents().items =~= ring.contents().items);
                        }
                    },
                    Task::PopCompareHead { turn } => {
                        if ring.head == turn {
                            assert(ring.cell_ok(ring.index(turn)));
                            assert(after.contents().items =~= ring.contents().items.drop_first());
                        } else {
                            assert(after.contents().items =~= ring.contents().items);
                        }
                    },
                    _ => {
                        assert(after.contents().items =~= ring.contents().items);
                    },
                }
            }
        },
        _ => {
            assert(after.contents().items =~= ring.contents().items);
        },
    }
}

/// A new ring stands for the empty queue.
pub proof fn law_new_ring_is_empty<T>(capacity: nat, threads: nat)
    ensures
        Ring::<T>::init(capacity, threads).contents() == Fifo::<T>::empty(capacity),
{
    assert(Ring::<T>::init(capacity, threads).contents().items =~= Seq::<T>::empty());
}

/// Nothing arrives that was not sent, and nothing arrives twice: the values
/// that pops have returned are, as a multiset, among the values that were
/// sent.
pub proof fn law_received_was_sent<T>(capacity: nat, threads: nat, events: Seq<Event<T>>)
    requires
        capacity >= 1,
    ensures
        ({
            let ring = Ring::<T>::init(capacity, threads).run(events);
            ring.received.to_multiset().subset_of(ring.sent.to_multiset())
        }),
{
    lemma_run_inv(capacity, threads, events);
    let ring = Ring::<T>::init(capacity, threads).run(events);
    let head = ring.head as int;
    assert(ring.sent =~= ring.sent.take(head) + ring.sent.skip(head));
    lemma_multiset_commutative(ring.sent.take(head), ring.sent.skip(head));
    let early = ring.sent.take(head).to_multiset();
    assert forall|v: T| ring.received.to_multiset().count(v) <= ring.sent.to_multiset().count(
        v,
    ) by {
        assert(ring.received.to_multiset().add(crate::safety::owed(ring.tasks, ring.sent)).count(v)
            == early.count(v));
        assert(ring.sent.to_multiset().count(v) == early.add(
            ring.sent.skip(head).to_multiset(),
        ).count(v));
    }
}

/// Nothing is lost: once every thread is between calls, the values received
/// are exactly the values sent on the turns below `head`; and if the queue is
/// empty as well, exactly the values sent, each as often as it was sent.
pub proof fn law_nothing_lost<T>(capacity: nat, threads: nat, events: Seq<Event<T>>)
    requires
        capacity >= 1,
        Ring::<T>::init(capacity, threads).run(events).quiet(),
    ensures
        ({
            let ring = Ring::<T>::init(capacity, threads).run(events);
            &&& ring.received.to_multiset() == ring.sent.take(ring.head as int).to_multiset()
            &&& ring.received.len() == ring.head
            &&& ring.head == ring.tail ==> ring.received.to_multiset() == ring.sent.to_multiset()
        }),
{
    lemma_run_inv(capacity, threads, events);
    let ring = Ring::<T>::init(capacity, threads).run(events);
    assert forall|a: int| 0 <= a < ring.tasks.len() implies (#[trigger] ring.tasks[a]).reads()
        is None by {
        assert(ring.tasks[a] is Idle);
    }
    lemma_owed_none(ring.tasks, ring.sent);
    assert(ring.received.to_multiset().add(Multiset::<T>::empty())
        =~= ring.received.to_multiset());
    ring.received.to_multiset_ensures();
    ring.sent.take(ring.head as int).to_multiset_ensures();
    if ring.head == ring.tail {
        assert(ring.sent.take(ring.head as int) =~= ring.sent);
    }
}

} // verus!
