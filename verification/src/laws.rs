//! Laws of the queue, over the model in which the ring buffer's contracts are
//! stated.  Whatever holds here of `Fifo::push`, `Fifo::pop` and `Fifo::front`
//! holds of every run of `Buffer::push` and `Buffer::pop` on one buffer.

use vstd::prelude::*;
use crate::fifo::{Fifo, Call};
use crate::turn::valid_capacity;

verus! {

/// Pushes that fit are all accepted and join at the back in order.
pub proof fn law_push_all_appends<T>(queue: Fifo<T>, values: Seq<T>)
    requires
        queue.items.len() + values.len() <= queue.capacity,
    ensures
        queue.accepts_all(values),
        queue.push_all(values) == (Fifo { items: queue.items + values, capacity: queue.capacity }),
    decreases values.len(),
{
    if values.len() == 0 {
        assert(queue.items + values =~= queue.items);
    } else {
        law_push_all_appends(queue, values.drop_last());
        assert((queue.items + values.drop_last()).push(values.last()) =~= queue.items + values);
    }
}

/// Pops hand out the oldest items in order: `count` pops on a queue that
/// holds at least that many give its first `count` items and leave the rest.
pub proof fn law_pops_take_front<T>(queue: Fifo<T>, count: nat)
    requires
        count <= queue.items.len(),
    ensures
        queue.popped(count) == queue.items.take(count as int).map_values(|v: T| Some(v)),
        queue.pop_times(count) == (Fifo {
            items: queue.items.skip(count as int),
            capacity: queue.capacity,
        }),
    decreases count,
{
    if count == 0 {
        assert(queue.items.skip(0) =~= queue.items);
        assert(queue.popped(0) =~= queue.items.take(0).map_values(|v: T| Some(v)));
    } else {
        let before = (count - 1) as nat;
        law_pops_take_front(queue, before);
        assert(queue.items.skip(before as int).drop_first() =~= queue.items.skip(count as int));
        assert(queue.popped(count) =~= queue.items.take(count as int).map_values(
            |v: T| Some(v),
        ));
    }
}

/// Round trip: whatever is pushed into an empty queue, in any number up to
/// the capacity, every push is accepted, and as many pops hand the same
/// values out in the same order and leave the queue empty.
pub proof fn law_round_trip<T>(capacity: nat, values: Seq<T>)
    requires
        values.len() <= capacity,
    ensures
        Fifo::<T>::empty(capacity).accepts_all(values),
        Fifo::<T>::empty(capacity).push_all(values).popped(values.len()) == values.map_values(
            |v: T| Some(v),
        ),
        Fifo::<T>::empty(capacity).push_all(values).pop_times(values.len()) == Fifo::<T>::empty(
            capacity,
        ),
{
    let start = Fifo::<T>::empty(capacity);
    law_push_all_appends(start, values);
    assert(start.items + values =~= values);
    let filled = start.push_all(values);
    law_pops_take_front(filled, values.len());
    assert(values.take(values.len() as int) =~= values);
    assert(values.skip(values.len() as int) =~= Seq::<T>::empty());
}

/// Capacity boundary: `capacity` pushes into an empty queue are all accepted
/// and fill it; one more push is refused and changes nothing; after one pop
/// there is room again, and the next push joins behind the items that stayed.
pub proof fn law_capacity_boundary<T>(capacity: nat, values: Seq<T>, extra: T)
    requires
        capacity >= 1,
        values.len() == capacity,
    ensures
        Fifo::<T>::empty(capacity).accepts_all(values),
        Fifo::<T>::empty(capacity).push_all(values).is_full(),
        Fifo::<T>::empty(capacity).push_all(values).push(extra) == Fifo::<T>::empty(
            capacity,
        ).push_all(values),
        Fifo::<T>::empty(capacity).push_all(values).front() == Some(values[0]),
        !Fifo::<T>::empty(capacity).push_all(values).pop().is_full(),
        Fifo::<T>::empty(capacity).push_all(values).pop().push(extra).items
            == values.drop_first().push(extra),
{
    let start = Fifo::<T>::empty(capacity);
    law_push_all_appends(start, values);
    assert(start.items + values =~= values);
}

/// A queue never holds more than its capacity, whatever is called on it.
pub proof fn law_run_stays_valid<T>(queue: Fifo<T>, calls: Seq<Call<T>>)
    requires
        queue.valid(),
    ensures
        queue.run(calls).valid(),
        queue.run(calls).capacity == queue.capacity,
    decreases calls.len(),
{
    if calls.len() > 0 {
        law_run_stays_valid(queue, calls.drop_last());
    }
}

/// The items that wait are those that were accepted and not yet handed out.
pub proof fn law_outstanding<T>(queue: Fifo<T>, calls: Seq<Call<T>>)
    requires
        queue.items.len() <= queue.capacity,
    ensures
        queue.run(calls).len() + queue.served(calls) == queue.len() + queue.accepted(calls),
        queue.run(calls).len() <= queue.capacity,
        queue.run(calls).capacity == queue.capacity,
    decreases calls.len(),
{
    if calls.len() > 0 {
        law_outstanding(queue, calls.drop_last());
    }
}

/// Empty boundary: a pop on a new queue hands out nothing; and after any
/// calls on a new queue of which as many pops were served as pushes were
/// accepted, the queue is empty again and a pop hands out nothing.
pub proof fn law_empty_boundary<T>(capacity: nat, calls: Seq<Call<T>>)
    requires
        Fifo::<T>::empty(capacity).accepted(calls) == Fifo::<T>::empty(capacity).served(calls),
    ensures
        Fifo::<T>::empty(capacity).front().is_none(),
        Fifo::<T>::empty(capacity).run(calls) == Fifo::<T>::empty(capacity),
        Fifo::<T>::empty(capacity).run(calls).front().is_none(),
        Fifo::<T>::empty(capacity).run(calls).pop() == Fifo::<T>::empty(capacity),
{
    let start = Fifo::<T>::empty(capacity);
    law_outstanding(start, calls);
    assert(start.run(calls).items =~= Seq::<T>::empty());
}

} // verus!
