//! The invariant of the reservation protocol, and the proof that every step
//! of every thread keeps it.

use vstd::prelude::*;
use vstd::multiset::Multiset;
use vstd::arithmetic::div_mod::{lemma_fundamental_div_mod, lemma_mod_add_multiples_vanish,
    lemma_mod_bound, lemma_small_mod};
use vstd::seq_lib::to_multiset_build;
use crate::protocol::{even_marker, odd_marker, Cell, Event, Payload, Ring, Task};

verus! {

/// The value that a thread which has won a pop turn will return.
pub open spec fn owed_by<T>(task: Task<T>, sent: Seq<T>) -> Multiset<T> {
    match task.reads() {
        Some(turn) => Multiset::singleton(sent[turn as int]),
        None => Multiset::empty(),
    }
}

/// The values that the threads which have won a pop turn will return.
pub open spec fn owed<T>(tasks: Seq<Task<T>>, sent: Seq<T>) -> Multiset<T>
    decreases tasks.len(),
{
    if tasks.len() == 0 {
        Multiset::empty()
    } else {
        owed(tasks.drop_last(), sent).add(owed_by(tasks.last(), sent))
    }
}

impl<T> Ring<T> {
    /// The counters are in step: between `head` and `tail` lie at most
    /// `capacity` turns, and every turn below `tail` has its value on record.
    pub open spec fn shape_ok(self) -> bool {
        &&& self.capacity >= 1
        &&& self.cells.len() == self.capacity
        &&& self.head <= self.tail <= self.head + self.capacity
        &&& self.sent.len() == self.tail
    }

    /// Some thread holds `turn` to write its cell.
    pub open spec fn has_writer(self, turn: nat) -> bool {
        exists|a: int| 0 <= a < self.tasks.len() && (#[trigger] self.tasks[a]).writes() == Some(turn)
    }

    /// Some thread holds `turn` to read its cell.
    pub open spec fn has_reader(self, turn: nat) -> bool {
        exists|a: int| 0 <= a < self.tasks.len() && (#[trigger] self.tasks[a]).reads() == Some(turn)
    }

    /// The marker of cell `i` tells the truth.  It names a turn that maps to
    /// this cell and that `tail` has not lapped.  An even marker names a turn
    /// that no reader has won and whose predecessor on this cell has been
    /// read and released; if no writer has won the turn the cell is vacant,
    /// and if one has, it is still at work.  An odd marker names a turn that
    /// was won and written; if no reader has won it the cell holds that
    /// turn's value, whole, and if one has, it is still at work.
    pub open spec fn cell_ok(self, i: int) -> bool {
        let cell = self.cells[i];
        let turn = cell.sequence / 2;
        &&& self.index(turn) == i
        &&& self.tail <= turn + self.capacity
        &&& if cell.sequence % 2 == 0 {
            &&& self.head <= turn < self.head + self.capacity
            &&& turn >= self.tail ==> cell.payload is Vacant
            &&& turn < self.tail ==> self.has_writer(turn)
        } else {
            &&& turn < self.tail
            &&& turn >= self.head ==> cell.payload == Payload::Whole(self.sent[turn as int])
            &&& turn < self.head ==> self.has_reader(turn)
        }
    }

    /// What a thread in state `task` may rely on.  A thread that has won a
    /// turn finds its cell exactly as it left it; a thread about to
    /// compare-and-swap a counter finds its cell as it saw it, provided the
    /// counter has not moved.
    pub open spec fn task_ok(self, task: Task<T>) -> bool {
        match task {
            Task::Idle => true,
            Task::Fault => false,
            Task::PushLoadTail { .. } => true,
            Task::PushRecheck { .. } => true,
            Task::PushLoadSequence { turn, .. } => turn <= self.tail,
            Task::PushCompareTail { turn, .. } => {
                &&& turn <= self.tail
                &&& turn == self.tail ==> self.cell(turn).sequence == even_marker(turn)
            },
            Task::PushStore { value, turn } => {
                &&& turn < self.tail
                &&& self.sent[turn as int] == value
                &&& self.cell(turn).sequence == even_marker(turn)
                &&& self.cell(turn).payload is Vacant
            },
            Task::PushFinish { value, turn } => {
                &&& turn < self.tail
                &&& self.sent[turn as int] == value
                &&& self.cell(turn).sequence == even_marker(turn)
                &&& self.cell(turn).payload is Partial
            },
            Task::PushPublish { turn } => {
                &&& turn < self.tail
                &&& self.cell(turn).sequence == even_marker(turn)
                &&& self.cell(turn).payload == Payload::Whole(self.sent[turn as int])
            },
            Task::PopLoadHead => true,
            Task::PopRecheck => true,
            Task::PopLoadSequence { turn } => turn <= self.head,
            Task::PopCompareHead { turn } => {
                &&& turn <= self.head
                &&& turn == self.head ==> self.cell(turn).sequence == odd_marker(turn)
            },
            Task::PopTake { turn } => {
                &&& turn < self.head
                &&& self.cell(turn).sequence == odd_marker(turn)
                &&& self.cell(turn).payload == Payload::Whole(self.sent[turn as int])
            },
            Task::PopRelease { turn, value } => {
                &&& turn < self.head
                &&& self.sent[turn as int] == value
                &&& self.cell(turn).sequence == odd_marker(turn)
                &&& self.cell(turn).payload is Vacant
            },
        }
    }

    /// The thread `thread` may rely on what its state calls for.
    pub open spec fn thread_ok(self, thread: int) -> bool {
        self.task_ok(self.tasks[thread])
    }

    /// Two threads never hold the same turn: not to write, and not to read.
    pub open spec fn apart(self, a: int, b: int) -> bool {
        &&& self.tasks[a].writes() is Some ==> self.tasks[a].writes() != self.tasks[b].writes()
        &&& self.tasks[a].reads() is Some ==> self.tasks[a].reads() != self.tasks[b].reads()
    }

    /// What was received, with what the readers at work are about to return,
    /// is what was sent on the turns below `head`: nothing twice, nothing
    /// lost.
    pub open spec fn conserved(self) -> bool {
        self.received.to_multiset().add(owed(self.tasks, self.sent)) == self.sent.take(
            self.head as int,
        ).to_multiset()
    }

    /// The invariant of the protocol.
    pub open spec fn inv(self) -> bool {
        &&& self.shape_ok()
        &&& forall|i: int| 0 <= i < self.cells.len() ==> #[trigger] self.cell_ok(i)
        &&& forall|a: int| 0 <= a < self.tasks.len() ==> #[trigger] self.thread_ok(a)
        &&& forall|a: int, b: int|
            0 <= a < self.tasks.len() && 0 <= b < self.tasks.len() && a != b
                ==> #[trigger] self.apart(a, b)
        &&& self.conserved()
    }

    /// Every turn has a cell, and the turn one lap later has the same.
    pub proof fn lemma_index_in_range(self, turn: nat)
        requires
            self.capacity >= 1,
        ensures
            0 <= self.index(turn) < self.capacity,
            self.index(turn + self.capacity) == self.index(turn),
            turn < self.capacity ==> self.index(turn) == turn,
    {
        lemma_mod_bound(turn as int, self.capacity as int);
        lemma_mod_add_multiples_vanish(turn as int, self.capacity as int);
        if turn < self.capacity {
            lemma_small_mod(turn, self.capacity);
        }
    }

    /// Two turns less than a lap apart have different cells.
    pub proof fn lemma_index_window(self, first: nat, second: nat)
        requires
            self.capacity >= 1,
            self.index(first) == self.index(second),
            first <= second < first + self.capacity,
        ensures
            first == second,
    {
        let c = self.capacity as int;
        lemma_fundamental_div_mod(first as int, c);
        lemma_fundamental_div_mod(second as int, c);
        let q1 = first as int / c;
        let q2 = second as int / c;
        assert(second - first == c * (q2 - q1)) by (nonlinear_arith)
            requires
                first == c * q1 + first as int % c,
                second == c * q2 + second as int % c,
                first as int % c == second as int % c,
        ;
        assert(q2 - q1 == 0) by (nonlinear_arith)
            requires
                0 <= c * (q2 - q1) < c,
        ;
    }

    /// A thread that moves on without giving up a turn it held leaves every
    /// turn with the holder it had.
    proof fn lemma_holders_stay(self, thread: int, task: Task<T>, turn: nat)
        requires
            self.is_thread(thread),
        ensures
            self.has_writer(turn) && (self.tasks[thread].writes() != Some(turn) || task.writes()
                == Some(turn)) ==> self.with_task(thread, task).has_writer(turn),
            self.has_reader(turn) && (self.tasks[thread].reads() != Some(turn) || task.reads()
                == Some(turn)) ==> self.with_task(thread, task).has_reader(turn),
            task.writes() == Some(turn) ==> self.with_task(thread, task).has_writer(turn),
            task.reads() == Some(turn) ==> self.with_task(thread, task).has_reader(turn),
    {
        let post = self.with_task(thread, task);
        assert(post.tasks[thread] == task);
        if self.has_writer(turn) && (self.tasks[thread].writes() != Some(turn) || task.writes()
            == Some(turn)) {
            let a = choose|a: int|
                0 <= a < self.tasks.len() && (#[trigger] self.tasks[a]).writes() == Some(turn);
            assert(post.tasks[a].writes() == Some(turn));
        }
        if self.has_reader(turn) && (self.tasks[thread].reads() != Some(turn) || task.reads()
            == Some(turn)) {
            let a = choose|a: int|
                0 <= a < self.tasks.len() && (#[trigger] self.tasks[a]).reads() == Some(turn);
            assert(post.tasks[a].reads() == Some(turn));
        }
    }
}

/// No thread that has not won a pop turn owes anything.
pub proof fn lemma_owed_none<T>(tasks: Seq<Task<T>>, sent: Seq<T>)
    requires
        forall|a: int| 0 <= a < tasks.len() ==> (#[trigger] tasks[a]).reads() is None,
    ensures
        owed(tasks, sent) == Multiset::<T>::empty(),
    decreases tasks.len(),
{
    if tasks.len() > 0 {
        lemma_owed_none(tasks.drop_last(), sent);
        assert(tasks.last().reads() is None);
        assert(owed(tasks, sent) =~= Multiset::<T>::empty());
    }
}

/// When one thread moves on, what is owed changes by what that thread owed
/// and owes.
proof fn lemma_owed_update<T>(tasks: Seq<Task<T>>, thread: int, task: Task<T>, sent: Seq<T>)
    requires
        0 <= thread < tasks.len(),
    ensures
        owed(tasks.update(thread, task), sent).add(owed_by(tasks[thread], sent)) == owed(
            tasks,
            sent,
        ).add(owed_by(task, sent)),
    decreases tasks.len(),
{
    let after = tasks.update(thread, task);
    let rest = tasks.drop_last();
    assert(after.len() == tasks.len());
    assert(owed(after, sent) == owed(after.drop_last(), sent).add(owed_by(after.last(), sent)));
    assert(owed(tasks, sent) == owed(rest, sent).add(owed_by(tasks.last(), sent)));
    if thread == tasks.len() - 1 {
        assert(after.drop_last() =~= rest);
        assert(after.last() == task);
        assert(tasks.last() == tasks[thread]);
        assert(owed(after, sent).add(owed_by(tasks[thread], sent)) =~= owed(tasks, sent).add(
            owed_by(task, sent),
        ));
    } else {
        lemma_owed_update(rest, thread, task, sent);
        assert(after.drop_last() =~= rest.update(thread, task));
        assert(after.last() == tasks.last());
        assert(rest[thread] == tasks[thread]);
        let moved = owed(rest.update(thread, task), sent);
        assert(moved.add(owed_by(tasks[thread], sent)) == owed(rest, sent).add(
            owed_by(task, sent),
        ));
        assert(moved.add(owed_by(tasks.last(), sent)).add(owed_by(tasks[thread], sent))
            =~= moved.add(owed_by(tasks[thread], sent)).add(owed_by(tasks.last(), sent)));
        assert(owed(rest, sent).add(owed_by(task, sent)).add(owed_by(tasks.last(), sent))
            =~= owed(rest, sent).add(owed_by(tasks.last(), sent)).add(owed_by(task, sent)));
    }
}

/// What is owed after one thread has moved on.
proof fn lemma_owed_moves<T>(tasks: Seq<Task<T>>, thread: int, task: Task<T>, sent: Seq<T>)
    requires
        0 <= thread < tasks.len(),
    ensures
        owed(tasks.update(thread, task), sent) == owed(tasks, sent).add(owed_by(task, sent)).sub(
            owed_by(tasks[thread], sent),
        ),
        owed_by(tasks[thread], sent).subset_of(owed(tasks, sent)),
{
    lemma_owed_update(tasks, thread, task, sent);
    let after = owed(tasks.update(thread, task), sent);
    let before = owed(tasks, sent);
    let gone = owed_by(tasks[thread], sent);
    let come = owed_by(task, sent);
    assert forall|v: T| after.count(v) + gone.count(v) == before.count(v) + come.count(v) by {
        assert(after.add(gone).count(v) == before.add(come).count(v));
    }
    assert(after =~= before.add(come).sub(gone));
    // What the thread owed was part of what was owed.
    lemma_owed_update(tasks, thread, Task::Idle, sent);
    let without = owed(tasks.update(thread, Task::Idle), sent);
    assert forall|v: T| gone.count(v) <= before.count(v) by {
        assert(without.add(gone).count(v) == before.add(Multiset::<T>::empty()).count(v));
    }
}

/// A value sent on a new turn changes nothing in what is owed on earlier
/// turns.
proof fn lemma_owed_extend<T>(tasks: Seq<Task<T>>, sent: Seq<T>, value: T)
    requires
        forall|a: int|
            0 <= a < tasks.len() ==> ((#[trigger] tasks[a]).reads() matches Some(turn) ==> turn
                < sent.len()),
    ensures
        owed(tasks, sent.push(value)) == owed(tasks, sent),
    decreases tasks.len(),
{
    if tasks.len() > 0 {
        lemma_owed_extend(tasks.drop_last(), sent, value);
        assert(tasks.last() == tasks[tasks.len() - 1]);
    }
}

/// Nothing was sent where no value is on record.
proof fn lemma_empty_to_multiset<T>(values: Seq<T>)
    requires
        values.len() == 0,
    ensures
        values.to_multiset() == Multiset::<T>::empty(),
{
    values.to_multiset_ensures();
    assert forall|v: T| values.to_multiset().count(v) == 0 by {
        assert(!values.contains(v));
    }
    assert(values.to_multiset() =~= Multiset::<T>::empty());
}

/// A new ring satisfies the invariant.
pub proof fn lemma_init_inv<T>(capacity: nat, threads: nat)
    requires
        capacity >= 1,
    ensures
        Ring::<T>::init(capacity, threads).inv(),
{
    let ring = Ring::<T>::init(capacity, threads);
    assert forall|i: int| 0 <= i < ring.cells.len() implies #[trigger] ring.cell_ok(i) by {
        assert(ring.cells[i].sequence == 2 * i);
        ring.lemma_index_in_range(i as nat);
    }
    assert forall|a: int| 0 <= a < ring.tasks.len() implies #[trigger] ring.thread_ok(a) by {}
    lemma_owed_none(ring.tasks, ring.sent);
    lemma_empty_to_multiset(ring.received);
    lemma_empty_to_multiset(ring.sent.take(0));
    assert(ring.received.to_multiset().add(owed(ring.tasks, ring.sent)) =~= ring.sent.take(
        0,
    ).to_multiset());
}

/// A step that touches no shared memory and leaves the thread without a
/// turn of its own keeps the invariant, if the thread's new state is
/// justified by the memory as it is.
proof fn lemma_local_step<T>(pre: Ring<T>, thread: int, task: Task<T>)
    requires
        pre.inv(),
        pre.is_thread(thread),
        pre.task_ok(task),
        pre.tasks[thread].writes() is None,
        pre.tasks[thread].reads() is None,
        task.writes() is None,
        task.reads() is None,
    ensures
        pre.with_task(thread, task).inv(),
{
    let post = pre.with_task(thread, task);
    assert forall|i: int| 0 <= i < post.cells.len() implies #[trigger] post.cell_ok(i) by {
        assert(pre.cell_ok(i));
        pre.lemma_holders_stay(thread, task, pre.cells[i].sequence / 2);
    }
    assert forall|b: int| 0 <= b < post.tasks.len() implies #[trigger] post.thread_ok(b) by {
        assert(pre.thread_ok(b));
    }
    assert forall|b: int, c: int|
        0 <= b < post.tasks.len() && 0 <= c < post.tasks.len() && b != c implies #[trigger] post.apart(
        b,
        c,
    ) by {
        assert(pre.apart(b, c));
    }
    lemma_owed_moves(pre.tasks, thread, task, pre.sent);
    assert(owed(post.tasks, post.sent) =~= owed(pre.tasks, pre.sent));
}

/// Winning a push turn keeps the invariant.
proof fn lemma_win_push<T>(pre: Ring<T>, thread: int, value: T, turn: nat)
    requires
        pre.inv(),
        pre.is_thread(thread),
        pre.tasks[thread] == (Task::PushCompareTail { value, turn }),
        pre.tail == turn,
    ensures
        pre.step(thread).inv(),
{
    let post = pre.step(thread);
    assert forall|t: nat| 0 <= #[trigger] pre.index(t) < pre.capacity by {
        pre.lemma_index_in_range(t);
    }
    assert(pre.thread_ok(thread));
    assert(pre.cell_ok(pre.index(turn)));
    assert forall|i: int| 0 <= i < post.cells.len() implies #[trigger] post.cell_ok(i) by {
        assert(pre.cell_ok(i));
        let named = pre.cells[i].sequence / 2;
        pre.lemma_index_in_range(named);
        pre.lemma_holders_stay(thread, Task::PushStore { value, turn }, named);
    }
    assert forall|b: int| 0 <= b < post.tasks.len() implies #[trigger] post.thread_ok(b) by {
        assert(pre.thread_ok(b));
    }
    assert forall|b: int, c: int|
        0 <= b < post.tasks.len() && 0 <= c < post.tasks.len() && b != c implies #[trigger] post.apart(
        b,
        c,
    ) by {
        assert(pre.apart(b, c));
        assert(pre.thread_ok(b));
        assert(pre.thread_ok(c));
    }
    assert forall|b: int| 0 <= b < pre.tasks.len() implies ((#[trigger] pre.tasks[b]).reads() matches Some(
        t,
    ) ==> t < pre.sent.len()) by {
        assert(pre.thread_ok(b));
    }
    lemma_owed_extend(pre.tasks, pre.sent, value);
    lemma_owed_moves(pre.tasks, thread, Task::PushStore { value, turn }, post.sent);
    assert(owed(post.tasks, post.sent) =~= owed(pre.tasks, pre.sent));
    assert(post.sent.take(post.head as int) =~= pre.sent.take(pre.head as int));
}

/// A step of the thread that holds a turn, on the cell of that turn, keeps
/// what the other threads rely on: none of them holds the same turn, and
/// none of them saw the cell in a state that the step changes.
proof fn lemma_owner_step<T>(pre: Ring<T>, thread: int, turn: nat, cell: Cell<T>)
    requires
        pre.inv(),
        pre.is_thread(thread),
        pre.tasks[thread].writes() == Some(turn) || pre.tasks[thread].reads() == Some(turn),
        cell.sequence == pre.cell(turn).sequence || cell.sequence == pre.cell(turn).sequence + 1
            || (pre.tasks[thread].reads() == Some(turn) && cell.sequence == even_marker(
            turn + pre.capacity,
        )),
    ensures
        forall|b: int|
            0 <= b < pre.tasks.len() && b != thread ==> pre.with_cell(turn, cell).task_ok(
                #[trigger] pre.tasks[b],
            ),
        forall|i: int|
            0 <= i < pre.capacity && i != pre.index(turn) ==> #[trigger] pre.with_cell(
                turn,
                cell,
            ).cell_ok(i),
        0 <= pre.index(turn) < pre.capacity,
{
    let post = pre.with_cell(turn, cell);
    assert forall|t: nat| 0 <= #[trigger] pre.index(t) < pre.capacity by {
        pre.lemma_index_in_range(t);
    }
    assert(pre.thread_ok(thread));
    assert forall|b: int| 0 <= b < pre.tasks.len() && b != thread implies post.task_ok(
        #[trigger] pre.tasks[b],
    ) by {
        assert(pre.thread_ok(b));
        assert(pre.apart(thread, b));
        assert(pre.apart(b, thread));
    }
    assert forall|i: int| 0 <= i < pre.capacity && i != pre.index(turn) implies #[trigger] post.cell_ok(
        i,
    ) by {
        assert(pre.cell_ok(i));
    }
}

/// The frame of a step by the holder of a turn: if the changed cell and the
/// thread's new state are in order, and what is received and owed still
/// adds up, the invariant holds after the step.
proof fn lemma_owner_step_inv<T>(
    pre: Ring<T>,
    thread: int,
    turn: nat,
    cell: Cell<T>,
    task: Task<T>,
    post: Ring<T>,
)
    requires
        pre.inv(),
        pre.is_thread(thread),
        pre.tasks[thread].writes() == Some(turn) || pre.tasks[thread].reads() == Some(turn),
        cell.sequence == pre.cell(turn).sequence || cell.sequence == pre.cell(turn).sequence + 1
            || (pre.tasks[thread].reads() == Some(turn) && cell.sequence == even_marker(
            turn + pre.capacity,
        )),
        post == (Ring { received: post.received, ..pre }).with_cell(turn, cell).with_task(
            thread,
            task,
        ),
        post.cell_ok(pre.index(turn)),
        post.task_ok(task),
        task.writes() is None || task.writes() == pre.tasks[thread].writes(),
        task.reads() is None || task.reads() == pre.tasks[thread].reads(),
        post.conserved(),
    ensures
        post.inv(),
{
    lemma_owner_step(pre, thread, turn, cell);
    let mid = pre.with_cell(turn, cell);
    assert forall|i: int| 0 <= i < post.cells.len() implies #[trigger] post.cell_ok(i) by {
        if i != pre.index(turn) {
            assert(mid.cell_ok(i));
            assert(pre.cell_ok(i));
            pre.lemma_holders_stay(thread, task, pre.cells[i].sequence / 2);
        }
    }
    assert forall|b: int| 0 <= b < post.tasks.len() implies #[trigger] post.thread_ok(b) by {
        if b != thread {
            assert(mid.task_ok(pre.tasks[b]));
        }
    }
    assert forall|b: int, c: int|
        0 <= b < post.tasks.len() && 0 <= c < post.tasks.len() && b != c implies #[trigger] post.apart(
        b,
        c,
    ) by {
        assert(pre.apart(b, c));
    }
}

/// Beginning to write, finishing the write, and publishing keep the
/// invariant.
proof fn lemma_writer_step<T>(pre: Ring<T>, thread: int)
    requires
        pre.inv(),
        pre.is_thread(thread),
        pre.tasks[thread].writes() is Some,
    ensures
        pre.step(thread).inv(),
{
    let post = pre.step(thread);
    let turn = pre.tasks[thread].writes().unwrap();
    let cell = post.cells[pre.index(turn)];
    pre.lemma_index_in_range(turn);
    assert(pre.thread_ok(thread));
    assert(pre.cell_ok(pre.index(turn)));
    lemma_owed_moves(pre.tasks, thread, post.tasks[thread], pre.sent);
    assert(owed(post.tasks, post.sent) =~= owed(pre.tasks, pre.sent));
    assert(post =~= (Ring { received: post.received, ..pre }).with_cell(turn, cell).with_task(
        thread,
        post.tasks[thread],
    ));
    lemma_owner_step_inv(pre, thread, turn, cell, post.tasks[thread], post);
}

/// Winning a pop turn keeps the invariant.
proof fn lemma_win_pop<T>(pre: Ring<T>, thread: int, turn: nat)
    requires
        pre.inv(),
        pre.is_thread(thread),
        pre.tasks[thread] == (Task::<T>::PopCompareHead { turn }),
        pre.head == turn,
    ensures
        pre.step(thread).inv(),
{
    let post = pre.step(thread);
    assert forall|t: nat| 0 <= #[trigger] pre.index(t) < pre.capacity by {
        pre.lemma_index_in_range(t);
    }
    assert(pre.thread_ok(thread));
    assert(pre.cell_ok(pre.index(turn)));
    assert forall|i: int| 0 <= i < post.cells.len() implies #[trigger] post.cell_ok(i) by {
        assert(pre.cell_ok(i));
        let named = pre.cells[i].sequence / 2;
        pre.lemma_holders_stay(thread, Task::PopTake { turn }, named);
    }
    assert forall|b: int| 0 <= b < post.tasks.len() implies #[trigger] post.thread_ok(b) by {
        assert(pre.thread_ok(b));
    }
    assert forall|b: int, c: int|
        0 <= b < post.tasks.len() && 0 <= c < post.tasks.len() && b != c implies #[trigger] post.apart(
        b,
        c,
    ) by {
        assert(pre.apart(b, c));
        assert(pre.thread_ok(b));
        assert(pre.thread_ok(c));
    }
    lemma_owed_moves(pre.tasks, thread, Task::PopTake { turn }, pre.sent);
    let won = pre.sent[turn as int];
    assert(owed(post.tasks, post.sent) =~= owed(pre.tasks, pre.sent).insert(won));
    assert(post.sent.take(post.head as int) =~= pre.sent.take(pre.head as int).push(won));
    to_multiset_build(pre.sent.take(pre.head as int), won);
    assert(post.received.to_multiset().add(owed(post.tasks, post.sent))
        =~= pre.received.to_multiset().add(owed(pre.tasks, pre.sent)).insert(won));
}

/// Moving the value out of the cell, and releasing the cell, keep the
/// invariant.
proof fn lemma_reader_step<T>(pre: Ring<T>, thread: int)
    requires
        pre.inv(),
        pre.is_thread(thread),
        pre.tasks[thread].reads() is Some,
    ensures
        pre.step(thread).inv(),
{
    let post = pre.step(thread);
    let turn = pre.tasks[thread].reads().unwrap();
    let cell = post.cells[pre.index(turn)];
    pre.lemma_index_in_range(turn);
    assert(pre.thread_ok(thread));
    assert(pre.cell_ok(pre.index(turn)));
    lemma_owed_moves(pre.tasks, thread, post.tasks[thread], pre.sent);
    let value = pre.sent[turn as int];
    if pre.tasks[thread] is PopTake {
        assert(owed(post.tasks, post.sent) =~= owed(pre.tasks, pre.sent));
    } else {
        to_multiset_build(pre.received, value);
        assert(post.received.to_multiset().add(owed(post.tasks, post.sent))
            =~= pre.received.to_multiset().add(owed(pre.tasks, pre.sent)));
    }
    assert(post =~= (Ring { received: post.received, ..pre }).with_cell(turn, cell).with_task(
        thread,
        post.tasks[thread],
    ));
    lemma_owner_step_inv(pre, thread, turn, cell, post.tasks[thread], post);
}

/// Every step of every thread keeps the invariant.
pub proof fn lemma_step_inv<T>(pre: Ring<T>, thread: int)
    requires
        pre.inv(),
        pre.is_thread(thread),
    ensures
        pre.step(thread).inv(),
{
    let post = pre.step(thread);
    assert(pre.thread_ok(thread));
    match pre.tasks[thread] {
        Task::Idle => {},
        Task::Fault => {},
        Task::PushCompareTail { value, turn } => {
            if pre.tail == turn {
                lemma_win_push(pre, thread, value, turn);
            } else {
                lemma_local_step(pre, thread, post.tasks[thread]);
            }
        },
        Task::PopCompareHead { turn } => {
            if pre.head == turn {
                lemma_win_pop(pre, thread, turn);
            } else {
                lemma_local_step(pre, thread, post.tasks[thread]);
            }
        },
        Task::PushStore { .. } => lemma_writer_step(pre, thread),
        Task::PushFinish { .. } => lemma_writer_step(pre, thread),
        Task::PushPublish { .. } => lemma_writer_step(pre, thread),
        Task::PopTake { .. } => lemma_reader_step(pre, thread),
        Task::PopRelease { .. } => lemma_reader_step(pre, thread),
        _ => {
            lemma_local_step(pre, thread, post.tasks[thread]);
        },
    }
}

/// Every event keeps the invariant.
pub proof fn lemma_next_inv<T>(pre: Ring<T>, event: Event<T>)
    requires
        pre.inv(),
    ensures
        pre.next(event).inv(),
{
    match event {
        Event::Push { thread, value } => {
            if pre.is_thread(thread) && pre.tasks[thread] is Idle {
                lemma_local_step(pre, thread, Task::PushLoadTail { value });
            }
        },
        Event::Pop { thread } => {
            if pre.is_thread(thread) && pre.tasks[thread] is Idle {
                lemma_local_step(pre, thread, Task::PopLoadHead);
            }
        },
        Event::Step { thread } => {
            if pre.is_thread(thread) {
                lemma_step_inv(pre, thread);
            }
        },
    }
}

/// The invariant holds after every run from a new ring.
pub proof fn lemma_run_inv<T>(capacity: nat, threads: nat, events: Seq<Event<T>>)
    requires
        capacity >= 1,
    ensures
        Ring::<T>::init(capacity, threads).run(events).inv(),
    decreases events.len(),
{
    if events.len() == 0 {
        lemma_init_inv::<T>(capacity, threads);
    } else {
        lemma_run_inv(capacity, threads, events.drop_last());
        lemma_next_inv(Ring::<T>::init(capacity, threads).run(events.drop_last()), events.last());
    }
}

} // verus!
