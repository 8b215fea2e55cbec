use monza::driver::{Access, Outcome, Reply, Stage};

/// A plain memory that performs one access at a time and panics on an
/// access that would tear a value: a write into a slot that is not vacant,
/// or a move out of a slot that is.
struct Memory {
    head: u64,
    tail: u64,
    sequences: Vec<u64>,
    values: Vec<Option<u64>>,
}

impl Memory {
    fn new(capacity: usize) -> Memory {
        Memory {
            head: 0,
            tail: 0,
            sequences: (0..capacity as u64).map(|i| 2 * i).collect(),
            values: vec![None; capacity],
        }
    }

    fn perform(&mut self, access: Access, carried: &mut Option<u64>) -> Reply {
        match access {
            Access::LoadTail => Reply::Word(self.tail),
            Access::LoadHead => Reply::Word(self.head),
            Access::LoadSequence { index } => Reply::Word(self.sequences[index]),
            Access::LoadCounters => Reply::Counters { head: self.head, tail: self.tail },
            Access::CompareTail { current, new } => {
                let won = self.tail == current;
                if won {
                    self.tail = new;
                }
                Reply::Swapped(won)
            }
            Access::CompareHead { current, new } => {
                let won = self.head == current;
                if won {
                    self.head = new;
                }
                Reply::Swapped(won)
            }
            Access::Store { index } => {
                assert!(self.values[index].is_none());
                self.values[index] = Some(carried.take().unwrap());
                Reply::Done
            }
            Access::Take { index } => {
                assert!(carried.is_none());
                *carried = Some(self.values[index].take().unwrap());
                Reply::Done
            }
            Access::StoreSequence { index, marker } => {
                self.sequences[index] = marker;
                Reply::Done
            }
            Access::Return { .. } => Reply::Done,
        }
    }
}

struct Call {
    stage: Stage,
    carried: Option<u64>,
    accesses: usize,
}

impl Call {
    fn push(value: u64) -> Call {
        Call { stage: Stage::begin_push(), carried: Some(value), accesses: 0 }
    }

    fn pop() -> Call {
        Call { stage: Stage::begin_pop(), carried: None, accesses: 0 }
    }

    fn outcome(&self) -> Option<Outcome> {
        match self.stage {
            Stage::Finished { outcome } => Some(outcome),
            _ => None,
        }
    }

    fn step(&mut self, memory: &mut Memory) {
        let capacity = memory.sequences.len();
        let access = self.stage.access(capacity);
        if matches!(access, Access::Return { .. }) {
            return;
        }
        let reply = memory.perform(access, &mut self.carried);
        self.stage = self.stage.advance(reply, capacity);
        self.accesses += 1;
    }

    fn finish(&mut self, memory: &mut Memory) -> Outcome {
        loop {
            if let Some(outcome) = self.outcome() {
                return outcome;
            }
            self.step(memory);
        }
    }
}

#[test]
fn push_alone_makes_five_accesses() {
    let mut memory = Memory::new(4);
    let mut call = Call::push(41);
    assert_eq!(call.finish(&mut memory), Outcome::Pushed);
    assert_eq!(call.accesses, 5);
    assert_eq!(memory.tail, 1);
    assert_eq!(memory.head, 0);
    assert_eq!(memory.sequences, vec![1, 2, 4, 6]);
    assert_eq!(memory.values, vec![Some(41), None, None, None]);
}

#[test]
fn pop_alone_makes_five_accesses() {
    let mut memory = Memory::new(4);
    assert_eq!(Call::push(41).finish(&mut memory), Outcome::Pushed);
    let mut call = Call::pop();
    assert_eq!(call.finish(&mut memory), Outcome::Popped);
    assert_eq!(call.accesses, 5);
    assert_eq!(call.carried, Some(41));
    assert_eq!(memory.head, 1);
    assert_eq!(memory.sequences, vec![8, 2, 4, 6]);
    assert_eq!(memory.values, vec![None, None, None, None]);
}

#[test]
fn push_on_full_gives_up_after_three_accesses() {
    let mut memory = Memory::new(2);
    assert_eq!(Call::push(1).finish(&mut memory), Outcome::Pushed);
    assert_eq!(Call::push(2).finish(&mut memory), Outcome::Pushed);
    let mut call = Call::push(3);
    assert_eq!(call.finish(&mut memory), Outcome::Refused);
    assert_eq!(call.accesses, 3);
    assert_eq!(call.carried, Some(3));
    assert_eq!(memory.tail, 2);
    assert_eq!(memory.values, vec![Some(1), Some(2)]);
}

#[test]
fn pop_on_empty_gives_up_after_three_accesses() {
    let mut memory = Memory::new(2);
    let mut call = Call::pop();
    assert_eq!(call.finish(&mut memory), Outcome::Missed);
    assert_eq!(call.accesses, 3);
    assert_eq!(call.carried, None);
    assert_eq!(memory.head, 0);
}

#[test]
fn stages_name_their_accesses() {
    assert_eq!(Stage::PushLoadTail.access(4), Access::LoadTail);
    assert_eq!(Stage::PushLoadSequence { turn: 6 }.access(4), Access::LoadSequence { index: 2 });
    assert_eq!(Stage::PushRecheck.access(4), Access::LoadCounters);
    assert_eq!(
        Stage::PushCompareTail { turn: 6 }.access(4),
        Access::CompareTail { current: 6, new: 7 }
    );
    assert_eq!(
        Stage::PushCompareTail { turn: u64::MAX }.access(4),
        Access::CompareTail { current: u64::MAX, new: 0 }
    );
    assert_eq!(Stage::PushStore { turn: 3 }.access(4), Access::Store { index: 3 });
    assert_eq!(
        Stage::PushPublish { turn: 3 }.access(4),
        Access::StoreSequence { index: 3, marker: 7 }
    );
    assert_eq!(Stage::PopLoadHead.access(4), Access::LoadHead);
    assert_eq!(Stage::PopLoadSequence { turn: 9 }.access(8), Access::LoadSequence { index: 1 });
    assert_eq!(Stage::PopRecheck.access(4), Access::LoadCounters);
    assert_eq!(
        Stage::PopCompareHead { turn: 9 }.access(8),
        Access::CompareHead { current: 9, new: 10 }
    );
    assert_eq!(Stage::PopTake { turn: 9 }.access(8), Access::Take { index: 1 });
    assert_eq!(
        Stage::PopRelease { turn: 3 }.access(4),
        Access::StoreSequence { index: 3, marker: 14 }
    );
    assert_eq!(
        Stage::Finished { outcome: Outcome::Missed }.access(4),
        Access::Return { outcome: Outcome::Missed }
    );
}

#[test]
fn answers_decide_the_next_stage() {
    let push = Stage::begin_push();
    assert_eq!(push, Stage::PushLoadTail);
    assert_eq!(push.advance(Reply::Word(5), 4), Stage::PushLoadSequence { turn: 5 });
    let seen = Stage::PushLoadSequence { turn: 5 };
    assert_eq!(seen.advance(Reply::Word(10), 4), Stage::PushCompareTail { turn: 5 });
    assert_eq!(seen.advance(Reply::Word(3), 4), Stage::PushRecheck);
    assert_eq!(seen.advance(Reply::Word(11), 4), Stage::PushRecheck);
    let recheck = Stage::PushRecheck;
    assert_eq!(
        recheck.advance(Reply::Counters { head: 1, tail: 5 }, 4),
        Stage::Finished { outcome: Outcome::Refused }
    );
    assert_eq!(recheck.advance(Reply::Counters { head: 2, tail: 5 }, 4), Stage::PushLoadTail);
    assert_eq!(
        recheck.advance(Reply::Counters { head: u64::MAX - 1, tail: 2 }, 4),
        Stage::Finished { outcome: Outcome::Refused }
    );
    let cas = Stage::PushCompareTail { turn: 5 };
    assert_eq!(cas.advance(Reply::Swapped(true), 4), Stage::PushStore { turn: 5 });
    assert_eq!(cas.advance(Reply::Swapped(false), 4), Stage::PushLoadTail);
    assert_eq!(Stage::PushStore { turn: 5 }.advance(Reply::Done, 4), Stage::PushPublish { turn: 5 });
    assert_eq!(
        Stage::PushPublish { turn: 5 }.advance(Reply::Done, 4),
        Stage::Finished { outcome: Outcome::Pushed }
    );

    let pop = Stage::begin_pop();
    assert_eq!(pop, Stage::PopLoadHead);
    assert_eq!(pop.advance(Reply::Word(5), 4), Stage::PopLoadSequence { turn: 5 });
    let seen = Stage::PopLoadSequence { turn: 5 };
    assert_eq!(seen.advance(Reply::Word(11), 4), Stage::PopCompareHead { turn: 5 });
    assert_eq!(seen.advance(Reply::Word(10), 4), Stage::PopRecheck);
    assert_eq!(
        Stage::PopRecheck.advance(Reply::Counters { head: 5, tail: 5 }, 4),
        Stage::Finished { outcome: Outcome::Missed }
    );
    assert_eq!(Stage::PopRecheck.advance(Reply::Counters { head: 5, tail: 6 }, 4), Stage::PopLoadHead);
    let cas = Stage::PopCompareHead { turn: 5 };
    assert_eq!(cas.advance(Reply::Swapped(true), 4), Stage::PopTake { turn: 5 });
    assert_eq!(cas.advance(Reply::Swapped(false), 4), Stage::PopLoadHead);
    assert_eq!(Stage::PopTake { turn: 5 }.advance(Reply::Done, 4), Stage::PopRelease { turn: 5 });
    assert_eq!(
        Stage::PopRelease { turn: 5 }.advance(Reply::Done, 4),
        Stage::Finished { outcome: Outcome::Popped }
    );
}

#[test]
fn answers_of_the_wrong_kind_change_nothing() {
    assert_eq!(Stage::PushLoadTail.advance(Reply::Done, 4), Stage::PushLoadTail);
    assert_eq!(Stage::PushRecheck.advance(Reply::Word(0), 4), Stage::PushRecheck);
    assert_eq!(
        Stage::PopTake { turn: 1 }.advance(Reply::Swapped(true), 4),
        Stage::PopTake { turn: 1 }
    );
    let over = Stage::Finished { outcome: Outcome::Pushed };
    assert_eq!(over.advance(Reply::Done, 4), over);
    assert_eq!(over.advance(Reply::Word(9), 4), over);
}

#[test]
fn two_pushes_race_for_one_turn() {
    let mut memory = Memory::new(4);
    let mut first = Call::push(100);
    let mut second = Call::push(200);
    // Both read the same tail and find the same slot free.
    first.step(&mut memory);
    second.step(&mut memory);
    first.step(&mut memory);
    second.step(&mut memory);
    assert_eq!(first.stage, Stage::PushCompareTail { turn: 0 });
    assert_eq!(second.stage, Stage::PushCompareTail { turn: 0 });
    // The second wins the turn; the first starts over.
    second.step(&mut memory);
    first.step(&mut memory);
    assert_eq!(second.stage, Stage::PushStore { turn: 0 });
    assert_eq!(first.stage, Stage::PushLoadTail);
    assert_eq!(first.finish(&mut memory), Outcome::Pushed);
    assert_eq!(second.finish(&mut memory), Outcome::Pushed);
    assert_eq!(memory.values, vec![Some(200), Some(100), None, None]);
    assert_eq!(memory.sequences, vec![1, 3, 4, 6]);
    assert_eq!(memory.tail, 2);
}

#[test]
fn pop_does_not_read_before_publish() {
    let mut memory = Memory::new(2);
    let mut push = Call::push(7);
    for _ in 0..3 {
        push.step(&mut memory);
    }
    assert_eq!(push.stage, Stage::PushStore { turn: 0 });
    // The turn is won but nothing is written: the pop must not take it.
    let mut pop = Call::pop();
    pop.step(&mut memory);
    pop.step(&mut memory);
    assert_eq!(pop.stage, Stage::PopRecheck);
    pop.step(&mut memory);
    assert_eq!(pop.stage, Stage::PopLoadHead);
    // Written but not published: still not.
    push.step(&mut memory);
    assert_eq!(push.stage, Stage::PushPublish { turn: 0 });
    pop.step(&mut memory);
    pop.step(&mut memory);
    assert_eq!(pop.stage, Stage::PopRecheck);
    pop.step(&mut memory);
    push.step(&mut memory);
    assert_eq!(push.outcome(), Some(Outcome::Pushed));
    assert_eq!(pop.finish(&mut memory), Outcome::Popped);
    assert_eq!(pop.carried, Some(7));
}

#[test]
fn push_does_not_write_before_release() {
    let mut memory = Memory::new(1);
    assert_eq!(Call::push(1).finish(&mut memory), Outcome::Pushed);
    let mut pop = Call::pop();
    for _ in 0..3 {
        pop.step(&mut memory);
    }
    assert_eq!(pop.stage, Stage::PopTake { turn: 0 });
    // The reader has won the turn but the value is still in the slot: the
    // queue counts as having room, and the push must wait.
    let mut push = Call::push(2);
    for _ in 0..3 {
        push.step(&mut memory);
    }
    assert_eq!(push.stage, Stage::PushLoadTail);
    pop.step(&mut memory);
    assert_eq!(pop.stage, Stage::PopRelease { turn: 0 });
    for _ in 0..3 {
        push.step(&mut memory);
    }
    assert_eq!(push.stage, Stage::PushLoadTail);
    pop.step(&mut memory);
    assert_eq!(pop.outcome(), Some(Outcome::Popped));
    assert_eq!(pop.carried, Some(1));
    assert_eq!(push.finish(&mut memory), Outcome::Pushed);
    assert_eq!(memory.values, vec![Some(2)]);
    assert_eq!(memory.sequences, vec![3]);
}

fn next_random(state: &mut u64) -> u64 {
    *state = state.wrapping_mul(6364136223846793005).wrapping_add(1442695040888963407);
    *state >> 33
}

fn run_interleaved(capacity: usize, producers: usize, consumers: usize, each: u64, seed: u64) {
    let mut memory = Memory::new(capacity);
    let mut random = seed;
    let mut sent_by: Vec<u64> = vec![0; producers];
    let mut calls: Vec<Option<Call>> = Vec::new();
    for _ in 0..producers + consumers {
        calls.push(None);
    }
    let mut sent: Vec<u64> = Vec::new();
    let mut received: Vec<u64> = Vec::new();
    let total = producers as u64 * each;
    let mut guard = 0u64;
    while (received.len() as u64) < total {
        guard += 1;
        assert!(guard < 10_000_000);
        let who = (next_random(&mut random) % (producers + consumers) as u64) as usize;
        if calls[who].is_none() {
            if who < producers {
                if sent_by[who] < each {
                    calls[who] = Some(Call::push(who as u64 * 1_000_000 + sent_by[who]));
                }
            } else {
                calls[who] = Some(Call::pop());
            }
            continue;
        }
        let call = calls[who].as_mut().unwrap();
        call.step(&mut memory);
        assert!(memory.tail.wrapping_sub(memory.head) <= capacity as u64);
        match call.outcome() {
            Some(Outcome::Pushed) => {
                assert!(call.carried.is_none());
                sent.push(who as u64 * 1_000_000 + sent_by[who]);
                sent_by[who] += 1;
                calls[who] = None;
            }
            Some(Outcome::Refused) => {
                assert!(call.carried.is_some());
                calls[who] = None;
            }
            Some(Outcome::Popped) => {
                received.push(call.carried.unwrap());
                calls[who] = None;
            }
            Some(Outcome::Missed) => {
                assert!(call.carried.is_none());
                calls[who] = None;
            }
            None => {}
        }
    }
    assert_eq!(sent.len() as u64, total);
    let mut sent_sorted = sent.clone();
    sent_sorted.sort();
    let mut received_sorted = received.clone();
    received_sorted.sort();
    assert_eq!(received_sorted, sent_sorted);
    received_sorted.dedup();
    assert_eq!(received_sorted.len() as u64, total);
    // Each producer's values arrive in the order in which it sent them when
    // one consumer drains the queue.
    if consumers == 1 {
        for who in 0..producers as u64 {
            let mine: Vec<u64> =
                received.iter().copied().filter(|v| v / 1_000_000 == who).collect();
            let mut ordered = mine.clone();
            ordered.sort();
            assert_eq!(mine, ordered);
        }
    }
}

#[test]
fn many_producers_one_consumer_lose_nothing() {
    for seed in 0..20u64 {
        run_interleaved(4, 3, 1, 40, seed);
        run_interleaved(1, 4, 1, 25, seed + 100);
        run_interleaved(8, 2, 1, 60, seed + 200);
    }
}

#[test]
fn many_producers_many_consumers_deliver_once() {
    for seed in 0..20u64 {
        run_interleaved(4, 3, 3, 40, seed);
        run_interleaved(2, 5, 2, 20, seed + 100);
        run_interleaved(16, 2, 4, 50, seed + 200);
        run_interleaved(1, 2, 2, 30, seed + 300);
    }
}
