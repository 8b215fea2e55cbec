use monza::{Buffer, InvalidCapacity, QueueFull};

fn filled(capacity: usize, values: &[u64]) -> Buffer<u64> {
    let mut buffer = Buffer::new(capacity).unwrap();
    for value in values {
        assert_eq!(buffer.push(*value), Ok(()));
    }
    buffer
}

#[test]
fn squares_come_back_in_order() {
    let mut buffer = filled(4, &[4, 9, 16, 25]);
    let mut out = Vec::new();
    for _ in 0..4 {
        out.push(buffer.pop().unwrap());
    }
    assert_eq!(out, vec![4, 9, 16, 25]);
    assert_eq!(buffer.pop(), None);
}

#[test]
fn fifth_push_into_four_slots_is_refused() {
    let mut buffer = filled(4, &[4, 9, 16, 25]);
    assert_eq!(buffer.push(36), Err(QueueFull));
    assert_eq!(buffer.len(), 4);
    assert_eq!(buffer.pop(), Some(4));
    assert_eq!(buffer.pop(), Some(9));
    assert_eq!(buffer.pop(), Some(16));
    assert_eq!(buffer.pop(), Some(25));
    assert_eq!(buffer.pop(), None);
}

#[test]
fn one_value_round_trip_in_256_slots() {
    let mut buffer = Buffer::new(256).unwrap();
    assert_eq!(buffer.push(10), Ok(()));
    assert_eq!(buffer.pop(), Some(10));
}

#[test]
fn round_trip_up_to_capacity() {
    for capacity in [1usize, 2, 4, 8, 64] {
        for count in 0..=capacity {
            let values: Vec<u64> = (0..count as u64).map(|i| i * i + 7).collect();
            let mut buffer = filled(capacity, &values);
            assert_eq!(buffer.len(), count);
            let mut out = Vec::new();
            for _ in 0..count {
                out.push(buffer.pop().unwrap());
            }
            assert_eq!(out, values);
            assert!(buffer.is_empty());
            assert_eq!(buffer.pop(), None);
        }
    }
}

#[test]
fn push_after_one_pop_from_full_succeeds() {
    let mut buffer = filled(8, &[1, 2, 3, 4, 5, 6, 7, 8]);
    assert!(buffer.is_full());
    assert_eq!(buffer.push(9), Err(QueueFull));
    assert_eq!(buffer.push(9), Err(QueueFull));
    assert!(buffer.is_full());
    assert_eq!(buffer.pop(), Some(1));
    assert!(!buffer.is_full());
    assert_eq!(buffer.push(9), Ok(()));
    assert!(buffer.is_full());
    let mut out = Vec::new();
    while let Some(value) = buffer.pop() {
        out.push(value);
    }
    assert_eq!(out, vec![2, 3, 4, 5, 6, 7, 8, 9]);
}

#[test]
fn pop_on_new_queue_is_empty() {
    let mut buffer: Buffer<String> = Buffer::new(2).unwrap();
    assert!(buffer.is_empty());
    assert_eq!(buffer.len(), 0);
    assert_eq!(buffer.pop(), None);
    assert_eq!(buffer.pop(), None);
    assert_eq!(buffer.push(String::from("a")), Ok(()));
    assert_eq!(buffer.pop(), Some(String::from("a")));
}

#[test]
fn balanced_calls_leave_queue_empty() {
    let mut buffer = Buffer::new(4).unwrap();
    let mut next = 0u64;
    let mut expected = 0u64;
    for round in 1..=20usize {
        let burst = round % 4 + 1;
        for _ in 0..burst {
            assert_eq!(buffer.push(next), Ok(()));
            next += 1;
        }
        assert_eq!(buffer.len(), burst);
        for _ in 0..burst {
            assert_eq!(buffer.pop(), Some(expected));
            expected += 1;
        }
        assert!(buffer.is_empty());
        assert_eq!(buffer.pop(), None);
    }
    assert_eq!(next, expected);
}

#[test]
fn many_laps_keep_order() {
    let mut buffer = Buffer::new(2).unwrap();
    assert_eq!(buffer.push(0u32), Ok(()));
    for value in 1..1000u32 {
        assert_eq!(buffer.push(value), Ok(()));
        assert_eq!(buffer.len(), 2);
        assert_eq!(buffer.push(value), Err(QueueFull));
        assert_eq!(buffer.pop(), Some(value - 1));
    }
    assert_eq!(buffer.pop(), Some(999));
    assert_eq!(buffer.pop(), None);
}

#[test]
fn capacity_one_alternates() {
    let mut buffer = Buffer::new(1).unwrap();
    assert_eq!(buffer.capacity(), 1);
    for value in 0..50u8 {
        assert!(buffer.is_empty());
        assert_eq!(buffer.push(value), Ok(()));
        assert!(buffer.is_full());
        assert_eq!(buffer.push(value), Err(QueueFull));
        assert_eq!(buffer.pop(), Some(value));
        assert_eq!(buffer.pop(), None);
    }
}

#[test]
fn capacity_must_be_a_power_of_two() {
    for capacity in [0usize, 3, 5, 6, 7, 9, 12, 100, 255, 257, usize::MAX] {
        assert!(matches!(Buffer::<u8>::new(capacity), Err(InvalidCapacity)));
    }
    for capacity in [1usize, 2, 4, 8, 16, 256, 1024] {
        let buffer = Buffer::<u8>::new(capacity).unwrap();
        assert_eq!(buffer.capacity(), capacity);
        assert_eq!(buffer.len(), 0);
        assert!(buffer.is_empty());
        assert!(!buffer.is_full());
    }
}

#[test]
fn tagged_values_from_several_producers_arrive_once() {
    let producers = 4u64;
    let per_producer = 25u64;
    let mut buffer = Buffer::new(8).unwrap();
    let mut sent = Vec::new();
    let mut received = Vec::new();
    let mut progress = vec![0u64; producers as usize];
    let mut turn = 0usize;
    while received.len() < (producers * per_producer) as usize {
        let who = turn % producers as usize;
        turn += 1;
        if progress[who] < per_producer {
            let tagged = who as u64 * 1000 + progress[who];
            if buffer.push(tagged).is_ok() {
                progress[who] += 1;
                sent.push(tagged);
            }
        }
        if turn % 3 == 0 || buffer.is_full() {
            if let Some(value) = buffer.pop() {
                received.push(value);
            }
        }
    }
    assert_eq!(buffer.pop(), None);
    assert_eq!(received, sent);
    let mut sorted = received.clone();
    sorted.sort();
    sorted.dedup();
    assert_eq!(sorted.len(), (producers * per_producer) as usize);
}

#[test]
fn multi_word_values_arrive_whole() {
    let mut buffer = Buffer::new(4).unwrap();
    for seed in 0..40u64 {
        let words = [seed, seed.wrapping_mul(31), seed ^ 0xdead_beef, seed + 17];
        let sum = words.iter().fold(0u64, |acc, w| acc.wrapping_add(*w));
        assert_eq!(buffer.push((words, sum)), Ok(()));
        if seed % 2 == 1 {
            for _ in 0..2 {
                let (got, check) = buffer.pop().unwrap();
                assert_eq!(got.iter().fold(0u64, |acc, w| acc.wrapping_add(*w)), check);
            }
        }
    }
    assert!(buffer.pop().is_none());
}
