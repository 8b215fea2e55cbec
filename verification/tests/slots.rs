use monza::turn::{index_for, is_valid_capacity, marker_for_read, marker_for_write, turns_between};
use monza::Slot;

#[test]
fn markers_are_twice_the_turn_and_one_more() {
    assert_eq!(marker_for_write(0), 0);
    assert_eq!(marker_for_read(0), 1);
    assert_eq!(marker_for_write(3), 6);
    assert_eq!(marker_for_read(3), 7);
    assert_eq!(marker_for_write(1 << 62), 1 << 63);
    assert_eq!(marker_for_write(1 << 63), 0);
    assert_eq!(marker_for_read(u64::MAX), u64::MAX);
    assert_eq!(marker_for_write(u64::MAX), u64::MAX - 1);
}

#[test]
fn turns_between_counters_wrap() {
    assert_eq!(turns_between(0, 0), 0);
    assert_eq!(turns_between(3, 7), 4);
    assert_eq!(turns_between(u64::MAX, u64::MAX), 0);
    assert_eq!(turns_between(u64::MAX - 1, 2), 4);
    assert_eq!(turns_between(u64::MAX, 0), 1);
}

#[test]
fn index_is_turn_modulo_capacity() {
    assert_eq!(index_for(0, 4), 0);
    assert_eq!(index_for(5, 4), 1);
    assert_eq!(index_for(7, 8), 7);
    assert_eq!(index_for(8, 8), 0);
    assert_eq!(index_for(12345, 1), 0);
    assert_eq!(index_for(u64::MAX, 8), 7);
    assert_eq!(index_for(u64::MAX, 256), 255);
    assert_eq!(index_for(1000, 256), 1000 % 256);
}

#[test]
fn powers_of_two_are_valid_capacities() {
    assert!(!is_valid_capacity(0));
    assert!(is_valid_capacity(1));
    assert!(is_valid_capacity(2));
    assert!(!is_valid_capacity(3));
    assert!(is_valid_capacity(4));
    assert!(!is_valid_capacity(6));
    assert!(is_valid_capacity(1 << 20));
    assert!(!is_valid_capacity((1 << 20) + 1));
    assert!(!is_valid_capacity(usize::MAX));
    assert!(is_valid_capacity(usize::MAX / 2 + 1));
}

#[test]
fn new_slot_waits_for_first_writer() {
    let slot: Slot<u32> = Slot::init();
    assert!(slot.try_claim_for_write(0));
    assert!(!slot.try_claim_for_write(1));
    assert!(!slot.try_claim_for_read(0));
}

#[test]
fn slot_walks_through_one_lap() {
    let capacity = 4u64;
    let mut slot: Slot<&str> = Slot::starting_at(2);
    assert!(slot.try_claim_for_write(2));
    assert!(!slot.try_claim_for_write(6));
    slot.write("payload");
    assert!(slot.try_claim_for_write(2));
    assert!(!slot.try_claim_for_read(2));
    slot.publish();
    assert!(!slot.try_claim_for_write(2));
    assert!(slot.try_claim_for_read(2));
    assert!(!slot.try_claim_for_read(6));
    assert_eq!(slot.take(), Some("payload"));
    assert!(slot.try_claim_for_read(2));
    slot.release_for_next_lap(capacity);
    assert!(!slot.try_claim_for_read(2));
    assert!(!slot.try_claim_for_write(2));
    assert!(slot.try_claim_for_write(6));
}

#[test]
fn slot_markers_wrap_with_the_turn() {
    let capacity = 8u64;
    let last = u64::MAX - 3;
    let mut slot: Slot<u8> = Slot::starting_at(last);
    assert!(slot.try_claim_for_write(last));
    slot.write(1);
    slot.publish();
    assert!(slot.try_claim_for_read(last));
    assert_eq!(slot.take(), Some(1));
    slot.release_for_next_lap(capacity);
    assert!(slot.try_claim_for_write(last.wrapping_add(capacity)));
    assert!(slot.try_claim_for_write(4));
}
