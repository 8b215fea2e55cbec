//! Turn arithmetic: how reservation turns advance, which slot a turn maps to,
//! and the sequence markers by which a slot tells writers and readers whose
//! turn it is.
//!
//! Turns are 64-bit counters that wrap at the word boundary.  Every function
//! here is total on wrapped values: the capacity of a ring is a power of two,
//! so it divides the range of a turn and slot indices stay aligned across the
//! wrap.

use vstd::prelude::*;
use vstd::arithmetic::power2::{is_pow2, is_pow2_equiv, pow2, lemma2_to64, lemma2_to64_rest,
    lemma_pow2_adds, lemma_pow2_strictly_increases, lemma_pow2_pos};
use vstd::arithmetic::div_mod::{lemma_mod_multiples_basic, lemma_mod_multiples_vanish,
    lemma_add_mod_noop, lemma_small_mod, lemma_mod_bound};
use vstd::bits::{low_bits_mask, lemma_u64_low_bits_mask_is_mod};

verus! {

/// The turn that lies `by` reservations after `turn`, wrapping at the word
/// boundary.
pub open spec fn advance(turn: u64, by: u64) -> u64 {
    vstd::wrapping::u64_specs::wrapping_add(turn, by)
}

/// The number of turns from `head` up to `tail`, wrap-aware.
pub open spec fn distance(head: u64, tail: u64) -> u64 {
    vstd::wrapping::u64_specs::wrapping_sub(tail, head)
}

/// The marker of a slot that is free and waits for the writer of `turn`:
/// twice the turn, wrapped.  It is always even.
pub open spec fn write_marker(turn: u64) -> u64 {
    vstd::wrapping::u64_specs::wrapping_add(turn, turn)
}

/// The marker of a slot that holds the value written on `turn`: the write
/// marker plus one.  It is always odd.
pub open spec fn read_marker(turn: u64) -> u64 {
    (write_marker(turn) + 1) as u64
}

/// The marker a slot moves to when its reader lets go: from the read marker
/// of some turn to the write marker of the turn one lap (`capacity` turns)
/// later.
pub open spec fn next_lap_marker(marker: u64, capacity: u64) -> u64 {
    advance(advance(vstd::wrapping::u64_specs::wrapping_sub(marker, 1), capacity), capacity)
}

/// A ring may have any capacity that is a power of two (so at least one).
pub open spec fn valid_capacity(capacity: int) -> bool {
    is_pow2(capacity)
}

/// The index of the slot that serves `turn` in a ring of `capacity` slots.
pub open spec fn slot_index(turn: u64, capacity: int) -> int {
    turn as int % capacity
}

/// `base + offset` folded back into `0..capacity`, for `base` inside the ring
/// and an offset of at most one lap.
pub open spec fn fold_index(base: int, offset: int, capacity: int) -> int {
    if base + offset >= capacity {
        base + offset - capacity
    } else {
        base + offset
    }
}

/// A valid capacity is two to the power of some exponent below 64.
pub proof fn lemma_capacity_exponent(capacity: int) -> (exponent: nat)
    requires
        valid_capacity(capacity),
        capacity <= u64::MAX,
    ensures
        exponent < 64,
        pow2(exponent) == capacity,
{
    is_pow2_equiv(capacity);
    assert(vstd::arithmetic::power2::is_pow2_exists(capacity));
    let exponent: nat = choose|e: nat| vstd::arithmetic::power::pow(2, e) == capacity;
    vstd::arithmetic::power::lemma_pow_positive(2, exponent);
    lemma2_to64();
    lemma2_to64_rest();
    if exponent > 64 {
        lemma_pow2_strictly_increases(64, exponent);
    }
    exponent
}

/// A valid capacity is positive and divides the range of a turn counter.
pub proof fn lemma_capacity_divides_range(capacity: int)
    requires
        valid_capacity(capacity),
        capacity <= u64::MAX,
    ensures
        capacity >= 1,
        0x1_0000_0000_0000_0000int % capacity == 0,
{
    let exponent = lemma_capacity_exponent(capacity);
    lemma_pow2_pos(exponent);
    lemma2_to64();
    let rest = (64 - exponent) as nat;
    lemma_pow2_adds(exponent, rest);
    assert(pow2(64) == pow2(exponent) * pow2(rest));
    assert(pow2(exponent) * pow2(rest) == pow2(rest) as int * capacity) by (nonlinear_arith)
        requires
            pow2(exponent) == capacity,
    ;
    lemma_mod_multiples_basic(pow2(rest) as int, capacity);
}

/// Moving `offset` turns on moves the slot index `offset` places round the
/// ring, also where the turn counter wraps.
pub proof fn lemma_index_offset(turn: u64, offset: u64, capacity: int)
    requires
        valid_capacity(capacity),
        capacity <= u64::MAX,
        offset <= capacity,
    ensures
        0 <= slot_index(turn, capacity) < capacity,
        slot_index(advance(turn, offset), capacity) == fold_index(
            slot_index(turn, capacity),
            offset as int,
            capacity,
        ),
{
    lemma_capacity_divides_range(capacity);
    let range = 0x1_0000_0000_0000_0000int;
    let sum = turn as int + offset as int;
    let base = turn as int % capacity;
    lemma_mod_bound(turn as int, capacity);
    // The wrapped turn and the plain sum agree modulo the capacity.
    assert(advance(turn, offset) as int % capacity == sum % capacity) by {
        if sum > u64::MAX {
            let q = range / capacity;
            vstd::arithmetic::div_mod::lemma_fundamental_div_mod(range, capacity);
            assert(range == capacity * q);
            assert(advance(turn, offset) as int == sum - range);
            assert(capacity * (-q) == -(capacity * q)) by (nonlinear_arith);
            assert(sum - range == capacity * (-q) + sum);
            lemma_mod_multiples_vanish(-q, sum, capacity);
        }
    }
    // The sum and the folded index agree modulo the capacity.
    assert(sum % capacity == (base + offset as int) % capacity) by {
        lemma_add_mod_noop(turn as int, offset as int, capacity);
        lemma_add_mod_noop(base, offset as int, capacity);
        lemma_small_mod(base as nat, capacity as nat);
    }
    if base + offset >= capacity {
        let folded = base + offset - capacity;
        assert(capacity * 1 + folded == base + offset);
        lemma_mod_multiples_vanish(1, folded, capacity);
        lemma_small_mod(folded as nat, capacity as nat);
    } else {
        lemma_small_mod((base + offset) as nat, capacity as nat);
    }
}

/// A write marker is even, a read marker odd; so no turn's read marker is
/// any turn's write marker.
pub proof fn lemma_marker_parity(turn: u64)
    ensures
        write_marker(turn) % 2 == 0,
        write_marker(turn) < u64::MAX,
        read_marker(turn) == write_marker(turn) + 1,
        read_marker(turn) % 2 == 1,
{
}

/// Letting go of the slot read on `turn` leaves it with the write marker of
/// the turn one lap later.
pub proof fn lemma_next_lap(turn: u64, capacity: u64)
    ensures
        next_lap_marker(read_marker(turn), capacity) == write_marker(advance(turn, capacity)),
{
}

/// Whether `capacity` is a power of two.
pub fn is_valid_capacity(capacity: usize) -> (ok: bool)
    ensures
        ok == valid_capacity(capacity as int),
{
    let c: u64 = capacity as u64;
    proof {
        lemma_single_bit(c);
    }
    c != 0 && c & (c - 1) == 0
}

/// A nonzero word has a single bit set exactly when it is a power of two.
proof fn lemma_single_bit(n: u64)
    ensures
        (n != 0 && n & ((n - 1) as u64) == 0) == is_pow2(n as int),
    decreases n,
{
    reveal(is_pow2);
    if n > 1 {
        let h: u64 = n / 2;
        lemma_single_bit(h);
        assert(h == n as int / 2);
        assert((n & ((n - 1) as u64) == 0) == (n % 2 == 0 && h & ((h - 1) as u64) == 0))
            by (bit_vector)
            requires
                n > 1,
                h == n / 2,
        ;
        assert(n % 2 == 0 <==> n as int % 2 == 0);
    } else if n == 1 {
        assert(1u64 & ((1u64 - 1) as u64) == 0) by (bit_vector);
    }
}

/// The number of turns from `head` up to `tail`: the items that wait, or on
/// a ring in shared memory the items that waited when the counters were
/// read.
pub fn turns_between(head: u64, tail: u64) -> (turns: u64)
    ensures
        turns == distance(head, tail),
{
    tail.wrapping_sub(head)
}

/// The marker that a free slot shows to the writer of `turn`.
pub fn marker_for_write(turn: u64) -> (marker: u64)
    ensures
        marker == write_marker(turn),
{
    turn.wrapping_add(turn)
}

/// The marker that a filled slot shows to the reader of `turn`.
pub fn marker_for_read(turn: u64) -> (marker: u64)
    ensures
        marker == read_marker(turn),
{
    turn.wrapping_add(turn) + 1
}

/// The slot that serves `turn`, by masking the turn with `capacity - 1`.
pub fn index_for(turn: u64, capacity: usize) -> (index: usize)
    requires
        valid_capacity(capacity as int),
    ensures
        index == slot_index(turn, capacity as int),
        index < capacity,
{
    proof {
        lemma_capacity_divides_range(capacity as int);
        lemma_mask_is_mod(turn, capacity as u64);
        lemma_mod_bound(turn as int, capacity as int);
    }
    let mask: u64 = capacity as u64 - 1;
    (turn & mask) as usize
}

/// Masking with a power of two less one takes the remainder.
proof fn lemma_mask_is_mod(turn: u64, capacity: u64)
    requires
        valid_capacity(capacity as int),
    ensures
        turn & ((capacity - 1) as u64) == turn % capacity,
{
    let exponent = lemma_capacity_exponent(capacity as int);
    lemma2_to64();
    lemma2_to64_rest();
    lemma_u64_low_bits_mask_is_mod(turn, exponent);
    assert(low_bits_mask(exponent) == pow2(exponent) - 1);
}

} // verus!
