use brz_ds::atomic::Trace;
use brz_ds::chunk::{ChunkState, Ticket};
use brz_ds::words::{
    cursor_frozen, cursor_offset, describe, freeze_cursor, named_chunk, plan_reservation,
    restart_cursor, settle_release, split_counts, ReleaseStep, ReservePlan, ALLOCATED_ONE, FROZEN,
    GENERATION_MASK, GENERATION_ONE,
};

fn reserve(chunk: &ChunkState, len: usize) -> Option<Ticket> {
    chunk.reserve(len, &mut Trace::new())
}

fn release(chunk: &ChunkState, ticket: Ticket) {
    chunk.release_ticket(ticket, &mut Trace::new());
}

fn snapshot(chunk: &ChunkState) -> (bool, usize, u32, u32) {
    chunk.snapshot(&mut Trace::new())
}

#[test]
fn reservations_follow_one_another() {
    let chunk = ChunkState::new(10);
    assert_eq!(chunk.capacity(), 10);
    assert_eq!(snapshot(&chunk), (false, 0, 0, 0));
    assert_eq!(reserve(&chunk, 4).unwrap().offset(), 0);
    assert_eq!(reserve(&chunk, 6).unwrap().offset(), 4);
    assert_eq!(snapshot(&chunk), (false, 10, 2, 0));
}

#[test]
fn a_request_without_room_freezes_the_chunk() {
    let chunk = ChunkState::new(10);
    assert_eq!(reserve(&chunk, 8).unwrap().offset(), 0);
    assert!(reserve(&chunk, 3).is_none());
    assert_eq!(snapshot(&chunk), (true, 8, 2, 1));
    // Frozen: not even what would fit, and no ticket is taken.
    assert!(reserve(&chunk, 1).is_none());
    assert_eq!(snapshot(&chunk), (true, 8, 2, 1));
}

#[test]
fn a_full_chunk_without_tickets_out_starts_over() {
    let chunk = ChunkState::new(10);
    let ticket = reserve(&chunk, 8).unwrap();
    release(&chunk, ticket);
    assert_eq!(snapshot(&chunk), (false, 8, 1, 1));
    assert!(reserve(&chunk, 3).is_none());
    assert_eq!(snapshot(&chunk), (false, 0, 0, 0));
}

#[test]
fn the_last_ticket_resets_a_frozen_chunk() {
    let chunk = ChunkState::new(2);
    let first = reserve(&chunk, 1).unwrap();
    let second = reserve(&chunk, 1).unwrap();
    assert_eq!((first.offset(), second.offset()), (0, 1));
    assert!(reserve(&chunk, 1).is_none());
    assert_eq!(snapshot(&chunk), (true, 2, 3, 1));
    release(&chunk, second);
    assert_eq!(snapshot(&chunk), (true, 2, 3, 2));
    release(&chunk, first);
    assert_eq!(snapshot(&chunk), (false, 0, 0, 0));
    assert_eq!(reserve(&chunk, 2).unwrap().offset(), 0);
}

#[test]
fn a_chunk_can_be_reset_again_and_again() {
    let chunk = ChunkState::new(4);
    for _ in 0..100 {
        let ticket = reserve(&chunk, 3).unwrap();
        assert_eq!(ticket.offset(), 0);
        assert!(reserve(&chunk, 2).is_none());
        assert_eq!(snapshot(&chunk), (true, 3, 2, 1));
        release(&chunk, ticket);
        assert_eq!(snapshot(&chunk), (false, 0, 0, 0));
    }
}

#[test]
fn an_open_chunk_is_not_reset() {
    let chunk = ChunkState::new(4);
    let ticket = reserve(&chunk, 1).unwrap();
    release(&chunk, ticket);
    assert_eq!(snapshot(&chunk), (false, 1, 1, 1));
    assert_eq!(reserve(&chunk, 3).unwrap().offset(), 1);
}

#[test]
fn cursors_carry_an_offset_a_generation_and_a_mark() {
    assert!(!cursor_frozen(7));
    let frozen = freeze_cursor(7);
    assert_eq!(frozen, FROZEN + 7);
    assert!(cursor_frozen(frozen));
    assert_eq!(cursor_offset(frozen), 7);
    assert_eq!(freeze_cursor(frozen), frozen);
    assert_eq!(cursor_offset(7), 7);
    assert_eq!(cursor_offset(3 * GENERATION_ONE + 7), 7);
    assert_eq!(freeze_cursor(3 * GENERATION_ONE + 7), FROZEN + 3 * GENERATION_ONE + 7);
}

#[test]
fn a_reset_opens_the_chunk_in_the_next_generation() {
    assert_eq!(restart_cursor(FROZEN + 7), GENERATION_ONE);
    assert_eq!(restart_cursor(FROZEN + 3 * GENERATION_ONE + 7), 4 * GENERATION_ONE);
    assert_eq!(restart_cursor(FROZEN + GENERATION_MASK + 7), 0);
}

#[test]
fn counts_carry_two_tallies() {
    let counts = 5 * ALLOCATED_ONE + 3;
    assert_eq!(split_counts(counts), (5, 3));
    assert_eq!(describe(FROZEN + GENERATION_ONE + 9, counts), (true, 9, 5, 3));
}

#[test]
fn a_reservation_acts_on_the_cursor_it_saw() {
    assert_eq!(plan_reservation(FROZEN, 1, 10), ReservePlan::Frozen);
    assert_eq!(plan_reservation(9, 2, 10), ReservePlan::Full);
    assert_eq!(plan_reservation(FROZEN - 1, 10, 10), ReservePlan::Full);
    assert_eq!(plan_reservation(1, usize::MAX, 10), ReservePlan::Full);
    assert_eq!(
        plan_reservation(8, 2, 10),
        ReservePlan::Fits { offset: 8, moved: 10 }
    );
    assert_eq!(
        plan_reservation(5 * GENERATION_ONE + 8, 2, 10),
        ReservePlan::Fits { offset: 8, moved: 5 * GENERATION_ONE + 10 }
    );
}

#[test]
fn a_returned_ticket_acts_on_the_counts_it_saw() {
    assert_eq!(
        settle_release(3 * ALLOCATED_ONE + 1),
        ReleaseStep::Outstanding
    );
    assert_eq!(
        settle_release(3 * ALLOCATED_ONE + 2),
        ReleaseStep::Balanced(3 * ALLOCATED_ONE + 3)
    );
    assert_eq!(settle_release(3 * ALLOCATED_ONE + 3), ReleaseStep::Overrun);
    assert_eq!(settle_release(u64::MAX), ReleaseStep::Overrun);
}

#[test]
fn the_lowest_bit_names_the_chunk() {
    assert_eq!(named_chunk(0), 0);
    assert_eq!(named_chunk(1), 1);
    assert_eq!(named_chunk(2), 0);
    assert_eq!(named_chunk(u64::MAX), 1);
}

#[test]
fn a_trace_takes_no_room() {
    assert_eq!(std::mem::size_of::<Trace>(), 0);
    assert_eq!(std::mem::size_of::<Ticket>(), std::mem::size_of::<usize>());
}
