//! The words that hold the state of a bump chunk.
//!
//! The cursor word is the offset of the next free byte (low half) under a
//! generation that every reset of the chunk raises, with the highest bit set once
//! the chunk is frozen. The counts word holds two tallies: how many tickets the
//! chunk has handed out (high half) and how many of them have come back (low
//! half).

use vstd::prelude::*;

verus! {

/// The bit of the cursor that marks a frozen chunk.
pub const FROZEN: u64 = 0x8000_0000_0000_0000;

/// The bits of the cursor that hold the offset.
pub const OFFSET_MASK: u64 = 0xffff_ffff;

/// The bits of the cursor that hold the generation.
pub const GENERATION_MASK: u64 = 0x7fff_ffff_0000_0000;

/// One generation, as it is added to the cursor.
pub const GENERATION_ONE: u64 = 0x1_0000_0000;

/// How many generations there are before they repeat.
pub const GENERATIONS: u64 = 0x8000_0000;

/// One handed-out ticket, as it is added to the counts word.
pub const ALLOCATED_ONE: u64 = 0x1_0000_0000;

/// Whether the chunk with this cursor accepts no further reservation.
pub open spec fn is_frozen(cursor: u64) -> bool {
    cursor >= FROZEN
}

/// The next free byte of the chunk with this cursor.
pub open spec fn offset_of(cursor: u64) -> nat {
    cursor as nat % GENERATION_ONE as nat
}

/// How often the chunk with this cursor has been reset, up to repetition.
pub open spec fn generation_of(cursor: u64) -> nat {
    cursor as nat % FROZEN as nat / GENERATION_ONE as nat
}

/// The cursor with the given parts.
#[verifier::opaque]
pub open spec fn cursor_word(frozen: bool, generation: nat, offset: nat) -> u64 {
    ((if frozen {
        FROZEN as nat
    } else {
        0
    }) + generation * GENERATION_ONE as nat + offset) as u64
}

/// The cursor with the frozen bit set and nothing else changed.
pub open spec fn frozen_word(cursor: u64) -> u64 {
    cursor_word(true, generation_of(cursor), offset_of(cursor))
}

/// The cursor of the chunk once it has been reset: open, empty, and of the next
/// generation.
pub open spec fn reset_word(cursor: u64) -> u64 {
    cursor_word(false, (generation_of(cursor) + 1) % GENERATIONS as nat, 0)
}

/// Tickets handed out since the counts were last zeroed.
pub open spec fn allocated(counts: u64) -> nat {
    counts as nat / ALLOCATED_ONE as nat
}

/// Tickets that came back since the counts were last zeroed.
pub open spec fn released(counts: u64) -> nat {
    counts as nat % ALLOCATED_ONE as nat
}

/// The counts word with the given tallies.
pub open spec fn counts_word(allocated: nat, released: nat) -> u64 {
    (allocated * ALLOCATED_ONE + released) as u64
}

/// What a reservation does on seeing a cursor.
#[derive(Clone, Copy, Debug, PartialEq, Eq)]
pub enum ReservePlan {
    /// The chunk is frozen: give the ticket back.
    Frozen,
    /// The request does not fit: freeze the chunk.
    Full,
    /// The request fits: its bytes start at `offset`, and `moved` is the cursor
    /// behind them.
    Fits { offset: u64, moved: u64 },
}

/// The plan of a request for `len` bytes in a chunk of `capacity` bytes.
pub open spec fn reserve_plan(cursor: u64, len: nat, capacity: nat) -> ReservePlan {
    if is_frozen(cursor) {
        ReservePlan::Frozen
    } else if offset_of(cursor) + len > capacity {
        ReservePlan::Full
    } else {
        ReservePlan::Fits { offset: offset_of(cursor) as u64, moved: (cursor + len) as u64 }
    }
}

/// What the return of a ticket finds.
#[derive(Clone, Copy, Debug, PartialEq, Eq)]
pub enum ReleaseStep {
    /// Other tickets are still out.
    Outstanding,
    /// This was the last one out; the counts word that says so.
    Balanced(u64),
    /// More tickets came back than went out, or the tally is exhausted.
    Overrun,
}

/// What the return of a ticket finds where the counts word was `old` before it.
pub open spec fn release_step(old: u64) -> ReleaseStep {
    if released(old) + 1 > u32::MAX || released(old) + 1 > allocated(old) {
        ReleaseStep::Overrun
    } else if released(old) + 1 == allocated(old) {
        ReleaseStep::Balanced(counts_word(allocated(old), allocated(old)))
    } else {
        ReleaseStep::Outstanding
    }
}

/// Moving an open cursor by bytes that stay below the next generation changes
/// nothing but the offset.
pub proof fn moved_cursor(cursor: u64, len: nat)
    requires
        !is_frozen(cursor),
        offset_of(cursor) + len <= OFFSET_MASK,
    ensures
        cursor + len < FROZEN,
        offset_of((cursor + len) as u64) == offset_of(cursor) + len,
        generation_of((cursor + len) as u64) == generation_of(cursor),
{
}

/// Freezing a cursor changes nothing but the frozen bit.
pub proof fn frozen_cursor(cursor: u64)
    ensures
        is_frozen(frozen_word(cursor)),
        offset_of(frozen_word(cursor)) == offset_of(cursor),
        generation_of(frozen_word(cursor)) == generation_of(cursor),
        is_frozen(cursor) ==> frozen_word(cursor) == cursor,
        !is_frozen(cursor) ==> frozen_word(cursor) == cursor + FROZEN,
{
    reveal(cursor_word);
    let rest: u64 = cursor % 0x8000_0000_0000_0000u64;
    assert(rest / 0x1_0000_0000u64 * 0x1_0000_0000u64 + cursor % 0x1_0000_0000u64 == rest && rest
        < 0x8000_0000_0000_0000u64) by (bit_vector)
        requires
            rest == cursor % 0x8000_0000_0000_0000u64,
    ;
    let frozen: u64 = (0x8000_0000_0000_0000u64 + rest) as u64;
    assert(frozen % 0x1_0000_0000u64 == cursor % 0x1_0000_0000u64 && frozen
        % 0x8000_0000_0000_0000u64 == rest) by (bit_vector)
        requires
            rest == cursor % 0x8000_0000_0000_0000u64,
            frozen == (0x8000_0000_0000_0000u64 + rest) as u64,
    ;
    assert(frozen_word(cursor) == frozen);
}

/// A reset opens the chunk, empties it and raises the generation.
pub proof fn reset_cursor(cursor: u64)
    ensures
        !is_frozen(reset_word(cursor)),
        offset_of(reset_word(cursor)) == 0,
        generation_of(reset_word(cursor)) == (generation_of(cursor) + 1) % GENERATIONS as nat,
{
    reveal(cursor_word);
}

/// The cursor's frozen bit.
#[inline]
pub fn cursor_frozen(cursor: u64) -> (frozen: bool)
    ensures
        frozen == is_frozen(cursor),
    opens_invariants none
    no_unwind
{
    assert((cursor & 0x8000_0000_0000_0000u64 != 0) == (cursor >= 0x8000_0000_0000_0000u64))
        by (bit_vector);
    cursor & FROZEN != 0
}

/// The cursor's offset.
#[inline]
pub fn cursor_offset(cursor: u64) -> (offset: u64)
    ensures
        offset == offset_of(cursor),
    opens_invariants none
    no_unwind
{
    assert(cursor & 0xffff_ffffu64 == cursor % 0x1_0000_0000u64) by (bit_vector);
    cursor & OFFSET_MASK
}

/// The cursor with its frozen bit set.
#[inline]
pub fn freeze_cursor(cursor: u64) -> (frozen: u64)
    ensures
        frozen == frozen_word(cursor),
    opens_invariants none
    no_unwind
{
    proof {
        reveal(cursor_word);
    }
    assert(cursor | 0x8000_0000_0000_0000u64 == 0x8000_0000_0000_0000u64 + cursor
        % 0x8000_0000_0000_0000u64) by (bit_vector);
    cursor | FROZEN
}

/// The cursor of the chunk once it has been reset.
#[inline]
pub fn restart_cursor(cursor: u64) -> (open: u64)
    ensures
        open == reset_word(cursor),
    opens_invariants none
    no_unwind
{
    proof {
        reveal(cursor_word);
    }
    let generation: u64 = cursor & GENERATION_MASK;
    assert(generation == cursor % 0x8000_0000_0000_0000u64 / 0x1_0000_0000u64 * 0x1_0000_0000u64
        && generation <= 0x7fff_ffff_0000_0000u64) by (bit_vector)
        requires
            generation == cursor & 0x7fff_ffff_0000_0000u64,
    ;
    let raised: u64 = generation + GENERATION_ONE;
    assert(raised & 0x7fff_ffff_0000_0000u64 == raised / 0x1_0000_0000u64 % 0x8000_0000u64
        * 0x1_0000_0000u64) by (bit_vector);
    raised & GENERATION_MASK
}

/// The two tallies of a counts word: handed out, come back.
#[inline]
pub fn split_counts(counts: u64) -> (tallies: (u32, u32))
    ensures
        tallies.0 == allocated(counts),
        tallies.1 == released(counts),
    opens_invariants none
    no_unwind
{
    assert((counts >> 32) == counts / 0x1_0000_0000u64) by (bit_vector);
    assert((counts >> 32) <= 0xffff_ffffu64) by (bit_vector);
    assert((counts & 0xffff_ffffu64) == counts % 0x1_0000_0000u64) by (bit_vector);
    assert((counts & 0xffff_ffffu64) <= 0xffff_ffffu64) by (bit_vector);
    ((counts >> 32) as u32, (counts & 0xffff_ffff) as u32)
}

/// What the two words say: whether the chunk is frozen, the next free byte, and
/// the two tallies.
pub open spec fn description(cursor: u64, counts: u64) -> (bool, usize, u32, u32) {
    (
        is_frozen(cursor),
        offset_of(cursor) as usize,
        allocated(counts) as u32,
        released(counts) as u32,
    )
}

/// Describes a chunk by the content of its two words.
pub fn describe(cursor: u64, counts: u64) -> (state: (bool, usize, u32, u32))
    ensures
        state == description(cursor, counts),
        state.0 == is_frozen(cursor),
        state.1 == offset_of(cursor),
        state.2 == allocated(counts),
        state.3 == released(counts),
    opens_invariants none
    no_unwind
{
    let offset: u64 = cursor_offset(cursor);
    let (out, back): (u32, u32) = split_counts(counts);
    (cursor_frozen(cursor), offset as usize, out, back)
}

/// The index of the chunk that an arena asks first where its current-chunk word
/// is `seen`: only the lowest bit counts.
#[inline]
pub fn named_chunk(seen: u64) -> (index: usize)
    ensures
        index == seen % 2,
    opens_invariants none
    no_unwind
{
    assert(seen & 1 == seen % 2) by (bit_vector);
    (seen & 1) as usize
}

/// Decides what a request for `len` bytes does on seeing `cursor`.
#[inline]
pub fn plan_reservation(cursor: u64, len: usize, capacity: usize) -> (plan: ReservePlan)
    requires
        capacity <= OFFSET_MASK,
    ensures
        plan == reserve_plan(cursor, len as nat, capacity as nat),
    opens_invariants none
    no_unwind
{
    if cursor_frozen(cursor) {
        return ReservePlan::Frozen;
    }
    let offset: u64 = cursor_offset(cursor);
    if len > capacity || offset > (capacity - len) as u64 {
        return ReservePlan::Full;
    }
    proof {
        moved_cursor(cursor, len as nat);
    }
    ReservePlan::Fits { offset, moved: cursor + len as u64 }
}

/// Decides what the return of a ticket finds where the counts were `old`.
#[inline]
pub fn settle_release(old: u64) -> (step: ReleaseStep)
    ensures
        step == release_step(old),
    opens_invariants none
    no_unwind
{
    let (out, back): (u32, u32) = split_counts(old);
    if back >= out {
        return ReleaseStep::Overrun;
    }
    if back + 1 == out {
        assert(out as u64 <= 0xffff_ffffu64 ==> ((out as u64) << 32) | (out as u64) == out as u64
            * 0x1_0000_0000u64 + out as u64) by (bit_vector);
        ReleaseStep::Balanced(((out as u64) << 32) | (out as u64))
    } else {
        ReleaseStep::Outstanding
    }
}

/// A cursor is its frozen bit, its generation and its offset, and a counts word is its
/// two tallies: no two words say the same.
pub proof fn words_are_their_parts(cursor: u64, counts: u64)
    ensures
        offset_of(cursor) < 0x1_0000_0000,
        generation_of(cursor) < 0x8000_0000,
        cursor == (if is_frozen(cursor) {
            0x8000_0000_0000_0000int
        } else {
            0int
        }) + generation_of(cursor) * 0x1_0000_0000 + offset_of(cursor),
        allocated(counts) < 0x1_0000_0000,
        released(counts) < 0x1_0000_0000,
        counts == allocated(counts) * 0x1_0000_0000 + released(counts),
{
    let rest: u64 = cursor % 0x8000_0000_0000_0000u64;
    assert(rest / 0x1_0000_0000u64 * 0x1_0000_0000u64 + cursor % 0x1_0000_0000u64 == rest && rest
        / 0x1_0000_0000u64 < 0x8000_0000u64) by (bit_vector)
        requires
            rest == cursor % 0x8000_0000_0000_0000u64,
    ;
}

/// A description shows the frozen bit, the offset and the two tallies as they are in the
/// words.
pub proof fn description_reads_the_words(cursor: u64, counts: u64)
    ensures
        description(cursor, counts).0 <==> cursor >= 0x8000_0000_0000_0000,
        description(cursor, counts).1 == cursor % 0x1_0000_0000,
        description(cursor, counts).2 == counts / 0x1_0000_0000,
        description(cursor, counts).3 == counts % 0x1_0000_0000,
{
}

/// A request is turned away from a chunk just if it is frozen, freezes it just if it does
/// not fit behind what is taken, and else starts where the taken bytes end and takes
/// just as many as it asked for.
pub proof fn plans_take_what_is_asked(cursor: u64, len: nat, capacity: nat)
    requires
        capacity < 0x1_0000_0000,
    ensures
        reserve_plan(cursor, len, capacity) is Frozen <==> cursor >= 0x8000_0000_0000_0000,
        reserve_plan(cursor, len, capacity) is Full <==> cursor < 0x8000_0000_0000_0000 && cursor
            % 0x1_0000_0000 + len > capacity,
        reserve_plan(cursor, len, capacity) matches ReservePlan::Fits { offset, moved } ==> {
            &&& offset == cursor % 0x1_0000_0000
            &&& moved == cursor + len
            &&& moved < 0x8000_0000_0000_0000
            &&& offset + len <= capacity
        },
{
    if reserve_plan(cursor, len, capacity) is Fits {
        moved_cursor(cursor, len);
    }
}

/// A ticket that comes back is the last one just if the tallies then agree, and it
/// overruns them just if none was out.
pub proof fn releases_balance_with_the_last_ticket(old: u64)
    ensures
        release_step(old) is Overrun <==> old / 0x1_0000_0000 <= old % 0x1_0000_0000,
        release_step(old) is Outstanding <==> old / 0x1_0000_0000 > old % 0x1_0000_0000 + 1,
        release_step(old) is Balanced <==> old / 0x1_0000_0000 == old % 0x1_0000_0000 + 1,
        release_step(old) matches ReleaseStep::Balanced(counts) ==> {
            &&& counts == old + 1
            &&& counts / 0x1_0000_0000 == old / 0x1_0000_0000
            &&& counts % 0x1_0000_0000 == old / 0x1_0000_0000
        },
{
}

} // verus!
