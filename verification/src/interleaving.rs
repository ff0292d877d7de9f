//! Any number of reservations at work on one chunk.
//!
//! A [`history`] is what any number of reservations do on a chunk, their accesses
//! interleaved freely, one at a time, in one order for all threads: each of them
//! leads a [`protocol::life`], and each access finds what the ones before it left
//! behind. What holds here of every history is what threads that share a chunk can
//! rely on.
//!
//! To see why, a history is played on a [`System`], which is the two words of the
//! chunk together with how far each of the reservations has come.

use crate::atomic::Op;
use crate::protocol;
use crate::protocol::Event;
use crate::protocol::Phase;
use crate::protocol::Words;
use crate::protocol::MAX_TRIES;
use crate::words;
use crate::words::ReleaseStep;
use crate::words::ALLOCATED_ONE;
use crate::words::GENERATIONS;
use vstd::prelude::*;

verus! {

/// One access in a history: the reservation `who` does `event`.
pub struct Move {
    pub who: int,
    pub event: Event,
}

/// The accesses of all reservations, in their order.
pub open spec fn all(moves: Seq<Move>) -> Seq<Event> {
    moves.map_values(|step: Move| step.event)
}

/// The accesses of one reservation, in their order.
pub open spec fn part(moves: Seq<Move>, who: int) -> Seq<Event>
    decreases moves.len(),
{
    if moves.len() == 0 {
        Seq::empty()
    } else if moves.last().who == who {
        part(moves.drop_last(), who).push(moves.last().event)
    } else {
        part(moves.drop_last(), who)
    }
}

/// One reservation, from its first look at the cursor to the end of its release.
pub struct Lease {
    pub phase: Phase,
    /// The era in which it last looked at the cursor of a chunk to be reset.
    pub seen: nat,
}

/// A chunk and everything that is under way on it.
pub struct System {
    pub capacity: nat,
    pub words: Words,
    /// How often the cursor has been reset.
    pub era: nat,
    pub leases: Seq<Lease>,
}

/// Whether a reservation in this phase has a ticket out.
pub open spec fn holds_ticket(phase: Phase) -> bool {
    match phase {
        Phase::Read { .. } => true,
        Phase::Claim { .. } => true,
        Phase::Freeze { .. } => true,
        Phase::Live { .. } => true,
        Phase::Release => true,
        _ => false,
    }
}

/// How many of the reservations have a ticket out.
pub open spec fn holders(leases: Seq<Lease>) -> nat
    decreases leases.len(),
{
    if leases.len() == 0 {
        0
    } else {
        holders(leases.drop_last()) + (if holds_ticket(leases.last().phase) {
            1nat
        } else {
            0nat
        })
    }
}

/// A fresh chunk that reservations of `lens` bytes are about to work on.
pub open spec fn fresh(capacity: nat, lens: Seq<nat>) -> System {
    System {
        capacity,
        words: Words { cursor: 0, counts: 0 },
        era: 0,
        leases: lens.map_values(|len: nat| Lease { phase: Phase::Probe { len }, seen: 0 }),
    }
}

/// Whether such reservations are ones that a chunk of `capacity` bytes takes.
pub open spec fn takes(capacity: nat, lens: Seq<nat>) -> bool {
    &&& 0 < capacity < u32::MAX
    &&& forall|i: int| 0 <= i < lens.len() ==> 0 < #[trigger] lens[i] <= capacity
}

/// Whether the reservations of a chunk can have made these accesses, from where they
/// were at the start.
pub open spec fn history(start: System, moves: Seq<Move>) -> bool {
    &&& forall|k: int|
        0 <= k < moves.len() ==> 0 <= (#[trigger] moves[k]).who < start.leases.len()
    &&& forall|i: int|
        0 <= i < start.leases.len() ==> #[trigger] protocol::life(
            start.capacity,
            start.leases[i].phase,
            part(moves, i),
        ) is Some
    &&& protocol::heard(start.words, all(moves)) is Some
}

/// How far the reservation `who` has come.
pub open spec fn reached(start: System, moves: Seq<Move>, who: int) -> Phase {
    protocol::life(start.capacity, start.leases[who].phase, part(moves, who))->0
}

/// The words of the chunk after the history.
pub open spec fn words_of(start: System, moves: Seq<Move>) -> Words {
    protocol::heard(start.words, all(moves))->0
}

/// Whether `event`, done in `phase`, resets the cursor.
pub open spec fn thaws(phase: Phase, event: Event) -> bool {
    phase is Thaw && (event.op matches Op::Swap { reply, .. } && reply is Ok)
}

/// Whether `event`, done in `phase`, zeroes the counts.
pub open spec fn zeroes(phase: Phase, event: Event) -> bool {
    phase is Zero && (event.op matches Op::Swap { reply, .. } && reply is Ok)
}

/// The system after `step`; nothing if the step cannot happen.
pub open spec fn apply(sys: System, step: Move) -> Option<System> {
    if 0 <= step.who < sys.leases.len() {
        let lease = sys.leases[step.who];
        match (
            protocol::life_next(sys.capacity, lease.phase, step.event),
            protocol::words_after(sys.words, step.event),
        ) {
            (Some(phase), Some(after)) => Some(
                System {
                    capacity: sys.capacity,
                    words: after,
                    era: if thaws(lease.phase, step.event) {
                        sys.era + 1
                    } else {
                        sys.era
                    },
                    leases: sys.leases.update(
                        step.who,
                        Lease {
                            phase,
                            seen: if lease.phase is Look {
                                sys.era
                            } else {
                                lease.seen
                            },
                        },
                    ),
                },
            ),
            _ => None,
        }
    } else {
        None
    }
}

/// The system after the steps.
pub open spec fn play(start: System, moves: Seq<Move>) -> Option<System>
    decreases moves.len(),
{
    if moves.len() == 0 {
        Some(start)
    } else {
        match play(start, moves.drop_last()) {
            Some(sys) => apply(sys, moves.last()),
            None => None,
        }
    }
}

/// Whether the bits of the words are enough for `step`: the tally of handed-out
/// tickets does not overflow, and nobody resets the cursor on the strength of a
/// look so old that all generations have gone by since.
pub open spec fn fits_the_words(sys: System, step: Move) -> bool {
    let lease = sys.leases[step.who];
    &&& lease.phase is Ticket ==> words::allocated(sys.words.counts) < u32::MAX
    &&& thaws(lease.phase, step.event) ==> sys.era - lease.seen < GENERATIONS
}

/// Whether the bits of the words are enough for each step of the history.
pub open spec fn within_limits(start: System, moves: Seq<Move>) -> bool
    decreases moves.len(),
{
    moves.len() > 0 ==> {
        &&& within_limits(start, moves.drop_last())
        &&& play(start, moves.drop_last()) matches Some(sys) ==> fits_the_words(
            sys,
            moves.last(),
        )
    }
}

/// A history can be played, and the play ends where each reservation has come to
/// and with the words that the accesses have left behind.
pub proof fn histories_can_be_played(start: System, moves: Seq<Move>)
    requires
        history(start, moves),
    ensures
        play(start, moves) is Some,
        ({
            let sys = play(start, moves)->0;
            &&& sys.capacity == start.capacity
            &&& sys.words == words_of(start, moves)
            &&& sys.leases.len() == start.leases.len()
            &&& forall|i: int|
                0 <= i < start.leases.len() ==> (#[trigger] sys.leases[i]).phase == reached(
                    start,
                    moves,
                    i,
                )
        }),
    decreases moves.len(),
{
    if moves.len() > 0 {
        let rest = moves.drop_last();
        let step = moves.last();
        assert(all(moves).drop_last() =~= all(rest));
        assert(moves[moves.len() - 1] == step);
        prefix_of_history(start, moves);
        histories_can_be_played(start, rest);
        let sys = play(start, rest)->0;
        let first = start.leases[step.who].phase;
        assert(protocol::life(start.capacity, first, part(moves, step.who)) is Some);
        protocol::life_push(start.capacity, first, part(rest, step.who), step.event);
        assert(sys.leases[step.who].phase == reached(start, rest, step.who));
    }
}

pub(crate) proof fn prefix_of_history(start: System, moves: Seq<Move>)
    requires
        history(start, moves),
        moves.len() > 0,
    ensures
        history(start, moves.drop_last()),
{
    let rest = moves.drop_last();
    assert(all(moves).drop_last() =~= all(rest));
    assert forall|k: int| 0 <= k < rest.len() implies 0 <= (#[trigger] rest[k]).who
        < start.leases.len() by {
        assert(rest[k] == moves[k]);
    }
    assert forall|i: int| 0 <= i < start.leases.len() implies #[trigger] protocol::life(
        start.capacity,
        start.leases[i].phase,
        part(rest, i),
    ) is Some by {
        let first = start.leases[i].phase;
        assert(protocol::life(start.capacity, first, part(moves, i)) is Some);
        if moves.last().who == i {
            protocol::life_push(start.capacity, first, part(rest, i), moves.last().event);
        }
    }
}

/// Whether some reservation owns bytes of the chunk.
spec fn any_live(leases: Seq<Lease>) -> bool {
    exists|i: int| 0 <= i < leases.len() && (#[trigger] leases[i]).phase is Live
}

/// Whether the two phases own no common byte.
pub open spec fn apart(a: Phase, b: Phase) -> bool {
    match (a, b) {
        (Phase::Live { len: alen, offset: astart }, Phase::Live { len: blen, offset: bstart }) => {
            astart + alen <= bstart || bstart + blen <= astart
        },
        _ => true,
    }
}

/// Whether the bytes that the phase owns lie below `end`.
pub open spec fn within(phase: Phase, end: nat) -> bool {
    match phase {
        Phase::Live { len, offset } => offset + len <= end,
        _ => true,
    }
}

/// How often the phase has failed so far.
spec fn tries_of(phase: Phase) -> nat {
    match phase {
        Phase::Claim { tries, .. } => tries,
        Phase::Freeze { tries, .. } => tries,
        Phase::Look { tries, .. } => tries,
        Phase::Zero { tries, .. } => tries,
        Phase::Thaw { tries, .. } => tries,
        _ => 0,
    }
}

/// What a phase carries along.
spec fn phase_sound(capacity: nat, phase: Phase) -> bool {
    match phase {
        Phase::Probe { len } => 0 < len <= capacity,
        Phase::Ticket { len } => 0 < len <= capacity,
        Phase::Read { len } => 0 < len <= capacity,
        Phase::Claim { len, cursor, .. } => {
            &&& 0 < len <= capacity
            &&& !words::is_frozen(cursor)
            &&& words::offset_of(cursor) + len <= capacity
        },
        Phase::Freeze { len, cursor, .. } => 0 < len <= capacity && !words::is_frozen(cursor),
        Phase::Live { len, offset } => 0 < len,
        Phase::Release => true,
        Phase::Look { balanced, .. } => words::allocated(balanced) == words::released(balanced),
        Phase::Zero { balanced, frozen, .. } => {
            &&& words::allocated(balanced) == words::released(balanced)
            &&& words::is_frozen(frozen)
        },
        Phase::Thaw { frozen, .. } => words::is_frozen(frozen),
        Phase::Done => true,
    }
}

/// The tallies say how many tickets are out, the cursor stays in the chunk, and
/// its generation counts the resets.
spec fn counted(sys: System) -> bool {
    &&& sys.capacity < u32::MAX
    &&& words::offset_of(sys.words.cursor) <= sys.capacity
    &&& words::generation_of(sys.words.cursor) == sys.era % GENERATIONS as nat
    &&& words::released(sys.words.counts) <= words::allocated(sys.words.counts)
    &&& holders(sys.leases) == words::allocated(sys.words.counts) - words::released(
        sys.words.counts,
    )
    &&& forall|i: int|
        0 <= i < sys.leases.len() ==> phase_sound(sys.capacity, (#[trigger] sys.leases[i]).phase)
}

/// The cursor that a reset has seen, if it has.
spec fn frozen_seen(phase: Phase) -> Option<u64> {
    match phase {
        Phase::Zero { frozen, .. } => Some(frozen),
        Phase::Thaw { frozen, .. } => Some(frozen),
        _ => None,
    }
}

/// A look at the cursor in the current era still holds, and an older one shows the
/// generation of its era.
spec fn looks_hold(sys: System) -> bool {
    forall|i: int|
        #![trigger sys.leases[i]]
        0 <= i < sys.leases.len() ==> {
            &&& sys.leases[i].seen <= sys.era
            &&& frozen_seen(sys.leases[i].phase) matches Some(frozen) ==> {
                &&& sys.leases[i].seen == sys.era ==> frozen == sys.words.cursor
                &&& words::generation_of(frozen) == sys.leases[i].seen % GENERATIONS as nat
            }
        }
}

/// Live frames are apart and behind the cursor, and none is live under a reset
/// that looked in this era.
spec fn settled(sys: System) -> bool {
    &&& forall|i: int|
        0 <= i < sys.leases.len() ==> within(
            (#[trigger] sys.leases[i]).phase,
            words::offset_of(sys.words.cursor),
        )
    &&& forall|i: int, j: int|
        #![trigger sys.leases[i], sys.leases[j]]
        0 <= i < j < sys.leases.len() ==> apart(sys.leases[i].phase, sys.leases[j].phase)
    &&& forall|i: int|
        0 <= i < sys.leases.len() && (#[trigger] sys.leases[i]).phase is Thaw
            && sys.leases[i].seen == sys.era ==> !any_live(sys.leases)
}

/// Whether the lease will look at, or is about to reset, the chunk as it is.
spec fn attends(sys: System, lease: Lease) -> bool {
    match lease.phase {
        Phase::Look { balanced, .. } => balanced == sys.words.counts,
        Phase::Zero { balanced, frozen, .. } => {
            &&& balanced == sys.words.counts
            &&& frozen == sys.words.cursor
        },
        Phase::Thaw { frozen, .. } => frozen == sys.words.cursor || sys.words.counts == 0,
        _ => false,
    }
}

/// A frozen chunk is never forgotten.
spec fn attended(sys: System) -> bool {
    words::is_frozen(sys.words.cursor) ==> holders(sys.leases) > 0 || exists|i: int|
        0 <= i < sys.leases.len() && attends(sys, #[trigger] sys.leases[i])
}

/// Nobody has failed more often than there were steps.
spec fn patient(sys: System, steps: nat) -> bool {
    forall|i: int| 0 <= i < sys.leases.len() ==> tries_of((#[trigger] sys.leases[i]).phase) <= steps
}

proof fn holders_update(leases: Seq<Lease>, who: int, lease: Lease)
    requires
        0 <= who < leases.len(),
    ensures
        holders(leases.update(who, lease)) + (if holds_ticket(leases[who].phase) {
            1nat
        } else {
            0nat
        }) == holders(leases) + (if holds_ticket(lease.phase) {
            1nat
        } else {
            0nat
        }),
    decreases leases.len(),
{
    let updated = leases.update(who, lease);
    if who == leases.len() - 1 {
        assert(updated.drop_last() =~= leases.drop_last());
    } else {
        assert(updated.drop_last() =~= leases.drop_last().update(who, lease));
        holders_update(leases.drop_last(), who, lease);
    }
}

proof fn holders_at_least_one(leases: Seq<Lease>, who: int)
    requires
        0 <= who < leases.len(),
        holds_ticket(leases[who].phase),
    ensures
        holders(leases) > 0,
    decreases leases.len(),
{
    if who < leases.len() - 1 {
        holders_at_least_one(leases.drop_last(), who);
    }
}

proof fn nobody_holds(leases: Seq<Lease>)
    requires
        forall|i: int|
            0 <= i < leases.len() ==> !holds_ticket((#[trigger] leases[i]).phase),
    ensures
        holders(leases) == 0,
    decreases leases.len(),
{
    if leases.len() > 0 {
        assert forall|i: int| 0 <= i < leases.drop_last().len() implies !holds_ticket(
            (#[trigger] leases.drop_last()[i]).phase,
        ) by {
            assert(!holds_ticket(leases[i].phase));
        }
        nobody_holds(leases.drop_last());
        assert(!holds_ticket(leases[leases.len() - 1].phase));
    }
}

/// Handing a ticket out or taking one back changes just one tally.
proof fn tally_add(counts: u64)
    ensures
        words::allocated(counts) < u32::MAX ==> {
            &&& counts + ALLOCATED_ONE < 0x1_0000_0000_0000_0000
            &&& words::allocated((counts + ALLOCATED_ONE) as u64) == words::allocated(counts) + 1
            &&& words::released((counts + ALLOCATED_ONE) as u64) == words::released(counts)
        },
        words::released(counts) < words::allocated(counts) ==> {
            &&& counts + 1 < 0x1_0000_0000_0000_0000
            &&& words::allocated((counts + 1) as u64) == words::allocated(counts)
            &&& words::released((counts + 1) as u64) == words::released(counts) + 1
        },
        words::allocated(counts) <= u32::MAX,
        counts == words::counts_word(words::allocated(counts), words::released(counts)),
{
}

/// A step of one reservation keeps what its phase carries along.
#[verifier::rlimit(40)]
proof fn move_is_sound(capacity: nat, phase: Phase, before: Words, event: Event)
    requires
        capacity < u32::MAX,
        words::offset_of(before.cursor) <= capacity,
        phase_sound(capacity, phase),
        protocol::life_next(capacity, phase, event) is Some,
        protocol::words_after(before, event) is Some,
    ensures
        phase_sound(capacity, protocol::life_next(capacity, phase, event)->0),
        words::offset_of(protocol::words_after(before, event)->0.cursor) <= capacity,
        thaws(phase, event) ==> {
            &&& before.cursor == phase->Thaw_frozen
            &&& protocol::words_after(before, event)->0.cursor == words::reset_word(before.cursor)
        },
        !thaws(phase, event) ==> words::generation_of(
            protocol::words_after(before, event)->0.cursor,
        ) == words::generation_of(before.cursor),
{
    words::frozen_cursor(before.cursor);
    words::reset_cursor(before.cursor);
    match phase {
        Phase::Claim { len, cursor, .. } => {
            words::moved_cursor(cursor, len);
        },
        _ => {},
    }
}

/// A step of one reservation moves the tallies as it takes or returns a ticket.
proof fn move_is_counted(capacity: nat, phase: Phase, before: Words, event: Event)
    requires
        capacity < u32::MAX,
        phase_sound(capacity, phase),
        protocol::life_next(capacity, phase, event) is Some,
        protocol::words_after(before, event) is Some,
        phase is Ticket ==> words::allocated(before.counts) < u32::MAX,
        phase is Release || phase is Live ==> words::released(before.counts) < words::allocated(
            before.counts,
        ),
        words::released(before.counts) <= words::allocated(before.counts),
    ensures
        ({
            let counts = protocol::words_after(before, event)->0.counts;
            let reached = protocol::life_next(capacity, phase, event)->0;
            let gained = if holds_ticket(reached) {
                1int
            } else {
                0int
            } - if holds_ticket(phase) {
                1int
            } else {
                0int
            };
            &&& words::released(counts) <= words::allocated(counts)
            &&& words::allocated(counts) - words::released(counts) == words::allocated(
                before.counts,
            ) - words::released(before.counts) + gained
        }),
{
    tally_add(before.counts);
}

#[verifier::rlimit(40)]
proof fn counted_preserved(sys: System, step: Move)
    requires
        counted(sys),
        apply(sys, step) is Some,
        fits_the_words(sys, step),
    ensures
        counted(apply(sys, step)->0),
{
    let after = apply(sys, step)->0;
    let lease = sys.leases[step.who];
    if holds_ticket(lease.phase) {
        holders_at_least_one(sys.leases, step.who);
    }
    tally_add(sys.words.counts);
    move_is_sound(sys.capacity, lease.phase, sys.words, step.event);
    move_is_counted(sys.capacity, lease.phase, sys.words, step.event);
    holders_update(sys.leases, step.who, after.leases[step.who]);
    words::reset_cursor(sys.words.cursor);
    generations_count(sys.era);
    assert forall|i: int| 0 <= i < after.leases.len() implies phase_sound(
        after.capacity,
        (#[trigger] after.leases[i]).phase,
    ) by {
        assert(phase_sound(sys.capacity, sys.leases[i].phase));
    }
}

/// One more era is one more generation.
proof fn generations_count(era: nat)
    ensures
        (era % GENERATIONS as nat + 1) % GENERATIONS as nat == (era + 1) % GENERATIONS as nat,
{
}

proof fn looks_hold_preserved(sys: System, step: Move)
    requires
        counted(sys),
        looks_hold(sys),
        apply(sys, step) is Some,
    ensures
        looks_hold(apply(sys, step)->0),
{
    let after = apply(sys, step)->0;
    let lease = sys.leases[step.who];
    assert(phase_sound(sys.capacity, lease.phase));
    assert forall|i: int|
        #![trigger after.leases[i]]
        0 <= i < after.leases.len() implies {
        &&& after.leases[i].seen <= after.era
        &&& frozen_seen(after.leases[i].phase) matches Some(frozen) ==> {
            &&& after.leases[i].seen == after.era ==> frozen == after.words.cursor
            &&& words::generation_of(frozen) == after.leases[i].seen % GENERATIONS as nat
        }
    } by {
        assert(phase_sound(sys.capacity, sys.leases[i].phase));
        assert(sys.leases[i].seen <= sys.era);
    }
}

/// A reset of the cursor looked at it in the current era.
proof fn thaw_is_in_time(sys: System, step: Move)
    requires
        counted(sys),
        looks_hold(sys),
        apply(sys, step) is Some,
        fits_the_words(sys, step),
        thaws(sys.leases[step.who].phase, step.event),
    ensures
        sys.leases[step.who].seen == sys.era,
{
    let lease = sys.leases[step.who];
    assert(phase_sound(sys.capacity, lease.phase));
    move_is_sound(sys.capacity, lease.phase, sys.words, step.event);
    assert(lease.seen % 0x8000_0000 == sys.era % 0x8000_0000);
}

proof fn settled_preserved(sys: System, step: Move)
    requires
        counted(sys),
        looks_hold(sys),
        settled(sys),
        apply(sys, step) is Some,
        fits_the_words(sys, step),
    ensures
        settled(apply(sys, step)->0),
{
    let after = apply(sys, step)->0;
    let who = step.who;
    let event = step.event;
    let lease = sys.leases[who];
    let moved = after.leases[who];
    assert(phase_sound(sys.capacity, lease.phase));
    move_is_sound(sys.capacity, lease.phase, sys.words, event);
    words::frozen_cursor(sys.words.cursor);
    if thaws(lease.phase, event) {
        thaw_is_in_time(sys, step);
    }
    match lease.phase {
        Phase::Claim { len, cursor, .. } => {
            words::moved_cursor(cursor, len);
        },
        _ => {},
    }
    if !(moved.phase is Live) && any_live(after.leases) {
        let i = choose|i: int|
            0 <= i < after.leases.len() && (#[trigger] after.leases[i]).phase is Live;
        assert(sys.leases[i].phase is Live);
        assert(any_live(sys.leases));
    }
    if zeroes(lease.phase, event) && any_live(sys.leases) {
        let i = choose|i: int|
            0 <= i < sys.leases.len() && (#[trigger] sys.leases[i]).phase is Live;
        holders_at_least_one(sys.leases, i);
    }
    assert forall|i: int| 0 <= i < after.leases.len() implies within(
        (#[trigger] after.leases[i]).phase,
        words::offset_of(after.words.cursor),
    ) by {
        assert(within(sys.leases[i].phase, words::offset_of(sys.words.cursor)));
        if thaws(lease.phase, event) && after.leases[i].phase is Live {
            assert(sys.leases[i].phase is Live);
        }
    }
    assert forall|i: int, j: int|
        #![trigger after.leases[i], after.leases[j]]
        0 <= i < j < after.leases.len() implies apart(
        after.leases[i].phase,
        after.leases[j].phase,
    ) by {
        assert(apart(sys.leases[i].phase, sys.leases[j].phase));
        assert(within(sys.leases[i].phase, words::offset_of(sys.words.cursor)));
        assert(within(sys.leases[j].phase, words::offset_of(sys.words.cursor)));
    }
    assert forall|i: int|
        0 <= i < after.leases.len() && (#[trigger] after.leases[i]).phase is Thaw
            && after.leases[i].seen == after.era implies !any_live(after.leases) by {
        assert(phase_sound(sys.capacity, sys.leases[i].phase));
        assert(sys.leases[i].seen <= sys.era);
    }
}

proof fn attended_preserved(sys: System, step: Move, steps: nat)
    requires
        counted(sys),
        attended(sys),
        patient(sys, steps),
        steps + 1 < MAX_TRIES,
        apply(sys, step) is Some,
        fits_the_words(sys, step),
    ensures
        attended(apply(sys, step)->0),
{
    let after = apply(sys, step)->0;
    let who = step.who;
    let lease = sys.leases[who];
    counted_preserved(sys, step);
    tally_add(sys.words.counts);
    tally_add(after.words.counts);
    assert(phase_sound(sys.capacity, lease.phase));
    move_is_sound(sys.capacity, lease.phase, sys.words, step.event);
    words::reset_cursor(sys.words.cursor);
    assert(tries_of(lease.phase) <= steps);
    holders_update(sys.leases, who, after.leases[who]);
    if holds_ticket(lease.phase) {
        holders_at_least_one(sys.leases, who);
    }
    if words::is_frozen(after.words.cursor) && holders(after.leases) == 0 {
        if holders(sys.leases) > 0 {
            assert(lease.phase is Release || lease.phase is Live);
            assert(attends(after, after.leases[who]));
        } else {
            assert(words::is_frozen(sys.words.cursor));
            let i = choose|i: int|
                0 <= i < sys.leases.len() && attends(sys, #[trigger] sys.leases[i]);
            if i != who && !zeroes(lease.phase, step.event) {
                assert(attends(after, after.leases[i]));
            } else {
                assert(attends(after, after.leases[who]));
            }
        }
    }
}

proof fn patient_preserved(sys: System, step: Move, steps: nat)
    requires
        patient(sys, steps),
        apply(sys, step) is Some,
    ensures
        patient(apply(sys, step)->0, steps + 1),
{
    let after = apply(sys, step)->0;
    assert forall|i: int| 0 <= i < after.leases.len() implies tries_of(
        (#[trigger] after.leases[i]).phase,
    ) <= steps + 1 by {
        assert(tries_of(sys.leases[i].phase) <= steps);
    }
}

proof fn fresh_is_sound(capacity: nat, lens: Seq<nat>)
    requires
        takes(capacity, lens),
    ensures
        counted(fresh(capacity, lens)),
        looks_hold(fresh(capacity, lens)),
        settled(fresh(capacity, lens)),
        attended(fresh(capacity, lens)),
        patient(fresh(capacity, lens), 0),
{
    let sys = fresh(capacity, lens);
    assert forall|i: int| 0 <= i < sys.leases.len() implies (#[trigger] sys.leases[i]).phase == (
    Phase::Probe { len: lens[i] }) by {}
    nobody_holds(sys.leases);
}

proof fn invariants_reached(capacity: nat, lens: Seq<nat>, moves: Seq<Move>)
    requires
        takes(capacity, lens),
        history(fresh(capacity, lens), moves),
        within_limits(fresh(capacity, lens), moves),
    ensures
        play(fresh(capacity, lens), moves) is Some,
        counted(play(fresh(capacity, lens), moves)->0),
        looks_hold(play(fresh(capacity, lens), moves)->0),
        settled(play(fresh(capacity, lens), moves)->0),
        patient(play(fresh(capacity, lens), moves)->0, moves.len()),
        moves.len() < MAX_TRIES ==> attended(play(fresh(capacity, lens), moves)->0),
    decreases moves.len(),
{
    histories_can_be_played(fresh(capacity, lens), moves);
    if moves.len() == 0 {
        assert(moves =~= Seq::<Move>::empty());
        fresh_is_sound(capacity, lens);
    } else {
        let rest = moves.drop_last();
        prefix_of_history(fresh(capacity, lens), moves);
        invariants_reached(capacity, lens, rest);
        let sys = play(fresh(capacity, lens), rest)->0;
        counted_preserved(sys, moves.last());
        looks_hold_preserved(sys, moves.last());
        settled_preserved(sys, moves.last());
        patient_preserved(sys, moves.last(), rest.len());
        if moves.len() < MAX_TRIES {
            attended_preserved(sys, moves.last(), rest.len());
        }
    }
}

/// In every history the tallies differ by the number of tickets that are out, and
/// a ticket that comes back never finds them overrun.
pub proof fn tickets_are_counted(capacity: nat, lens: Seq<nat>, moves: Seq<Move>)
    requires
        takes(capacity, lens),
        history(fresh(capacity, lens), moves),
        within_limits(fresh(capacity, lens), moves),
    ensures
        ({
            let counts = words_of(fresh(capacity, lens), moves).counts;
            &&& words::released(counts) <= words::allocated(counts)
            &&& words::allocated(counts) - words::released(counts) == holders(
                play(fresh(capacity, lens), moves)->0.leases,
            )
            &&& forall|i: int|
                0 <= i < lens.len() && holds_ticket(#[trigger] reached(fresh(capacity, lens), moves, i))
                    ==> words::release_step(counts) != ReleaseStep::Overrun
        }),
{
    invariants_reached(capacity, lens, moves);
    histories_can_be_played(fresh(capacity, lens), moves);
    let sys = play(fresh(capacity, lens), moves)->0;
    assert forall|i: int|
        0 <= i < lens.len() && holds_ticket(#[trigger] reached(fresh(capacity, lens), moves, i)) implies
        words::release_step(sys.words.counts) != ReleaseStep::Overrun by {
        assert(sys.leases[i].phase == reached(fresh(capacity, lens), moves, i));
        holders_at_least_one(sys.leases, i);
    }
}

/// In every history, live frames lie inside the chunk and no two of them share a
/// byte.
pub proof fn live_frames_never_overlap(capacity: nat, lens: Seq<nat>, moves: Seq<Move>)
    requires
        takes(capacity, lens),
        history(fresh(capacity, lens), moves),
        within_limits(fresh(capacity, lens), moves),
    ensures
        forall|i: int|
            0 <= i < lens.len() ==> within(#[trigger] reached(fresh(capacity, lens), moves, i), capacity),
        forall|i: int, j: int|
            #![trigger reached(fresh(capacity, lens), moves, i), reached(fresh(capacity, lens), moves, j)]
            0 <= i < j < lens.len() ==> apart(
                reached(fresh(capacity, lens), moves, i),
                reached(fresh(capacity, lens), moves, j),
            ),
{
    invariants_reached(capacity, lens, moves);
    histories_can_be_played(fresh(capacity, lens), moves);
    let sys = play(fresh(capacity, lens), moves)->0;
    assert forall|i: int| 0 <= i < lens.len() implies within(
        #[trigger] reached(fresh(capacity, lens), moves, i),
        capacity,
    ) by {
        assert(within(sys.leases[i].phase, words::offset_of(sys.words.cursor)));
    }
    assert forall|i: int, j: int|
        #![trigger reached(fresh(capacity, lens), moves, i), reached(fresh(capacity, lens), moves, j)]
        0 <= i < j < lens.len() implies apart(
        reached(fresh(capacity, lens), moves, i),
        reached(fresh(capacity, lens), moves, j),
    ) by {
        assert(apart(sys.leases[i].phase, sys.leases[j].phase));
    }
}

/// In every history, the cursor is reset only once every frame of the chunk has
/// been dropped, and the counts are zeroed only while no ticket is out.
pub proof fn reset_waits_for_every_frame(
    capacity: nat,
    lens: Seq<nat>,
    moves: Seq<Move>,
    step: Move,
)
    requires
        takes(capacity, lens),
        history(fresh(capacity, lens), moves.push(step)),
        within_limits(fresh(capacity, lens), moves.push(step)),
    ensures
        thaws(reached(fresh(capacity, lens), moves, step.who), step.event) ==> forall|i: int|
            0 <= i < lens.len() ==> !(#[trigger] reached(fresh(capacity, lens), moves, i) is Live),
        zeroes(reached(fresh(capacity, lens), moves, step.who), step.event) ==> forall|i: int|
            0 <= i < lens.len() ==> !holds_ticket(#[trigger] reached(fresh(capacity, lens), moves, i)),
{
    let longer = moves.push(step);
    assert(longer.drop_last() =~= moves);
    assert(longer[moves.len() as int] == step);
    prefix_of_history(fresh(capacity, lens), longer);
    histories_can_be_played(fresh(capacity, lens), longer);
    histories_can_be_played(fresh(capacity, lens), moves);
    invariants_reached(capacity, lens, moves);
    let sys = play(fresh(capacity, lens), moves)->0;
    let lease = sys.leases[step.who];
    assert(lease.phase == reached(fresh(capacity, lens), moves, step.who));
    assert(phase_sound(sys.capacity, lease.phase));
    if thaws(lease.phase, step.event) {
        thaw_is_in_time(sys, step);
        assert(lease.phase is Thaw && lease.seen == sys.era);
        assert forall|i: int| 0 <= i < lens.len() implies !(#[trigger] reached(fresh(capacity, lens),
            moves,
            i,
        ) is Live) by {
            assert(sys.leases[i].phase == reached(fresh(capacity, lens), moves, i));
        }
    }
    if zeroes(lease.phase, step.event) {
        assert forall|i: int| 0 <= i < lens.len() implies !holds_ticket(
            #[trigger] reached(fresh(capacity, lens), moves, i),
        ) by {
            assert(sys.leases[i].phase == reached(fresh(capacity, lens), moves, i));
            if holds_ticket(sys.leases[i].phase) {
                holders_at_least_one(sys.leases, i);
            }
        }
    }
}

/// In every history, nobody comes to own bytes of a chunk while it is frozen.
pub proof fn frozen_chunk_issues_nothing(
    capacity: nat,
    lens: Seq<nat>,
    moves: Seq<Move>,
    step: Move,
)
    requires
        takes(capacity, lens),
        history(fresh(capacity, lens), moves.push(step)),
        within_limits(fresh(capacity, lens), moves),
        words::is_frozen(words_of(fresh(capacity, lens), moves).cursor),
    ensures
        !(reached(fresh(capacity, lens), moves.push(step), step.who) is Live),
{
    let longer = moves.push(step);
    assert(longer.drop_last() =~= moves);
    assert(longer[moves.len() as int] == step);
    prefix_of_history(fresh(capacity, lens), longer);
    histories_can_be_played(fresh(capacity, lens), longer);
    histories_can_be_played(fresh(capacity, lens), moves);
    invariants_reached(capacity, lens, moves);
    let sys = play(fresh(capacity, lens), moves)->0;
    assert(phase_sound(sys.capacity, sys.leases[step.who].phase));
    assert(play(fresh(capacity, lens), longer)->0.leases[step.who].phase == reached(fresh(capacity, lens),
        longer,
        step.who,
    ));
}

/// In every history, a chunk on which nothing is under way is not frozen, and all
/// of its tickets have come back.
///
/// A history has fewer steps than a reset tries to catch up with a chunk that
/// others keep resetting.
pub proof fn quiet_chunk_is_usable(capacity: nat, lens: Seq<nat>, moves: Seq<Move>)
    requires
        takes(capacity, lens),
        history(fresh(capacity, lens), moves),
        within_limits(fresh(capacity, lens), moves),
        moves.len() < MAX_TRIES,
        forall|i: int|
            0 <= i < lens.len() ==> {
                let phase = #[trigger] reached(fresh(capacity, lens), moves, i);
                phase is Done || phase is Probe
            },
    ensures
        ({
            let words = words_of(fresh(capacity, lens), moves);
            &&& !words::is_frozen(words.cursor)
            &&& words::offset_of(words.cursor) <= capacity
            &&& words::allocated(words.counts) == words::released(words.counts)
        }),
{
    invariants_reached(capacity, lens, moves);
    histories_can_be_played(fresh(capacity, lens), moves);
    let sys = play(fresh(capacity, lens), moves)->0;
    assert forall|i: int| 0 <= i < sys.leases.len() implies (#[trigger] sys.leases[i]).phase is Done
        || sys.leases[i].phase is Probe by {
        assert(sys.leases[i].phase == reached(fresh(capacity, lens), moves, i));
    }
    nobody_holds(sys.leases);
}

/// A chunk with frames out, none of them being released yet, that a request for
/// `len` bytes is about to be made to.
pub open spec fn contested(capacity: nat, words: Words, frames: Seq<Phase>, len: nat) -> System {
    System {
        capacity,
        words,
        era: words::generation_of(words.cursor),
        leases: frames.map_values(|phase: Phase| Lease { phase, seen: 0 }).push(
            Lease { phase: Phase::Probe { len }, seen: 0 },
        ),
    }
}

/// The counts with this many tickets handed out and all of them back.
spec fn all_back(tickets: nat) -> u64 {
    words::counts_word(tickets, tickets)
}

/// What each reservation carries along in such a race. The frames that come back
/// before the request has its ticket can leave the counts balanced once; from then on
/// they are balanced only with all tickets back.
spec fn contender_sound(before: Words, sys: System, i: int) -> bool {
    let tickets = words::allocated(before.counts);
    match sys.leases[i].phase {
        Phase::Live { .. } => i < sys.leases.len() - 1,
        Phase::Look { balanced, .. } => {
            balanced == all_back(tickets) || balanced == all_back(tickets + 1)
        },
        Phase::Zero { balanced, frozen, .. } => {
            &&& balanced == all_back(tickets) || balanced == all_back(tickets + 1)
            &&& frozen == words::frozen_word(before.cursor)
        },
        Phase::Thaw { frozen, .. } => {
            &&& frozen == words::frozen_word(before.cursor)
            &&& sys.leases[i].seen == sys.era
        },
        Phase::Done => true,
        _ => i == sys.leases.len() - 1,
    }
}

/// The race before the chunk is frozen.
spec fn contest_open(before: Words, sys: System) -> bool {
    let tickets = words::allocated(before.counts);
    &&& sys.words.cursor == before.cursor
    &&& forall|i: int|
        0 <= i < sys.leases.len() - 1 ==> (match (#[trigger] sys.leases[i]).phase {
            Phase::Live { .. } => true,
            Phase::Look { .. } => true,
            Phase::Done => true,
            _ => false,
        })
    &&& match sys.leases.last().phase {
        Phase::Probe { len } => {
            &&& words::offset_of(before.cursor) + len > sys.capacity
            &&& words::allocated(sys.words.counts) == tickets
        },
        Phase::Ticket { len } => {
            &&& words::offset_of(before.cursor) + len > sys.capacity
            &&& words::allocated(sys.words.counts) == tickets
        },
        Phase::Read { len } => {
            &&& words::offset_of(before.cursor) + len > sys.capacity
            &&& words::allocated(sys.words.counts) == tickets + 1
        },
        Phase::Freeze { cursor, .. } => {
            &&& cursor == before.cursor
            &&& words::allocated(sys.words.counts) == tickets + 1
        },
        _ => false,
    }
}

/// The race from the freeze until the counts are zeroed.
spec fn contest_frozen(before: Words, sys: System) -> bool {
    let request = sys.leases.last().phase;
    &&& sys.words.cursor == words::frozen_word(before.cursor)
    &&& words::allocated(sys.words.counts) == words::allocated(before.counts) + 1
    &&& forall|i: int|
        #![trigger sys.leases[i]]
        0 <= i < sys.leases.len() ==> {
            &&& !(sys.leases[i].phase is Thaw)
            &&& sys.leases[i].phase is Zero ==> sys.leases[i].seen == sys.era
        }
    &&& request is Release || request is Look || request is Zero || request is Done
    &&& holders(sys.leases) == 0 ==> exists|i: int|
        0 <= i < sys.leases.len() && attends(sys, #[trigger] sys.leases[i])
}

/// The race from then on.
spec fn contest_settled(before: Words, sys: System) -> bool {
    let request = sys.leases.last().phase;
    let frozen = words::frozen_word(before.cursor);
    &&& sys.words.counts == 0
    &&& request is Look || request is Zero || request is Thaw || request is Done
    &&& {
        ||| {
            &&& sys.words.cursor == frozen
            &&& exists|t: int|
                0 <= t < sys.leases.len() && (#[trigger] sys.leases[t]).phase is Thaw && only(
                    sys.leases,
                    t,
                )
        }
        ||| {
            &&& sys.words.cursor == words::reset_word(frozen)
            &&& forall|i: int|
                0 <= i < sys.leases.len() ==> !((#[trigger] sys.leases[i]).phase is Thaw)
        }
    }
}

/// Whether nobody but `t` is about to reset the cursor.
spec fn only(leases: Seq<Lease>, t: int) -> bool {
    forall|i: int| 0 <= i < leases.len() && i != t ==> !((#[trigger] leases[i]).phase is Thaw)
}

/// How such a request and the releases of the frames stand on the way, where the
/// request does not fit.
spec fn contesting(before: Words, sys: System) -> bool {
    &&& counted(sys)
    &&& sys.leases.len() > 0
    &&& forall|i: int|
        #![trigger sys.leases[i]]
        0 <= i < sys.leases.len() ==> contender_sound(before, sys, i)
    &&& contest_open(before, sys) || contest_frozen(before, sys) || contest_settled(before, sys)
}

spec fn contest_terms(before: Words, sys: System, step: Move) -> bool {
    &&& contesting(before, sys)
    &&& 0 < words::allocated(before.counts) < u32::MAX
    &&& !words::is_frozen(before.cursor)
    &&& apply(sys, step) is Some
}

/// The step of one contender, taken by itself.
proof fn contender_moves(before: Words, sys: System, step: Move)
    requires
        contest_terms(before, sys, step),
    ensures
        fits_the_words(sys, step),
        contender_sound(before, apply(sys, step)->0, step.who),
        thaws(sys.leases[step.who].phase, step.event) ==> contest_settled(before, sys),
        !(apply(sys, step)->0.leases[step.who].phase is Thaw) || zeroes(
            sys.leases[step.who].phase,
            step.event,
        ),
{
    let lease = sys.leases[step.who];
    words::frozen_cursor(before.cursor);
    words::reset_cursor(words::frozen_word(before.cursor));
    tally_add(sys.words.counts);
    assert(contender_sound(before, sys, step.who));
    assert(phase_sound(sys.capacity, lease.phase));
}

proof fn contenders_stay_sound(before: Words, sys: System, step: Move)
    requires
        contest_terms(before, sys, step),
    ensures
        counted(apply(sys, step)->0),
        forall|i: int|
            #![trigger apply(sys, step)->0.leases[i]]
            0 <= i < sys.leases.len() ==> contender_sound(before, apply(sys, step)->0, i),
{
    let after = apply(sys, step)->0;
    let who = step.who;
    contender_moves(before, sys, step);
    counted_preserved(sys, step);
    assert forall|i: int|
        #![trigger after.leases[i]]
        0 <= i < sys.leases.len() implies contender_sound(before, after, i) by {
        assert(contender_sound(before, sys, i));
        if i != who && sys.leases[i].phase is Thaw && thaws(sys.leases[who].phase, step.event) {
            assert(sys.leases[who].phase is Thaw);
        }
    }
}

proof fn contest_open_preserved(before: Words, sys: System, step: Move)
    requires
        contest_terms(before, sys, step),
        contest_open(before, sys),
    ensures
        contest_open(before, apply(sys, step)->0) || contest_frozen(before, apply(sys, step)->0),
{
    let after = apply(sys, step)->0;
    let who = step.who;
    let n = sys.leases.len() - 1;
    words::frozen_cursor(before.cursor);
    tally_add(sys.words.counts);
    contender_moves(before, sys, step);
    assert(contender_sound(before, sys, who));
    assert(sys.leases[n] == sys.leases.last());
    assert(after.leases[n] == after.leases.last());
    holders_update(sys.leases, who, after.leases[who]);
    if holds_ticket(sys.leases[n].phase) {
        holders_at_least_one(sys.leases, n);
    }
    if holds_ticket(sys.leases[who].phase) {
        holders_at_least_one(sys.leases, who);
    }
}

proof fn contest_frozen_preserved(before: Words, sys: System, step: Move)
    requires
        contest_terms(before, sys, step),
        contest_frozen(before, sys),
    ensures
        contest_frozen(before, apply(sys, step)->0) || contest_settled(
            before,
            apply(sys, step)->0,
        ),
{
    let after = apply(sys, step)->0;
    let who = step.who;
    let lease = sys.leases[who];
    let n = sys.leases.len() - 1;
    words::frozen_cursor(before.cursor);
    tally_add(sys.words.counts);
    tally_add(after.words.counts);
    contender_moves(before, sys, step);
    contenders_stay_sound(before, sys, step);
    assert(contender_sound(before, sys, who));
    assert(phase_sound(sys.capacity, lease.phase));
    assert(sys.leases[n] == sys.leases.last());
    assert(after.leases[n] == after.leases.last());
    holders_update(sys.leases, who, after.leases[who]);
    if holds_ticket(lease.phase) {
        holders_at_least_one(sys.leases, who);
    }
    if zeroes(lease.phase, step.event) {
        if holds_ticket(sys.leases[n].phase) {
            holders_at_least_one(sys.leases, n);
        }
        assert(only(after.leases, who));
        assert(after.leases[who].phase is Thaw);
        assert(contest_settled(before, after));
    } else {
        if holders(after.leases) == 0 {
            if holders(sys.leases) > 0 {
                assert(attends(after, after.leases[who]));
            } else {
                let i = choose|i: int|
                    0 <= i < sys.leases.len() && attends(sys, #[trigger] sys.leases[i]);
                assert(attends(after, after.leases[i]));
            }
        }
        assert(contest_frozen(before, after));
    }
}

proof fn contest_settled_preserved(before: Words, sys: System, step: Move)
    requires
        contest_terms(before, sys, step),
        contest_settled(before, sys),
    ensures
        contest_settled(before, apply(sys, step)->0),
{
    let after = apply(sys, step)->0;
    let who = step.who;
    let lease = sys.leases[who];
    let n = sys.leases.len() - 1;
    let frozen = words::frozen_word(before.cursor);
    words::frozen_cursor(before.cursor);
    words::reset_cursor(frozen);
    tally_add(sys.words.counts);
    contender_moves(before, sys, step);
    assert(contender_sound(before, sys, who));
    assert(phase_sound(sys.capacity, lease.phase));
    assert(sys.leases[n] == sys.leases.last());
    assert(after.leases[n] == after.leases.last());
    if holds_ticket(lease.phase) {
        holders_at_least_one(sys.leases, who);
    }
    if sys.words.cursor == frozen {
        let t = choose|t: int|
            0 <= t < sys.leases.len() && (#[trigger] sys.leases[t]).phase is Thaw && only(
                sys.leases,
                t,
            );
        if t != who {
            assert(after.leases[t].phase is Thaw);
            assert(only(after.leases, t));
        }
    }
}

proof fn contesting_preserved(before: Words, sys: System, step: Move)
    requires
        contest_terms(before, sys, step),
    ensures
        contesting(before, apply(sys, step)->0),
{
    contenders_stay_sound(before, sys, step);
    if contest_open(before, sys) {
        contest_open_preserved(before, sys, step);
    } else if contest_frozen(before, sys) {
        contest_frozen_preserved(before, sys, step);
    } else {
        contest_settled_preserved(before, sys, step);
    }
}

/// A request without room races the releases of all frames that are out, in any
/// order and any interleaving: it gets no bytes, and once all of them are over, the
/// chunk has started over.
pub proof fn frozen_chunk_starts_over_in_any_race(
    capacity: nat,
    words: Words,
    frames: Seq<Phase>,
    len: nat,
    moves: Seq<Move>,
)
    requires
        0 < len <= capacity < u32::MAX,
        !words::is_frozen(words.cursor),
        words::offset_of(words.cursor) <= capacity < words::offset_of(words.cursor) + len,
        frames.len() > 0,
        forall|i: int| 0 <= i < frames.len() ==> (#[trigger] frames[i] matches Phase::Live {
            len,
            ..
        } && len > 0),
        words::released(words.counts) + frames.len() == words::allocated(words.counts) < u32::MAX,
        history(contested(capacity, words, frames, len), moves),
    ensures
        !(reached(contested(capacity, words, frames, len), moves, frames.len() as int) is Live),
        (forall|i: int|
            0 <= i <= frames.len() ==> (#[trigger] reached(
                contested(capacity, words, frames, len),
                moves,
                i,
            )) is Done) ==> {
            let after = words_of(contested(capacity, words, frames, len), moves);
            &&& !words::is_frozen(after.cursor)
            &&& words::offset_of(after.cursor) == 0
            &&& after.counts == 0
        },
{
    let start = contested(capacity, words, frames, len);
    contest_on_the_way(capacity, words, frames, len, moves);
    histories_can_be_played(start, moves);
    let sys = play(start, moves)->0;
    let n = frames.len() as int;
    assert(sys.leases[n].phase == reached(start, moves, n));
    words::frozen_cursor(words.cursor);
    words::reset_cursor(words::frozen_word(words.cursor));
    if forall|i: int| 0 <= i <= frames.len() ==> (#[trigger] reached(start, moves, i)) is Done {
        assert forall|i: int| 0 <= i < sys.leases.len() implies (
        #[trigger] sys.leases[i]).phase is Done by {
            assert(sys.leases[i].phase == reached(start, moves, i));
        }
        nobody_holds(sys.leases);
    }
}

proof fn contest_on_the_way(
    capacity: nat,
    words: Words,
    frames: Seq<Phase>,
    len: nat,
    moves: Seq<Move>,
)
    requires
        0 < len <= capacity < u32::MAX,
        !words::is_frozen(words.cursor),
        words::offset_of(words.cursor) <= capacity < words::offset_of(words.cursor) + len,
        frames.len() > 0,
        forall|i: int| 0 <= i < frames.len() ==> (#[trigger] frames[i] matches Phase::Live {
            len,
            ..
        } && len > 0),
        words::released(words.counts) + frames.len() == words::allocated(words.counts) < u32::MAX,
        history(contested(capacity, words, frames, len), moves),
    ensures
        play(contested(capacity, words, frames, len), moves) is Some,
        contesting(words, play(contested(capacity, words, frames, len), moves)->0),
    decreases moves.len(),
{
    let start = contested(capacity, words, frames, len);
    histories_can_be_played(start, moves);
    if moves.len() == 0 {
        everybody_holds(frames);
        holders_push(
            frames.map_values(|phase: Phase| Lease { phase, seen: 0 }),
            Lease { phase: Phase::Probe { len }, seen: 0 },
        );
        assert forall|i: int| 0 <= i < start.leases.len() - 1 implies (
        #[trigger] start.leases[i]).phase == frames[i] by {}
    } else {
        prefix_of_history(start, moves);
        contest_on_the_way(capacity, words, frames, len, moves.drop_last());
        contesting_preserved(words, play(start, moves.drop_last())->0, moves.last());
    }
}

proof fn holders_push(leases: Seq<Lease>, lease: Lease)
    ensures
        holders(leases.push(lease)) == holders(leases) + (if holds_ticket(lease.phase) {
            1nat
        } else {
            0nat
        }),
{
    assert(leases.push(lease).drop_last() =~= leases);
}

proof fn everybody_holds(frames: Seq<Phase>)
    requires
        forall|i: int| 0 <= i < frames.len() ==> (#[trigger] frames[i]) is Live,
    ensures
        holders(frames.map_values(|phase: Phase| Lease { phase, seen: 0 })) == frames.len(),
    decreases frames.len(),
{
    let leases = frames.map_values(|phase: Phase| Lease { phase, seen: 0 });
    if frames.len() > 0 {
        let rest = frames.drop_last();
        assert forall|i: int| 0 <= i < rest.len() implies (#[trigger] rest[i]) is Live by {
            assert(rest[i] == frames[i]);
        }
        everybody_holds(rest);
        assert(leases.drop_last() =~= rest.map_values(|phase: Phase| Lease { phase, seen: 0 }));
        assert(frames[frames.len() - 1] is Live);
    }
}

} // verus!
