//! The life of one reservation, access by access.
//!
//! A reservation and the later release of its ticket touch the two words of a
//! chunk through a handful of atomic accesses. A [`Phase`] says which access
//! comes next, and [`next`] says where its answer leads. The accesses that
//! [`ChunkState`] makes follow these phases whatever the answers are.
//!
//! [`ChunkState`]: crate::chunk::ChunkState

use crate::atomic::Access;
use crate::atomic::Op;
use crate::atomic::Role;
use crate::words;
use crate::words::ReleaseStep;
use crate::words::ReservePlan;
use crate::words::ALLOCATED_ONE;
use vstd::prelude::*;

verus! {

/// How often a reservation contends for the cursor, or a reset for the chunk,
/// before it lets go.
pub const MAX_TRIES: u64 = 0xffff_ffff_ffff_ffff;

/// The two words of a chunk at one moment.
pub struct Words {
    pub cursor: u64,
    pub counts: u64,
}

/// One access to the words of a chunk, named by what the word is for.
pub struct Event {
    pub on: Role,
    pub op: Op,
}

/// The access as an event.
pub open spec fn event(access: Access) -> Event {
    Event { on: access.word.role(), op: access.op }
}

/// The accesses as events.
pub open spec fn events(log: Seq<Access>) -> Seq<Event> {
    log.map_values(|access: Access| event(access))
}

/// The accesses that a record has gained.
pub open spec fn added(before: Seq<Access>, after: Seq<Access>) -> Seq<Access> {
    after.skip(before.len() as int)
}

/// How far a reservation has come.
pub enum Phase {
    /// About to look at the cursor before taking a ticket.
    Probe { len: nat },
    /// About to take a ticket.
    Ticket { len: nat },
    /// Holds a ticket and is about to read the cursor.
    Read { len: nat },
    /// Saw a cursor with room and is about to move it.
    Claim { len: nat, cursor: u64, tries: nat },
    /// Saw a cursor without room and is about to freeze it.
    Freeze { len: nat, cursor: u64, tries: nat },
    /// Owns the bytes from `offset` up to `offset + len`: the reservation is over,
    /// and its ticket is out.
    Live { len: nat, offset: nat },
    /// About to give its ticket back.
    Release,
    /// Gave the last ticket back and is about to look at the cursor.
    Look { balanced: u64, tries: nat },
    /// Saw the chunk frozen and is about to zero the counts.
    Zero { balanced: u64, frozen: u64, tries: nat },
    /// Zeroed the counts and is about to reset the cursor.
    Thaw { frozen: u64, tries: nat },
    /// Over.
    Done,
}

/// The phase of a ticket holder for `len` bytes that has seen `cursor` after this
/// many failed exchanges.
pub open spec fn after_read(capacity: nat, len: nat, cursor: u64, tries: nat) -> Phase {
    if tries >= MAX_TRIES {
        Phase::Release
    } else {
        match words::reserve_plan(cursor, len, capacity) {
            ReservePlan::Frozen => Phase::Release,
            ReservePlan::Full => Phase::Freeze { len, cursor, tries },
            ReservePlan::Fits { .. } => Phase::Claim { len, cursor, tries },
        }
    }
}

/// The phase of a ticket holder that gave its ticket back where the counts were
/// `old`.
pub open spec fn after_release(old: u64) -> Phase {
    match words::release_step(old) {
        ReleaseStep::Balanced(balanced) => Phase::Look { balanced, tries: 0 },
        _ => Phase::Done,
    }
}

/// The phase of a reset that zeroed the counts and then found the cursor to be
/// another one than it had seen, for the `tries`th time: the chunk may have been
/// frozen again, so it looks again.
pub open spec fn after_lost_reset(tries: nat) -> Phase {
    if tries >= MAX_TRIES {
        Phase::Done
    } else {
        Phase::Look { balanced: 0, tries }
    }
}

/// Where `event` leads from `phase`; nothing if the phase does not do `event`.
pub open spec fn next(capacity: nat, phase: Phase, event: Event) -> Option<Phase> {
    match (phase, event.on, event.op) {
        (Phase::Probe { len }, Role::Cursor, Op::Load { answer }) => Some(
            if words::is_frozen(answer) {
                Phase::Done
            } else {
                Phase::Ticket { len }
            },
        ),
        (Phase::Ticket { len }, Role::Counts, Op::Add { amount, answer }) => if amount
            == ALLOCATED_ONE {
            Some(Phase::Read { len })
        } else {
            None
        },
        (Phase::Read { len }, Role::Cursor, Op::Load { answer }) => Some(
            after_read(capacity, len, answer, 0),
        ),
        (
            Phase::Claim { len, cursor, tries },
            Role::Cursor,
            Op::Swap { weak, expected, new, reply },
        ) => if weak && expected == cursor && new == cursor + len {
            match reply {
                Ok(_) => Some(Phase::Live { len, offset: words::offset_of(cursor) }),
                Err(actual) => Some(after_read(capacity, len, actual, tries + 1)),
            }
        } else {
            None
        },
        (
            Phase::Freeze { len, cursor, tries },
            Role::Cursor,
            Op::Swap { weak, expected, new, reply },
        ) => if !weak && expected == cursor && new == words::frozen_word(cursor) {
            match reply {
                Ok(_) => Some(Phase::Release),
                Err(actual) => Some(after_read(capacity, len, actual, tries + 1)),
            }
        } else {
            None
        },
        (Phase::Release, Role::Counts, Op::Add { amount, answer }) => if amount == 1 {
            Some(after_release(answer))
        } else {
            None
        },
        (Phase::Look { balanced, tries }, Role::Cursor, Op::Load { answer }) => Some(
            if words::is_frozen(answer) {
                Phase::Zero { balanced, frozen: answer, tries }
            } else {
                Phase::Done
            },
        ),
        (
            Phase::Zero { balanced, frozen, tries },
            Role::Counts,
            Op::Swap { weak, expected, new, reply },
        ) => if !weak && expected == balanced && new == 0 {
            match reply {
                Ok(_) => Some(Phase::Thaw { frozen, tries }),
                Err(_) => Some(Phase::Done),
            }
        } else {
            None
        },
        (
            Phase::Thaw { frozen, tries },
            Role::Cursor,
            Op::Swap { weak, expected, new, reply },
        ) => if !weak && expected == frozen && new == words::reset_word(frozen) {
            match reply {
                Ok(_) => Some(Phase::Done),
                Err(_) => Some(after_lost_reset(tries + 1)),
            }
        } else {
            None
        },
        _ => None,
    }
}

/// Where the events lead, one after the other, from `phase`.
pub open spec fn run(capacity: nat, phase: Phase, events: Seq<Event>) -> Option<Phase>
    decreases events.len(),
{
    if events.len() == 0 {
        Some(phase)
    } else {
        match run(capacity, phase, events.drop_last()) {
            Some(reached) => next(capacity, reached, events.last()),
            None => None,
        }
    }
}

/// Where `event` leads from `phase` in the whole life of a reservation, in which the
/// owner of bytes gives its ticket back some day.
pub open spec fn life_next(capacity: nat, phase: Phase, event: Event) -> Option<Phase> {
    if phase is Live {
        next(capacity, Phase::Release, event)
    } else {
        next(capacity, phase, event)
    }
}

/// Where the events lead from `phase` in the whole life of a reservation.
pub open spec fn life(capacity: nat, phase: Phase, events: Seq<Event>) -> Option<Phase>
    decreases events.len(),
{
    if events.len() == 0 {
        Some(phase)
    } else {
        match life(capacity, phase, events.drop_last()) {
            Some(reached) => life_next(capacity, reached, events.last()),
            None => None,
        }
    }
}

/// Where the accesses that a record has gained lead from `phase`.
pub open spec fn traced(
    capacity: nat,
    phase: Phase,
    before: Seq<Access>,
    after: Seq<Access>,
) -> Option<Phase> {
    run(capacity, phase, events(added(before, after)))
}

/// The phase in which a reservation of `len` bytes ends that got them at this
/// offset, or got none.
pub open spec fn outcome_phase(len: nat, offset: Option<nat>) -> Phase {
    match offset {
        Some(offset) => Phase::Live { len, offset },
        None => Phase::Done,
    }
}

/// What a word that is `old` becomes; nothing if such a word does not give the
/// answer that was got.
pub open spec fn word_after(old: u64, op: Op) -> Option<u64> {
    match op {
        Op::Load { answer } => if answer == old {
            Some(old)
        } else {
            None
        },
        Op::Swap { weak, expected, new, reply } => match reply {
            Ok(before) => if before == old && before == expected {
                Some(new)
            } else {
                None
            },
            Err(actual) => if actual == old && (weak || actual != expected) {
                Some(old)
            } else {
                None
            },
        },
        Op::Add { amount, answer } => if answer == old {
            Some(((old + amount) % 0x1_0000_0000_0000_0000) as u64)
        } else {
            None
        },
    }
}

/// The words after `event`; nothing if words with this content do not give the
/// event's answer.
pub open spec fn words_after(words: Words, event: Event) -> Option<Words> {
    match event.on {
        Role::Cursor => match word_after(words.cursor, event.op) {
            Some(cursor) => Some(Words { cursor, ..words }),
            None => None,
        },
        Role::Counts => match word_after(words.counts, event.op) {
            Some(counts) => Some(Words { counts, ..words }),
            None => None,
        },
        Role::Current => None,
    }
}

/// The words after the events, if nobody else changes them; nothing if the events
/// got other answers than that gives.
pub open spec fn heard(before: Words, events: Seq<Event>) -> Option<Words>
    decreases events.len(),
{
    if events.len() == 0 {
        Some(before)
    } else {
        match heard(before, events.drop_last()) {
            Some(reached) => words_after(reached, events.last()),
            None => None,
        }
    }
}

/// The accesses of a look at both words, one after the other.
pub open spec fn glance(cursor: u64, counts: u64) -> Seq<Event> {
    seq![
        Event { on: Role::Cursor, op: Op::Load { answer: cursor } },
        Event { on: Role::Counts, op: Op::Load { answer: counts } },
    ]
}

/// One more event continues a run.
pub proof fn run_push(capacity: nat, phase: Phase, events: Seq<Event>, event: Event)
    ensures
        run(capacity, phase, events.push(event)) == (match run(capacity, phase, events) {
            Some(reached) => next(capacity, reached, event),
            None => None,
        }),
{
    assert(events.push(event).drop_last() =~= events);
}

/// A run that follows another continues from where it ended.
pub proof fn run_concat(capacity: nat, phase: Phase, first: Seq<Event>, second: Seq<Event>)
    requires
        run(capacity, phase, first) is Some,
    ensures
        run(capacity, phase, first + second) == run(
            capacity,
            run(capacity, phase, first)->0,
            second,
        ),
    decreases second.len(),
{
    if second.len() == 0 {
        assert(first + second =~= first);
    } else {
        run_concat(capacity, phase, first, second.drop_last());
        assert((first + second).drop_last() =~= first + second.drop_last());
    }
}

/// What was heard after what was heard before continues from there.
pub proof fn heard_concat(before: Words, first: Seq<Event>, second: Seq<Event>)
    requires
        heard(before, first) is Some,
    ensures
        heard(before, first + second) == heard(heard(before, first)->0, second),
    decreases second.len(),
{
    if second.len() == 0 {
        assert(first + second =~= first);
    } else {
        heard_concat(before, first, second.drop_last());
        assert((first + second).drop_last() =~= first + second.drop_last());
    }
}

/// One more event continues a life.
pub proof fn life_push(capacity: nat, phase: Phase, events: Seq<Event>, event: Event)
    ensures
        life(capacity, phase, events.push(event)) == (match life(capacity, phase, events) {
            Some(reached) => life_next(capacity, reached, event),
            None => None,
        }),
{
    assert(events.push(event).drop_last() =~= events);
}

/// A reservation, from its first look to its end or to the bytes that it gets, is
/// the beginning of a life.
pub proof fn reservation_is_a_life(capacity: nat, phase: Phase, events: Seq<Event>)
    requires
        run(capacity, phase, events) is Some,
    ensures
        life(capacity, phase, events) == run(capacity, phase, events),
    decreases events.len(),
{
    if events.len() > 0 {
        reservation_is_a_life(capacity, phase, events.drop_last());
    }
}

/// A reservation that got its bytes, followed by the release of its ticket, is a
/// whole life.
pub proof fn release_ends_a_life(
    capacity: nat,
    len: nat,
    offset: nat,
    reservation: Seq<Event>,
    release: Seq<Event>,
)
    requires
        run(capacity, Phase::Probe { len }, reservation) == Some(Phase::Live { len, offset }),
        run(capacity, Phase::Release, release) is Some,
        release.len() > 0,
    ensures
        life(capacity, Phase::Probe { len }, reservation + release) == run(
            capacity,
            Phase::Release,
            release,
        ),
    decreases release.len(),
{
    reservation_is_a_life(capacity, Phase::Probe { len }, reservation);
    assert((reservation + release).drop_last() =~= reservation + release.drop_last());
    if release.len() > 1 {
        release_ends_a_life(capacity, len, offset, reservation, release.drop_last());
    } else {
        assert(release.drop_last() =~= Seq::<Event>::empty());
        assert(reservation + release.drop_last() =~= reservation);
        assert(run(capacity, Phase::Release, release.drop_last()) == Some(Phase::Release));
    }
}

/// One more access continues what a record has gained.
pub proof fn traced_push(
    capacity: nat,
    phase: Phase,
    before: Seq<Access>,
    after: Seq<Access>,
    access: Access,
)
    requires
        before.is_prefix_of(after),
    ensures
        before.is_prefix_of(after.push(access)),
        added(before, after.push(access)) == added(before, after).push(access),
        traced(capacity, phase, before, after.push(access)) == (match traced(
            capacity,
            phase,
            before,
            after,
        ) {
            Some(reached) => next(capacity, reached, event(access)),
            None => None,
        }),
{
    assert(added(before, after.push(access)) =~= added(before, after).push(access));
    assert(events(added(before, after).push(access)) =~= events(added(before, after)).push(
        event(access),
    ));
    run_push(capacity, phase, events(added(before, after)), event(access));
}

/// What a record gains in two goes continues from one to the other.
pub proof fn traced_concat(
    capacity: nat,
    phase: Phase,
    before: Seq<Access>,
    between: Seq<Access>,
    after: Seq<Access>,
)
    requires
        before.is_prefix_of(between),
        between.is_prefix_of(after),
        traced(capacity, phase, before, between) is Some,
    ensures
        before.is_prefix_of(after),
        added(before, after) == added(before, between) + added(between, after),
        traced(capacity, phase, before, after) == traced(
            capacity,
            traced(capacity, phase, before, between)->0,
            between,
            after,
        ),
{
    let one = added(before, between);
    let two = added(between, after);
    assert(added(before, after) =~= one + two);
    assert(events(one + two) =~= events(one) + events(two));
    run_concat(capacity, phase, events(one), events(two));
}

/// What a record has gained is all that is in it and was not in it before, access by
/// access: which word, what was done, and what it found.
pub proof fn records_keep_everything(before: Seq<Access>, after: Seq<Access>)
    requires
        before.is_prefix_of(after),
    ensures
        before + added(before, after) == after,
        events(added(before, after)).len() == after.len() - before.len(),
        forall|i: int|
            0 <= i < after.len() - before.len() ==> {
                &&& (#[trigger] events(added(before, after))[i]).on == after[before.len()
                    + i].word.role()
                &&& events(added(before, after))[i].op == after[before.len() + i].op
            },
        MAX_TRIES == u64::MAX,
{
    assert(before + added(before, after) =~= after);
}

/// Whether the event found the cursor frozen, or froze it where `len` bytes did not fit.
pub open spec fn finds_no_room(capacity: nat, len: nat, event: Event) -> bool {
    &&& event.on is Cursor
    &&& match event.op {
        Op::Load { answer } => words::is_frozen(answer),
        Op::Swap { new, reply, .. } => match reply {
            Ok(_) => words::is_frozen(new) && words::offset_of(new) + len > capacity,
            Err(actual) => words::is_frozen(actual),
        },
        Op::Add { .. } => false,
    }
}

/// Whatever other threads do, a reservation ends without bytes only if it found the chunk
/// frozen, or froze it because the request did not fit behind what was taken.
///
/// It takes fewer accesses than it is willing to try.
pub proof fn refused_reservation_found_no_room(capacity: nat, len: nat, events: Seq<Event>)
    requires
        0 < len <= capacity < u32::MAX,
        events.len() < MAX_TRIES,
        run(capacity, Phase::Probe { len }, events) == Some(Phase::Done),
    ensures
        exists|i: int| 0 <= i < events.len() && #[trigger] finds_no_room(capacity, len, events[i]),
{
    refusal_so_far(capacity, len, events);
}

proof fn refusal_so_far(capacity: nat, len: nat, events: Seq<Event>)
    requires
        0 < len <= capacity < u32::MAX,
        events.len() < MAX_TRIES,
        run(capacity, Phase::Probe { len }, events) is Some,
    ensures
        ({
            let phase = run(capacity, Phase::Probe { len }, events)->0;
            match phase {
                Phase::Probe { len: l } => l == len,
                Phase::Ticket { len: l } => l == len,
                Phase::Read { len: l } => l == len,
                Phase::Claim { len: l, tries, .. } => l == len && tries <= events.len(),
                Phase::Freeze { len: l, cursor, tries } => {
                    &&& l == len
                    &&& tries <= events.len()
                    &&& !words::is_frozen(cursor)
                    &&& words::offset_of(cursor) + len > capacity
                },
                Phase::Live { .. } => true,
                _ => exists|i: int|
                    0 <= i < events.len() && #[trigger] finds_no_room(capacity, len, events[i]),
            }
        }),
    decreases events.len(),
{
    if events.len() > 0 {
        let rest = events.drop_last();
        let last = events.len() - 1;
        refusal_so_far(capacity, len, rest);
        let phase = run(capacity, Phase::Probe { len }, rest)->0;
        assert(events.last() == events[last]);
        match phase {
            Phase::Freeze { cursor, .. } => {
                words::frozen_cursor(cursor);
            },
            _ => {},
        }
        if exists|i: int|
            0 <= i < rest.len() && #[trigger] finds_no_room(capacity, len, rest[i]) {
            let i = choose|i: int|
                0 <= i < rest.len() && #[trigger] finds_no_room(capacity, len, rest[i]);
            assert(finds_no_room(capacity, len, events[i]));
        }
        let reached = run(capacity, Phase::Probe { len }, events)->0;
        if phase is Probe || phase is Read || phase is Claim || phase is Freeze {
            assert(reached is Release || reached is Done ==> finds_no_room(
                capacity,
                len,
                events[last],
            ));
        }
    }
}

/// Whatever other threads do, a reservation that got bytes ended by moving the cursor of
/// an open chunk from where the bytes begin to right behind them, inside the chunk, and
/// it took one ticket.
pub proof fn granted_reservation_moved_the_cursor(
    capacity: nat,
    len: nat,
    offset: nat,
    events: Seq<Event>,
)
    requires
        0 < len <= capacity < u32::MAX,
        run(capacity, Phase::Probe { len }, events) == Some(Phase::Live { len, offset }),
    ensures
        events.len() > 0,
        events.last().on is Cursor,
        events.last().op matches Op::Swap { expected, new, reply, .. } && {
            &&& reply is Ok
            &&& !words::is_frozen(expected)
            &&& words::offset_of(expected) == offset
            &&& offset + len <= capacity
            &&& new == expected + len
            &&& !words::is_frozen(new)
            &&& words::offset_of(new) == offset + len
        },
        events.len() >= 4,
        events[1] == (Event {
            on: Role::Counts,
            op: Op::Add { amount: ALLOCATED_ONE, answer: events[1].op->Add_answer },
        }),
        forall|i: int| 0 <= i < events.len() && i != 1 ==> (#[trigger] events[i]).on is Cursor,
{
    grant_so_far(capacity, len, events.drop_last());
    let phase = run(capacity, Phase::Probe { len }, events.drop_last())->0;
    match phase {
        Phase::Claim { cursor, .. } => {
            words::moved_cursor(cursor, len);
        },
        _ => {},
    }
    assert forall|i: int| 0 <= i < events.len() && i != 1 implies (
    #[trigger] events[i]).on is Cursor by {
        if i < events.len() - 1 {
            assert(events.drop_last()[i] == events[i]);
        }
    }
}

proof fn grant_so_far(capacity: nat, len: nat, events: Seq<Event>)
    requires
        0 < len <= capacity < u32::MAX,
        run(capacity, Phase::Probe { len }, events) is Some,
    ensures
        ({
            let phase = run(capacity, Phase::Probe { len }, events)->0;
            match phase {
                Phase::Probe { .. } => events.len() == 0,
                Phase::Ticket { len: l } => l == len && events.len() == 1 && events[0].on is Cursor,
                Phase::Read { len: l } => l == len && events.len() == 2 && took_a_ticket(events),
                Phase::Claim { len: l, cursor, .. } => {
                    &&& l == len
                    &&& events.len() >= 3
                    &&& took_a_ticket(events)
                    &&& !words::is_frozen(cursor)
                    &&& words::offset_of(cursor) + len <= capacity
                },
                Phase::Freeze { len: l, .. } => {
                    &&& l == len
                    &&& events.len() >= 3
                    &&& took_a_ticket(events)
                },
                _ => true,
            }
        }),
    decreases events.len(),
{
    if events.len() > 0 {
        let rest = events.drop_last();
        grant_so_far(capacity, len, rest);
        assert(events.last() == events[events.len() - 1]);
        if took_a_ticket(rest) && rest.len() >= 2 {
            assert(events[1] == rest[1]);
            assert forall|i: int| 0 <= i < rest.len() && i != 1 implies (
            #[trigger] events[i]).on is Cursor by {
                assert(rest[i] == events[i]);
            }
        } else if rest.len() == 1 {
            assert(rest[0] == events[0]);
        }
    }
}

spec fn took_a_ticket(events: Seq<Event>) -> bool {
    &&& events[1].on is Counts
    &&& events[1].op matches Op::Add { amount, .. } && amount == ALLOCATED_ONE
    &&& forall|i: int| 0 <= i < events.len() && i != 1 ==> (#[trigger] events[i]).on is Cursor
}

} // verus!
