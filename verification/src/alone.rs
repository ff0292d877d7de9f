//! A chunk, or an arena, that one thread has to itself.
//!
//! While nobody else touches a chunk, every access finds what the one before
//! left behind: its accesses are [`protocol::heard`] from the words that it had
//! before. The outcome of a reservation or of a release is then a function of
//! these words.

use crate::ephemeral;
use crate::ephemeral::ArenaWords;
use crate::ephemeral::Place;
use crate::ephemeral::Runs;
use crate::protocol;
use crate::protocol::Event;
use crate::protocol::Phase;
use crate::protocol::Words;
use crate::protocol::MAX_TRIES;
use crate::words;
use crate::words::ALLOCATED_ONE;
use vstd::prelude::*;

verus! {

/// What a snapshot of the words shows: whether the chunk is frozen, the next free
/// byte, tickets handed out, tickets come back.
pub open spec fn shown(words: Words) -> (bool, nat, nat, nat) {
    (
        words::is_frozen(words.cursor),
        words::offset_of(words.cursor),
        words::allocated(words.counts),
        words::released(words.counts),
    )
}

/// Whether the tallies leave room for one more ticket.
pub open spec fn tickets_left(words: Words) -> bool {
    words::released(words.counts) <= words::allocated(words.counts) < u32::MAX
}

/// The counts with one more ticket handed out.
pub open spec fn handed_out(counts: u64) -> u64 {
    words::counts_word(words::allocated(counts) + 1, words::released(counts))
}

/// The counts with one more ticket come back.
pub open spec fn come_back(counts: u64) -> u64 {
    words::counts_word(words::allocated(counts), words::released(counts) + 1)
}

/// Whether a request for `len` bytes finds the chunk open and with room.
pub open spec fn fits(capacity: nat, before: Words, len: nat) -> bool {
    !words::is_frozen(before.cursor) && words::offset_of(before.cursor) + len <= capacity
}

/// The words of a chunk that has been reset.
pub open spec fn restarted(before: Words) -> Words {
    Words { cursor: words::reset_word(before.cursor), counts: 0 }
}

/// The words after a reset was tried for these balanced counts.
pub open spec fn reset_words(before: Words, balanced: u64) -> Words {
    if words::is_frozen(before.cursor) && before.counts == balanced {
        restarted(before)
    } else {
        before
    }
}

/// The words after a ticket came back.
///
/// A frozen chunk whose last ticket this was starts over.
pub open spec fn released_words(before: Words) -> Words {
    let counts = come_back(before.counts);
    if words::is_frozen(before.cursor) && words::allocated(counts) == words::released(counts) {
        restarted(before)
    } else {
        Words { counts, ..before }
    }
}

/// The words after a request for `len` bytes.
pub open spec fn reserved_words(capacity: nat, before: Words, len: nat) -> Words {
    if words::is_frozen(before.cursor) {
        before
    } else if fits(capacity, before, len) {
        Words { cursor: (before.cursor + len) as u64, counts: handed_out(before.counts) }
    } else {
        released_words(
            Words {
                cursor: words::frozen_word(before.cursor),
                counts: handed_out(before.counts),
            },
        )
    }
}

/// Where a request for `len` bytes ends.
pub open spec fn reserved_phase(capacity: nat, before: Words, len: nat) -> Phase {
    if fits(capacity, before, len) {
        Phase::Live { len, offset: words::offset_of(before.cursor) }
    } else {
        Phase::Done
    }
}

/// How a reset stands on the way.
spec fn resetting(before: Words, start: u64, reached: Words, phase: Phase) -> bool {
    match phase {
        Phase::Look { balanced, .. } => reached == before && balanced == start,
        Phase::Zero { balanced, frozen, .. } => {
            &&& reached == before
            &&& balanced == start
            &&& frozen == before.cursor
            &&& words::is_frozen(frozen)
        },
        Phase::Thaw { frozen, .. } => {
            &&& reached == Words { counts: 0, ..before }
            &&& before.counts == start
            &&& frozen == before.cursor
            &&& words::is_frozen(frozen)
        },
        Phase::Done => reached == reset_words(before, start),
        _ => false,
    }
}

/// How a release stands on the way.
spec fn releasing(before: Words, reached: Words, phase: Phase) -> bool {
    let back = Words { counts: come_back(before.counts), ..before };
    let last = words::allocated(back.counts) == words::released(back.counts);
    match phase {
        Phase::Release => reached == before,
        Phase::Done => reached == released_words(before),
        _ => last && resetting(back, back.counts, reached, phase),
    }
}

/// How a reservation stands on the way.
spec fn reserving(
    capacity: nat,
    before: Words,
    len: nat,
    reached: Words,
    phase: Phase,
    steps: nat,
) -> bool {
    let open = !words::is_frozen(before.cursor);
    let ticketed = Words { counts: handed_out(before.counts), ..before };
    match phase {
        Phase::Probe { len: l } => l == len && reached == before,
        Phase::Ticket { len: l } => l == len && open && reached == before,
        Phase::Read { len: l } => l == len && open && reached == ticketed,
        Phase::Claim { len: l, cursor, tries } => {
            &&& l == len
            &&& fits(capacity, before, len)
            &&& reached == ticketed
            &&& cursor == before.cursor
            &&& tries <= steps
        },
        Phase::Freeze { len: l, cursor, tries } => {
            &&& l == len
            &&& open
            &&& !fits(capacity, before, len)
            &&& reached == ticketed
            &&& cursor == before.cursor
            &&& tries <= steps
        },
        Phase::Live { len: l, offset } => {
            &&& l == len
            &&& fits(capacity, before, len)
            &&& offset == words::offset_of(before.cursor)
            &&& reached == reserved_words(capacity, before, len)
        },
        Phase::Done => {
            &&& !fits(capacity, before, len)
            &&& reached == reserved_words(capacity, before, len)
        },
        _ => {
            &&& open
            &&& !fits(capacity, before, len)
            &&& releasing(
                Words { cursor: words::frozen_word(before.cursor), ..ticketed },
                reached,
                phase,
            )
        },
    }
}

proof fn counts_add(counts: u64)
    ensures
        words::allocated(counts) < u32::MAX ==> handed_out(counts) == counts + ALLOCATED_ONE,
        words::released(counts) < words::allocated(counts) ==> come_back(counts) == counts + 1,
        words::allocated(counts) < u32::MAX ==> {
            &&& words::allocated(handed_out(counts)) == words::allocated(counts) + 1
            &&& words::released(handed_out(counts)) == words::released(counts)
        },
        words::released(counts) < words::allocated(counts) ==> {
            &&& words::allocated(come_back(counts)) == words::allocated(counts)
            &&& words::released(come_back(counts)) == words::released(counts) + 1
        },
{
}

proof fn resetting_step(
    capacity: nat,
    before: Words,
    start: u64,
    reached: Words,
    phase: Phase,
    event: Event,
)
    requires
        resetting(before, start, reached, phase),
        protocol::words_after(reached, event) is Some,
        protocol::next(capacity, phase, event) is Some,
    ensures
        resetting(
            before,
            start,
            protocol::words_after(reached, event)->0,
            protocol::next(capacity, phase, event)->0,
        ),
{
}

proof fn releasing_step(
    capacity: nat,
    before: Words,
    reached: Words,
    phase: Phase,
    event: Event,
)
    requires
        words::released(before.counts) < words::allocated(before.counts),
        releasing(before, reached, phase),
        protocol::words_after(reached, event) is Some,
        protocol::next(capacity, phase, event) is Some,
    ensures
        releasing(
            before,
            protocol::words_after(reached, event)->0,
            protocol::next(capacity, phase, event)->0,
        ),
{
    counts_add(before.counts);
    let back = Words { counts: come_back(before.counts), ..before };
    if !(phase is Release) {
        resetting_step(capacity, back, back.counts, reached, phase, event);
    }
}

proof fn reserving_step(
    capacity: nat,
    before: Words,
    len: nat,
    reached: Words,
    phase: Phase,
    event: Event,
    steps: nat,
)
    requires
        0 < len <= capacity < u32::MAX,
        tickets_left(before),
        steps + 1 < MAX_TRIES,
        reserving(capacity, before, len, reached, phase, steps),
        protocol::words_after(reached, event) is Some,
        protocol::next(capacity, phase, event) is Some,
    ensures
        reserving(
            capacity,
            before,
            len,
            protocol::words_after(reached, event)->0,
            protocol::next(capacity, phase, event)->0,
            steps + 1,
        ),
{
    counts_add(before.counts);
    let ticketed = Words {
        cursor: words::frozen_word(before.cursor),
        counts: handed_out(before.counts),
    };
    match phase {
        Phase::Release | Phase::Look { .. } | Phase::Zero { .. } | Phase::Thaw { .. } => {
            releasing_step(capacity, ticketed, reached, phase, event);
        },
        _ => {},
    }
}

/// A reset that is tried on a chunk that nobody else touches happens just if the
/// chunk is frozen and its counts are the balanced ones.
pub proof fn reset_alone(capacity: nat, before: Words, balanced: u64, events: Seq<Event>)
    requires
        protocol::heard(before, events) is Some,
        protocol::run(capacity, Phase::Look { balanced, tries: 0 }, events) == Some(Phase::Done),
    ensures
        protocol::heard(before, events) == Some(reset_words(before, balanced)),
        words::is_frozen(before.cursor) && before.counts == balanced ==> shown(
            reset_words(before, balanced),
        ) == (false, 0nat, 0nat, 0nat),
{
    reset_on_the_way(capacity, before, balanced, events);
    words::reset_cursor(before.cursor);
}

proof fn reset_on_the_way(capacity: nat, before: Words, balanced: u64, events: Seq<Event>)
    requires
        protocol::heard(before, events) is Some,
        protocol::run(capacity, Phase::Look { balanced, tries: 0 }, events) is Some,
    ensures
        resetting(
            before,
            balanced,
            protocol::heard(before, events)->0,
            protocol::run(capacity, Phase::Look { balanced, tries: 0 }, events)->0,
        ),
    decreases events.len(),
{
    if events.len() > 0 {
        let rest = events.drop_last();
        reset_on_the_way(capacity, before, balanced, rest);
        resetting_step(
            capacity,
            before,
            balanced,
            protocol::heard(before, rest)->0,
            protocol::run(capacity, Phase::Look { balanced, tries: 0 }, rest)->0,
            events.last(),
        );
    }
}

/// A release on a chunk that nobody else touches leaves [`released_words`] behind:
/// one more ticket has come back, and if it was the last one of a frozen chunk, the
/// chunk has started over.
///
/// Which frame is dropped plays no part.
pub proof fn release_alone(capacity: nat, before: Words, events: Seq<Event>)
    requires
        words::released(before.counts) < words::allocated(before.counts),
        protocol::heard(before, events) is Some,
        protocol::run(capacity, Phase::Release, events) == Some(Phase::Done),
    ensures
        protocol::heard(before, events) == Some(released_words(before)),
        shown(released_words(before)) == {
            let (frozen, offset, out, back) = shown(before);
            if frozen && back + 1 == out {
                (false, 0nat, 0nat, 0nat)
            } else {
                (frozen, offset, out, back + 1)
            }
        },
{
    release_on_the_way(capacity, before, events);
    counts_add(before.counts);
    words::reset_cursor(before.cursor);
}

proof fn release_on_the_way(capacity: nat, before: Words, events: Seq<Event>)
    requires
        words::released(before.counts) < words::allocated(before.counts),
        protocol::heard(before, events) is Some,
        protocol::run(capacity, Phase::Release, events) is Some,
    ensures
        releasing(
            before,
            protocol::heard(before, events)->0,
            protocol::run(capacity, Phase::Release, events)->0,
        ),
    decreases events.len(),
{
    if events.len() > 0 {
        let rest = events.drop_last();
        release_on_the_way(capacity, before, rest);
        releasing_step(
            capacity,
            before,
            protocol::heard(before, rest)->0,
            protocol::run(capacity, Phase::Release, rest)->0,
            events.last(),
        );
    }
}

/// A reservation on a chunk that nobody else touches gets the next free bytes
/// if they fit an open chunk, and none otherwise, and it leaves [`reserved_words`]
/// behind: a frozen chunk as it was; a chunk with room with one more ticket out and
/// the cursor behind the bytes; a chunk without room frozen if frames of it are out,
/// and else started over.
///
/// The weak exchange that claims the bytes may fail for no reason, but not for ever.
pub proof fn reserve_alone(capacity: nat, before: Words, len: nat, events: Seq<Event>)
    requires
        0 < len <= capacity < u32::MAX,
        tickets_left(before),
        events.len() < MAX_TRIES,
        protocol::heard(before, events) is Some,
        ({
            let end = protocol::run(capacity, Phase::Probe { len }, events);
            end matches Some(phase) && (phase is Live || phase is Done)
        }),
    ensures
        protocol::run(capacity, Phase::Probe { len }, events) == Some(
            reserved_phase(capacity, before, len),
        ),
        protocol::heard(before, events) == Some(reserved_words(capacity, before, len)),
        shown(reserved_words(capacity, before, len)) == {
            let (frozen, offset, out, back) = shown(before);
            if frozen {
                (frozen, offset, out, back)
            } else if offset + len <= capacity {
                (false, offset + len, out + 1, back)
            } else if back < out {
                (true, offset, out + 1, back + 1)
            } else {
                (false, 0nat, 0nat, 0nat)
            }
        },
{
    reserve_on_the_way(capacity, before, len, events);
    counts_add(before.counts);
    counts_add(handed_out(before.counts));
    words::frozen_cursor(before.cursor);
    words::reset_cursor(words::frozen_word(before.cursor));
    if fits(capacity, before, len) {
        words::moved_cursor(before.cursor, len);
    }
}

proof fn reserve_on_the_way(capacity: nat, before: Words, len: nat, events: Seq<Event>)
    requires
        0 < len <= capacity < u32::MAX,
        tickets_left(before),
        events.len() < MAX_TRIES,
        protocol::heard(before, events) is Some,
        protocol::run(capacity, Phase::Probe { len }, events) is Some,
    ensures
        reserving(
            capacity,
            before,
            len,
            protocol::heard(before, events)->0,
            protocol::run(capacity, Phase::Probe { len }, events)->0,
            events.len(),
        ),
    decreases events.len(),
{
    if events.len() > 0 {
        let rest = events.drop_last();
        reserve_on_the_way(capacity, before, len, rest);
        reserving_step(
            capacity,
            before,
            len,
            protocol::heard(before, rest)->0,
            protocol::run(capacity, Phase::Probe { len }, rest)->0,
            events.last(),
            rest.len(),
        );
    }
}

/// A snapshot of a chunk that nobody else touches shows its words and leaves them as
/// they are.
pub proof fn snapshot_alone(before: Words, cursor: u64, counts: u64)
    requires
        protocol::heard(before, protocol::glance(cursor, counts)) is Some,
    ensures
        protocol::heard(before, protocol::glance(cursor, counts)) == Some(before),
        words::description(cursor, counts) == words::description(before.cursor, before.counts),
{
    let events = protocol::glance(cursor, counts);
    reveal_with_fuel(protocol::heard, 3);
    assert(events.drop_last().drop_last() =~= Seq::<Event>::empty());
}

/// The words after `n` tickets came back one after the other.
pub open spec fn released_times(before: Words, n: nat) -> Words
    decreases n,
{
    if n == 0 {
        before
    } else {
        released_words(released_times(before, (n - 1) as nat))
    }
}

/// A frozen chunk keeps its cursor until the last of its tickets is back, and
/// starts over then.
pub proof fn frozen_chunk_starts_over_with_the_last_ticket(before: Words, n: nat)
    requires
        words::is_frozen(before.cursor),
        0 < n <= words::allocated(before.counts) - words::released(before.counts),
    ensures
        shown(released_times(before, n)) == {
            let (frozen, offset, out, back) = shown(before);
            if back + n == out {
                (false, 0nat, 0nat, 0nat)
            } else {
                (true, offset, out, back + n)
            }
        },
{
    tickets_come_back(before, (n - 1) as nat);
    counts_add(released_times(before, (n - 1) as nat).counts);
    words::reset_cursor(before.cursor);
}

proof fn tickets_come_back(before: Words, n: nat)
    requires
        n < words::allocated(before.counts) - words::released(before.counts),
    ensures
        released_times(before, n).cursor == before.cursor,
        words::allocated(released_times(before, n).counts) == words::allocated(before.counts),
        words::released(released_times(before, n).counts) == words::released(before.counts) + n,
    decreases n,
{
    if n > 0 {
        tickets_come_back(before, (n - 1) as nat);
        counts_add(released_times(before, (n - 1) as nat).counts);
    }
}

/// The words of the chunk with this index.
pub open spec fn chunk_words(arena: ArenaWords, index: int) -> Words {
    if index == 0 {
        arena.first
    } else {
        arena.second
    }
}

/// The word for the current chunk after these accesses, if nobody else changes it;
/// nothing if they got other answers than that gives.
pub open spec fn current_heard(before: u64, events: Seq<Event>) -> Option<u64>
    decreases events.len(),
{
    if events.len() == 0 {
        Some(before)
    } else {
        match current_heard(before, events.drop_last()) {
            Some(reached) => protocol::word_after(reached, events.last().op),
            None => None,
        }
    }
}

/// The words of an arena after a request, if nobody else uses the arena; nothing if
/// the request got other answers than that gives.
pub open spec fn arena_heard(before: ArenaWords, runs: Runs) -> Option<ArenaWords> {
    let k = before.current as int;
    match (
        current_heard(before.current, protocol::events(runs.current)),
        protocol::heard(chunk_words(before, k), protocol::events(runs.one)),
        protocol::heard(chunk_words(before, 1 - k), protocol::events(runs.two)),
    ) {
        (Some(current), Some(one), Some(two)) => Some(
            if k == 0 {
                ArenaWords { current, first: one, second: two }
            } else {
                ArenaWords { current, first: two, second: one }
            },
        ),
        _ => None,
    }
}

/// Where a request for `len` bytes goes: to the current chunk if it fits, else to
/// the other chunk if it fits there, else to the heap.
pub open spec fn allotted(capacity: nat, before: ArenaWords, len: nat) -> Place {
    let k = before.current as int;
    let one = chunk_words(before, k);
    let two = chunk_words(before, 1 - k);
    if fits(capacity, one, len) {
        Place::Chunk { index: k as usize, offset: words::offset_of(one.cursor) as usize }
    } else if fits(capacity, two, len) {
        Place::Chunk { index: (1 - k) as usize, offset: words::offset_of(two.cursor) as usize }
    } else {
        Place::Heap
    }
}

/// The words of an arena after a request for `len` bytes: the current chunk has been
/// asked, and if it did not fit there, the other chunk is the current one and has
/// been asked too.
pub open spec fn requested(capacity: nat, before: ArenaWords, len: nat) -> ArenaWords {
    let k = before.current as int;
    let one = reserved_words(capacity, chunk_words(before, k), len);
    let two = reserved_words(capacity, chunk_words(before, 1 - k), len);
    if fits(capacity, chunk_words(before, k), len) {
        if k == 0 {
            ArenaWords { first: one, ..before }
        } else {
            ArenaWords { second: one, ..before }
        }
    } else if k == 0 {
        ArenaWords { current: 1, first: one, second: two }
    } else {
        ArenaWords { current: 0, first: two, second: one }
    }
}

/// A request to an arena that nobody else uses goes where [`allotted`] says, and
/// leaves [`requested`] behind.
pub proof fn request_alone(
    capacity: nat,
    before: ArenaWords,
    len: nat,
    runs: Runs,
    place: Place,
)
    requires
        0 < len <= capacity < u32::MAX,
        before.current < 2,
        tickets_left(before.first),
        tickets_left(before.second),
        runs.one.len() < MAX_TRIES,
        runs.two.len() < MAX_TRIES,
        ephemeral::asked(capacity, len, runs, place),
        arena_heard(before, runs) is Some,
    ensures
        place == allotted(capacity, before, len),
        arena_heard(before, runs) == Some(requested(capacity, before, len)),
{
    let k = before.current as int;
    let one = protocol::events(runs.one);
    let two = protocol::events(runs.two);
    let current = protocol::events(runs.current);
    reveal_with_fuel(current_heard, 3);
    assert(current.drop_last() =~= protocol::events(runs.current.drop_last()));
    assert(current[0].op == runs.current[0].op);
    if runs.current.len() == 2 {
        assert(current.drop_last().drop_last() =~= Seq::<Event>::empty());
        assert(current.drop_last().last() == current[0]);
        assert(current.last().op == runs.current[1].op);
    } else {
        assert(current.drop_last() =~= Seq::<Event>::empty());
    }
    assert(ephemeral::first_asked(runs) == k);
    reserve_alone(capacity, chunk_words(before, k), len, one);
    if ephemeral::switched(runs) {
        reserve_alone(capacity, chunk_words(before, 1 - k), len, two);
    } else {
        assert(two =~= Seq::<Event>::empty());
    }
}

/// Of three frames as large as a chunk that are requested of a fresh arena that nobody
/// else uses, and held, the first one gets the first chunk, the second one the second
/// chunk, and the third one the heap.
pub proof fn fresh_arena_serves_two_full_frames(
    capacity: nat,
    runs: (Runs, Runs, Runs),
    places: (Place, Place, Place),
)
    requires
        0 < capacity < u32::MAX,
        ephemeral::asked(capacity, capacity, runs.0, places.0),
        ephemeral::asked(capacity, capacity, runs.1, places.1),
        ephemeral::asked(capacity, capacity, runs.2, places.2),
        runs.0.one.len() < MAX_TRIES,
        runs.0.two.len() < MAX_TRIES,
        runs.1.one.len() < MAX_TRIES,
        runs.1.two.len() < MAX_TRIES,
        runs.2.one.len() < MAX_TRIES,
        runs.2.two.len() < MAX_TRIES,
        arena_heard(ephemeral::fresh_arena(), runs.0) matches Some(after_one) && (arena_heard(
            after_one,
            runs.1,
        ) matches Some(after_two) && arena_heard(after_two, runs.2) is Some),
    ensures
        places.0 == (Place::Chunk { index: 0, offset: 0 }),
        places.1 == (Place::Chunk { index: 1, offset: 0 }),
        places.2 == Place::Heap,
{
    let fresh = ephemeral::fresh_arena();
    request_alone(capacity, fresh, capacity, runs.0, places.0);
    words::moved_cursor(0, capacity);
    counts_add(0);
    let one = requested(capacity, fresh, capacity);
    request_alone(capacity, one, capacity, runs.1, places.1);
    counts_add(one.first.counts);
    counts_add(handed_out(one.first.counts));
    words::frozen_cursor(one.first.cursor);
    let two = requested(capacity, one, capacity);
    request_alone(capacity, two, capacity, runs.2, places.2);
}

/// Two reservations in a row that together fit behind what is taken of an open chunk
/// that nobody else touches both get bytes of it, the second right behind the first,
/// and leave it open with two more tickets out.
pub proof fn reservations_in_a_row_share_the_chunk(
    capacity: nat,
    before: Words,
    lens: (nat, nat),
    events: (Seq<Event>, Seq<Event>),
    ends: (Phase, Phase),
    between: Words,
    after: Words,
)
    requires
        0 < lens.0,
        0 < lens.1,
        capacity < u32::MAX,
        !words::is_frozen(before.cursor),
        words::offset_of(before.cursor) + lens.0 + lens.1 <= capacity,
        words::released(before.counts) <= words::allocated(before.counts),
        words::allocated(before.counts) + 2 <= u32::MAX,
        events.0.len() < MAX_TRIES,
        events.1.len() < MAX_TRIES,
        protocol::run(capacity, Phase::Probe { len: lens.0 }, events.0) == Some(ends.0),
        protocol::run(capacity, Phase::Probe { len: lens.1 }, events.1) == Some(ends.1),
        ends.0 is Live || ends.0 is Done,
        ends.1 is Live || ends.1 is Done,
        protocol::heard(before, events.0) == Some(between),
        protocol::heard(between, events.1) == Some(after),
    ensures
        ends.0 == (Phase::Live { len: lens.0, offset: words::offset_of(before.cursor) }),
        ends.1 == (Phase::Live { len: lens.1, offset: words::offset_of(before.cursor) + lens.0 }),
        !words::is_frozen(between.cursor),
        !words::is_frozen(after.cursor),
        words::offset_of(after.cursor) == words::offset_of(before.cursor) + lens.0 + lens.1,
        words::allocated(after.counts) == words::allocated(before.counts) + 2,
        words::released(after.counts) == words::released(before.counts),
{
    reserve_alone(capacity, before, lens.0, events.0);
    reserve_alone(capacity, between, lens.1, events.1);
}

/// Two requests in a row that together fit behind what is taken of the current chunk of
/// an arena that nobody else uses both get bytes of it, the second right behind the
/// first, and the other chunk is left alone.
pub proof fn requests_in_a_row_share_the_chunk(
    capacity: nat,
    before: ArenaWords,
    lens: (nat, nat),
    runs: (Runs, Runs),
    places: (Place, Place),
    between: ArenaWords,
    after: ArenaWords,
)
    requires
        0 < lens.0,
        0 < lens.1,
        capacity < u32::MAX,
        before.current < 2,
        ({
            let chunk = if before.current == 0 {
                before.first
            } else {
                before.second
            };
            &&& !words::is_frozen(chunk.cursor)
            &&& words::offset_of(chunk.cursor) + lens.0 + lens.1 <= capacity
            &&& words::allocated(chunk.counts) + 2 <= u32::MAX
        }),
        tickets_left(before.first),
        tickets_left(before.second),
        runs.0.one.len() < MAX_TRIES,
        runs.0.two.len() < MAX_TRIES,
        runs.1.one.len() < MAX_TRIES,
        runs.1.two.len() < MAX_TRIES,
        ephemeral::asked(capacity, lens.0, runs.0, places.0),
        ephemeral::asked(capacity, lens.1, runs.1, places.1),
        arena_heard(before, runs.0) == Some(between),
        arena_heard(between, runs.1) == Some(after),
    ensures
        places.0 matches Place::Chunk { index, offset } && index == before.current && offset
            == words::offset_of(
            if before.current == 0 {
                before.first.cursor
            } else {
                before.second.cursor
            },
        ),
        places.1 matches Place::Chunk { index, offset } && index == before.current && offset
            == words::offset_of(
            if before.current == 0 {
                before.first.cursor
            } else {
                before.second.cursor
            },
        ) + lens.0,
        after.current == before.current,
        before.current == 0 ==> after.second == before.second,
        before.current == 1 ==> after.first == before.first,
{
    let k = before.current as int;
    let chunk = chunk_words(before, k);
    request_alone(capacity, before, lens.0, runs.0, places.0);
    counts_add(chunk.counts);
    words::moved_cursor(chunk.cursor, lens.0);
    request_alone(capacity, between, lens.1, runs.1, places.1);
}

/// The words after these releases one after the other, if nobody else touches the
/// chunk; nothing if they got other answers than that gives.
pub open spec fn heard_each(before: Words, releases: Seq<Seq<Event>>) -> Option<Words>
    decreases releases.len(),
{
    if releases.len() == 0 {
        Some(before)
    } else {
        match heard_each(before, releases.drop_last()) {
            Some(reached) => protocol::heard(reached, releases.last()),
            None => None,
        }
    }
}

/// A frozen chunk that nobody else touches shows, while its tickets come back one by
/// one, one more of them back each time and nothing else changed; with the last one it
/// is open and empty, and then serves a request for all of its bytes.
pub proof fn emptied_chunk_serves_again(
    capacity: nat,
    before: Words,
    releases: Seq<Seq<Event>>,
    after: Words,
    request: Seq<Event>,
    end: Phase,
)
    requires
        0 < capacity < u32::MAX,
        words::is_frozen(before.cursor),
        0 < releases.len() <= words::allocated(before.counts) - words::released(before.counts),
        forall|i: int|
            0 <= i < releases.len() ==> #[trigger] protocol::run(
                capacity,
                Phase::Release,
                releases[i],
            ) == Some(Phase::Done),
        heard_each(before, releases) == Some(after),
        request.len() < MAX_TRIES,
        protocol::run(capacity, Phase::Probe { len: capacity }, request) == Some(end),
        end is Live || end is Done,
        protocol::heard(after, request) is Some,
    ensures
        releases.len() < words::allocated(before.counts) - words::released(before.counts) ==> {
            &&& after.cursor == before.cursor
            &&& words::allocated(after.counts) == words::allocated(before.counts)
            &&& words::released(after.counts) == words::released(before.counts) + releases.len()
            &&& end is Done
        },
        releases.len() == words::allocated(before.counts) - words::released(before.counts) ==> {
            &&& !words::is_frozen(after.cursor)
            &&& words::offset_of(after.cursor) == 0
            &&& after.counts == 0
            &&& end == (Phase::Live { len: capacity, offset: 0 })
        },
{
    let rest = releases.drop_last();
    let last = releases.len() - 1;
    assert(rest.len() == last);
    assert forall|i: int| 0 <= i < rest.len() implies #[trigger] protocol::run(
        capacity,
        Phase::Release,
        rest[i],
    ) == Some(Phase::Done) by {
        assert(rest[i] == releases[i]);
        assert(protocol::run(capacity, Phase::Release, releases[i]) == Some(Phase::Done));
    }
    releases_come_back(capacity, before, rest);
    let reached = heard_each(before, rest)->0;
    assert(protocol::run(capacity, Phase::Release, releases[last]) == Some(Phase::Done));
    release_alone(capacity, reached, releases[last]);
    counts_add(reached.counts);
    words::reset_cursor(reached.cursor);
    if !words::is_frozen(after.cursor) {
        reserve_alone(capacity, after, capacity, request);
    } else {
        frozen_chunk_refuses(capacity, after, capacity, request);
    }
}

proof fn releases_come_back(capacity: nat, before: Words, releases: Seq<Seq<Event>>)
    requires
        releases.len() < words::allocated(before.counts) - words::released(before.counts),
        forall|i: int|
            0 <= i < releases.len() ==> #[trigger] protocol::run(
                capacity,
                Phase::Release,
                releases[i],
            ) == Some(Phase::Done),
        heard_each(before, releases) is Some,
    ensures
        ({
            let after = heard_each(before, releases)->0;
            &&& after.cursor == before.cursor
            &&& words::allocated(after.counts) == words::allocated(before.counts)
            &&& words::released(after.counts) == words::released(before.counts) + releases.len()
        }),
    decreases releases.len(),
{
    if releases.len() > 0 {
        let rest = releases.drop_last();
        let last = releases.len() - 1;
        assert forall|i: int| 0 <= i < rest.len() implies #[trigger] protocol::run(
            capacity,
            Phase::Release,
            rest[i],
        ) == Some(Phase::Done) by {
            assert(rest[i] == releases[i]);
            assert(protocol::run(capacity, Phase::Release, releases[i]) == Some(Phase::Done));
        }
        releases_come_back(capacity, before, rest);
        let reached = heard_each(before, rest)->0;
        assert(protocol::run(capacity, Phase::Release, releases[last]) == Some(Phase::Done));
        release_alone(capacity, reached, releases[last]);
        counts_add(reached.counts);
    }
}

/// A frozen chunk that nobody else touches gives nothing, and is left as it was.
pub proof fn frozen_chunk_refuses(capacity: nat, before: Words, len: nat, events: Seq<Event>)
    requires
        words::is_frozen(before.cursor),
        protocol::heard(before, events) is Some,
        ({
            let end = protocol::run(capacity, Phase::Probe { len }, events);
            end matches Some(phase) && (phase is Live || phase is Done)
        }),
    ensures
        protocol::run(capacity, Phase::Probe { len }, events) == Some(Phase::Done),
        protocol::heard(before, events) == Some(before),
{
    refusal_on_the_way(capacity, before, len, events);
}

proof fn refusal_on_the_way(capacity: nat, before: Words, len: nat, events: Seq<Event>)
    requires
        words::is_frozen(before.cursor),
        protocol::heard(before, events) is Some,
        protocol::run(capacity, Phase::Probe { len }, events) is Some,
    ensures
        protocol::heard(before, events) == Some(before),
        ({
            let end = protocol::run(capacity, Phase::Probe { len }, events)->0;
            end is Done || end == (Phase::Probe { len })
        }),
    decreases events.len(),
{
    if events.len() > 0 {
        refusal_on_the_way(capacity, before, len, events.drop_last());
    }
}

/// The state in which an arena that one thread has to itself is at all times: a chunk
/// is frozen only while frames of it are out, and the chunk that is not the current one
/// is frozen or empty.
pub open spec fn orderly(arena: ArenaWords) -> bool {
    let other = if arena.current == 0 {
        arena.second
    } else {
        arena.first
    };
    &&& arena.current < 2
    &&& words::released(arena.first.counts) <= words::allocated(arena.first.counts)
    &&& words::released(arena.second.counts) <= words::allocated(arena.second.counts)
    &&& words::is_frozen(arena.first.cursor) ==> words::released(arena.first.counts)
        < words::allocated(arena.first.counts)
    &&& words::is_frozen(arena.second.cursor) ==> words::released(arena.second.counts)
        < words::allocated(arena.second.counts)
    &&& words::is_frozen(other.cursor) || words::offset_of(other.cursor) == 0
}

/// A fresh arena is orderly, and stays so with every request and every release, as long
/// as nobody else uses it and the tallies do not overflow.
pub proof fn arena_stays_orderly(
    capacity: nat,
    before: ArenaWords,
    len: nat,
    runs: Runs,
    place: Place,
    release: Seq<Event>,
)
    requires
        0 < len <= capacity < u32::MAX,
        orderly(before),
        tickets_left(before.first),
        tickets_left(before.second),
        runs.one.len() < MAX_TRIES,
        runs.two.len() < MAX_TRIES,
    ensures
        orderly(ephemeral::fresh_arena()),
        ephemeral::asked(capacity, len, runs, place) && arena_heard(before, runs) is Some
            ==> orderly(arena_heard(before, runs)->0),
        protocol::run(capacity, Phase::Release, release) == Some(Phase::Done) ==> {
            &&& words::released(before.first.counts) < words::allocated(before.first.counts)
                && protocol::heard(before.first, release) is Some ==> orderly(
                ArenaWords { first: protocol::heard(before.first, release)->0, ..before },
            )
            &&& words::released(before.second.counts) < words::allocated(before.second.counts)
                && protocol::heard(before.second, release) is Some ==> orderly(
                ArenaWords { second: protocol::heard(before.second, release)->0, ..before },
            )
        },
{
    if ephemeral::asked(capacity, len, runs, place) && arena_heard(before, runs) is Some {
        request_alone(capacity, before, len, runs, place);
        reserved_shows(capacity, before.first, len);
        reserved_shows(capacity, before.second, len);
    }
    if protocol::run(capacity, Phase::Release, release) == Some(Phase::Done) {
        if words::released(before.first.counts) < words::allocated(before.first.counts)
            && protocol::heard(before.first, release) is Some {
            release_alone(capacity, before.first, release);
        }
        if words::released(before.second.counts) < words::allocated(before.second.counts)
            && protocol::heard(before.second, release) is Some {
            release_alone(capacity, before.second, release);
        }
    }
}

proof fn reserved_shows(capacity: nat, before: Words, len: nat)
    requires
        0 < len <= capacity < u32::MAX,
        tickets_left(before),
    ensures
        shown(reserved_words(capacity, before, len)) == {
            let (frozen, offset, out, back) = shown(before);
            if frozen {
                (frozen, offset, out, back)
            } else if offset + len <= capacity {
                (false, offset + len, out + 1, back)
            } else if back < out {
                (true, offset, out + 1, back + 1)
            } else {
                (false, 0nat, 0nat, 0nat)
            }
        },
{
    counts_add(before.counts);
    counts_add(handed_out(before.counts));
    words::frozen_cursor(before.cursor);
    words::reset_cursor(words::frozen_word(before.cursor));
    if fits(capacity, before, len) {
        words::moved_cursor(before.cursor, len);
    }
}

/// An orderly arena that nobody else uses and that has no frame out serves every request
/// that a chunk can hold out of a chunk: with everything dropped, nothing goes to the
/// heap.
pub proof fn arena_with_nothing_out_serves_from_a_chunk(
    capacity: nat,
    before: ArenaWords,
    len: nat,
    runs: Runs,
    place: Place,
)
    requires
        0 < len <= capacity < u32::MAX,
        orderly(before),
        words::allocated(before.first.counts) == words::released(before.first.counts) < u32::MAX,
        words::allocated(before.second.counts) == words::released(before.second.counts)
            < u32::MAX,
        runs.one.len() < MAX_TRIES,
        runs.two.len() < MAX_TRIES,
        ephemeral::asked(capacity, len, runs, place),
        arena_heard(before, runs) is Some,
    ensures
        place matches Place::Chunk { index, offset } && index < 2 && offset + len <= capacity,
{
    request_alone(capacity, before, len, runs, place);
}

/// A request goes to the heap only if neither chunk of an arena that nobody else uses has
/// room: each is frozen, or what is taken of it and the request are more than it holds.
pub proof fn heap_is_for_what_fits_no_chunk(
    capacity: nat,
    before: ArenaWords,
    len: nat,
    runs: Runs,
    place: Place,
)
    requires
        0 < len <= capacity < u32::MAX,
        before.current < 2,
        tickets_left(before.first),
        tickets_left(before.second),
        runs.one.len() < MAX_TRIES,
        runs.two.len() < MAX_TRIES,
        ephemeral::asked(capacity, len, runs, place),
        arena_heard(before, runs) is Some,
    ensures
        place is Heap <==> {
            &&& words::is_frozen(before.first.cursor) || words::offset_of(before.first.cursor)
                + len > capacity
            &&& words::is_frozen(before.second.cursor) || words::offset_of(before.second.cursor)
                + len > capacity
        },
        !(place is Inline),
{
    request_alone(capacity, before, len, runs, place);
}

} // verus!
