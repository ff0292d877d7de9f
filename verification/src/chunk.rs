//! The shared state of one bump chunk.

use crate::atomic;
use crate::atomic::Access;
use crate::atomic::Op;
use crate::atomic::Role;
use crate::atomic::Trace;
use crate::atomic::Word;
use crate::protocol;
use crate::protocol::Phase;
use crate::protocol::Words;
use crate::protocol::MAX_TRIES;
use crate::words;
use crate::words::ReleaseStep;
use crate::words::ReservePlan;
use crate::words::ALLOCATED_ONE;
use vstd::prelude::*;

verus! {

/// The cursor and the ticket counts of one chunk, shared between threads.
///
/// A reservation takes a ticket, claims its bytes by moving the cursor, and
/// gives the ticket back when its frame is dropped. A request that does not fit
/// freezes the chunk. Whoever brings the last ticket back to a frozen chunk
/// resets it as a whole.
///
/// What other threads do decides what each access finds. The contracts say which
/// accesses an operation makes, and what it makes of their answers: those that it
/// enters into its trace are a [`protocol::run`].
pub struct ChunkState {
    capacity: usize,
    cursor: Word,
    allocated_released: Word,
}

/// A reserved range of bytes of a chunk, with the ticket for it.
pub struct Ticket {
    offset: usize,
    chunk: Ghost<ChunkState>,
}

impl Ticket {
    /// Where the bytes begin.
    pub closed spec fn spec_offset(&self) -> usize {
        self.offset
    }

    /// Whether the ticket is one of this chunk.
    pub closed spec fn is_of(&self, chunk: &ChunkState) -> bool {
        self.chunk@ == *chunk
    }

    /// Where the bytes begin.
    #[inline]
    pub fn offset(&self) -> (offset: usize)
        ensures
            offset == self.spec_offset(),
        opens_invariants none
        no_unwind
    {
        self.offset
    }
}

/// The offset on a ticket, if there is one.
pub open spec fn offset_on(ticket: Option<Ticket>) -> Option<nat> {
    match ticket {
        Some(ticket) => Some(ticket.spec_offset() as nat),
        None => None,
    }
}

impl ChunkState {
    #[verifier::type_invariant]
    closed spec fn sound(&self) -> bool {
        &&& self.capacity < u32::MAX
        &&& self.cursor.role() is Cursor
        &&& self.allocated_released.role() is Counts
    }

    /// The bytes that the chunk has to give.
    pub closed spec fn spec_capacity(&self) -> usize {
        self.capacity
    }

    /// The chunk's cursor.
    pub closed spec fn cursor_word(&self) -> Word {
        self.cursor
    }

    /// The chunk's ticket counts.
    pub closed spec fn counts_word(&self) -> Word {
        self.allocated_released
    }

    /// The content of the two words when the chunk was created.
    pub open spec fn first_words(&self) -> Words {
        Words { cursor: self.cursor_word().first(), counts: self.counts_word().first() }
    }

    /// Whether the access is one to the chunk.
    pub open spec fn owns(&self, access: Access) -> bool {
        match access.word.role() {
            Role::Cursor => access.word == self.cursor_word(),
            Role::Counts => access.word == self.counts_word(),
            Role::Current => false,
        }
    }

    /// Whether all of the accesses are to the chunk.
    pub open spec fn owns_all(&self, log: Seq<Access>) -> bool {
        forall|i: int| 0 <= i < log.len() ==> self.owns(#[trigger] log[i])
    }

    /// Whether a record has gained accesses to the chunk and nothing else.
    pub open spec fn extends(&self, before: Seq<Access>, after: Seq<Access>) -> bool {
        before.is_prefix_of(after) && self.owns_all(protocol::added(before, after))
    }

    proof fn extends_push(
        &self,
        phase: Phase,
        before: Seq<Access>,
        after: Seq<Access>,
        access: Access,
    )
        requires
            self.extends(before, after),
            self.owns(access),
        ensures
            self.extends(before, after.push(access)),
            protocol::traced(self.spec_capacity() as nat, phase, before, after.push(access)) == (
            match protocol::traced(self.spec_capacity() as nat, phase, before, after) {
                Some(reached) => protocol::next(
                    self.spec_capacity() as nat,
                    reached,
                    protocol::event(access),
                ),
                None => None,
            }),
    {
        protocol::traced_push(self.spec_capacity() as nat, phase, before, after, access);
    }

    proof fn extends_concat(
        &self,
        phase: Phase,
        before: Seq<Access>,
        between: Seq<Access>,
        after: Seq<Access>,
    )
        requires
            self.extends(before, between),
            self.extends(between, after),
            protocol::traced(self.spec_capacity() as nat, phase, before, between) is Some,
        ensures
            self.extends(before, after),
            protocol::traced(self.spec_capacity() as nat, phase, before, after)
                == protocol::traced(
                self.spec_capacity() as nat,
                protocol::traced(self.spec_capacity() as nat, phase, before, between)->0,
                between,
                after,
            ),
    {
        protocol::traced_concat(self.spec_capacity() as nat, phase, before, between, after);
    }

    proof fn extends_itself(&self, phase: Phase, log: Seq<Access>)
        ensures
            self.extends(log, log),
            protocol::traced(self.spec_capacity() as nat, phase, log, log) == Some(phase),
    {
        assert(protocol::added(log, log) =~= Seq::<Access>::empty());
        assert(protocol::events(Seq::<Access>::empty()) =~= Seq::empty());
    }

    /// Creates the state of an empty chunk.
    pub fn new(capacity: usize) -> (state: ChunkState)
        requires
            capacity < u32::MAX,
        ensures
            state.spec_capacity() == capacity,
            state.first_words() == (Words { cursor: 0, counts: 0 }),
    {
        ChunkState {
            capacity,
            cursor: atomic::new_word(Role::Cursor, 0),
            allocated_released: atomic::new_word(Role::Counts, 0),
        }
    }

    /// The bytes that the chunk has to give.
    #[inline]
    pub fn capacity(&self) -> (capacity: usize)
        ensures
            capacity == self.spec_capacity(),
            capacity < u32::MAX,
        opens_invariants none
        no_unwind
    {
        proof {
            use_type_invariant(self);
        }
        self.capacity
    }

    /// Reserves `len` bytes and returns the ticket for them.
    ///
    /// Returns `None` if the chunk is frozen or if the request does not fit, which
    /// freezes it. A reservation that lost the race for the cursor [`MAX_TRIES`]
    /// times also ends without bytes.
    pub fn reserve(&self, len: usize, trace: &mut Trace) -> (out: Option<Ticket>)
        requires
            0 < len <= self.spec_capacity(),
        ensures
            self.extends(old(trace)@, final(trace)@),
            protocol::traced(
                self.spec_capacity() as nat,
                Phase::Probe { len: len as nat },
                old(trace)@,
                final(trace)@,
            ) == Some(protocol::outcome_phase(len as nat, offset_on(out))),
            out matches Some(ticket) ==> {
                &&& ticket.is_of(self)
                &&& ticket.spec_offset() + len <= self.spec_capacity()
                &&& protocol::traced(
                    self.spec_capacity() as nat,
                    Phase::Probe { len: len as nat },
                    old(trace)@,
                    final(trace)@,
                ) == Some(Phase::Live { len: len as nat, offset: ticket.spec_offset() as nat })
            },
            out is None ==> protocol::traced(
                self.spec_capacity() as nat,
                Phase::Probe { len: len as nat },
                old(trace)@,
                final(trace)@,
            ) == Some(Phase::Done),
        opens_invariants none
        no_unwind
    {
        proof {
            use_type_invariant(self);
        }
        let ghost start = Phase::Probe { len: len as nat };
        let ghost before = trace@;
        proof {
            self.extends_itself(start, before);
        }

        // Avoid touching the ticket counter for the common already-frozen case.
        // A concurrent freeze is covered by the second cursor check below.
        let ghost log = trace@;
        let seen: u64 = atomic::load(&self.cursor, trace);
        proof {
            let op = Op::Load { answer: seen };
            self.extends_push(start, before, log, Access { word: self.cursor, op });
        }
        if words::cursor_frozen(seen) {
            return None;
        }
        let ghost log = trace@;
        let ticket: u64 = self.allocate_ticket(trace);
        proof {
            let op = Op::Add { amount: ALLOCATED_ONE, answer: ticket };
            self.extends_push(start, before, log, Access { word: self.allocated_released, op });
        }
        let ghost log = trace@;
        let mut cursor: u64 = atomic::load(&self.cursor, trace);
        proof {
            let op = Op::Load { answer: cursor };
            self.extends_push(start, before, log, Access { word: self.cursor, op });
        }
        let mut tries: u64 = 0;
        while tries < MAX_TRIES
            invariant
                self.sound(),
                0 < len <= self.capacity,
                start == (Phase::Probe { len: len as nat }),
                before == old(trace)@,
                tries <= MAX_TRIES,
                self.extends(before, trace@),
                protocol::traced(self.capacity as nat, start, before, trace@) == Some(
                    protocol::after_read(
                        self.capacity as nat,
                        len as nat,
                        cursor,
                        tries as nat,
                    ),
                ),
            decreases MAX_TRIES - tries,
        {
            let ghost log = trace@;
            match words::plan_reservation(cursor, len, self.capacity) {
                ReservePlan::Frozen => {
                    self.give_up(Ghost(before), Ghost(len as nat), trace);
                    return None;
                },
                ReservePlan::Full => {
                    let expected: u64 = cursor;
                    let froze: bool = self.freeze_or_retry(expected, &mut cursor, trace);
                    proof {
                        self.extends_push(start, before, log, trace@.last());
                    }
                    if froze {
                        self.give_up(Ghost(before), Ghost(len as nat), trace);
                        return None;
                    }
                },
                ReservePlan::Fits { offset, moved } => {
                    let reply: Result<u64, u64> = atomic::compare_exchange_weak(
                        &self.cursor,
                        cursor,
                        moved,
                        trace,
                    );
                    proof {
                        words::moved_cursor(cursor, len as nat);
                        self.extends_push(start, before, log, trace@.last());
                    }
                    match reply {
                        Ok(_) => {
                            return Some(Ticket { offset: offset as usize, chunk: Ghost(*self) });
                        },
                        Err(actual) => {
                            cursor = actual;
                        },
                    }
                },
            }
            tries += 1;
        }
        self.give_up(Ghost(before), Ghost(len as nat), trace);
        None
    }

    /// Gives the ticket of a reservation back that got no bytes.
    fn give_up(&self, before: Ghost<Seq<Access>>, len: Ghost<nat>, trace: &mut Trace)
        requires
            self.extends(before@, old(trace)@),
            protocol::traced(
                self.spec_capacity() as nat,
                Phase::Probe { len: len@ },
                before@,
                old(trace)@,
            ) == Some(Phase::Release),
        ensures
            self.extends(before@, final(trace)@),
            protocol::traced(
                self.spec_capacity() as nat,
                Phase::Probe { len: len@ },
                before@,
                final(trace)@,
            ) == Some(Phase::Done),
        opens_invariants none
        no_unwind
    {
        self.return_ticket(trace);
        proof {
            self.extends_concat(Phase::Probe { len: len@ }, before@, old(trace)@, trace@);
        }
    }

    /// Freezes the chunk if its cursor is still `cursor`; else reports what the
    /// cursor is instead.
    #[inline]
    fn freeze_or_retry(&self, cursor: u64, actual: &mut u64, trace: &mut Trace) -> (froze: bool)
        ensures
            ({
                let reply = if froze {
                    Ok(cursor)
                } else {
                    Err(*final(actual))
                };
                let new = words::frozen_word(cursor);
                let op = Op::Swap { weak: false, expected: cursor, new, reply };
                final(trace)@ == old(trace)@.push(Access { word: self.cursor_word(), op })
            }),
            froze ==> *final(actual) == *old(actual),
        opens_invariants none
        no_unwind
    {
        let new: u64 = words::freeze_cursor(cursor);
        match atomic::compare_exchange(&self.cursor, cursor, new, trace) {
            Ok(_) => true,
            Err(value) => {
                *actual = value;
                false
            },
        }
    }

    /// Counts one more ticket as handed out, and answers with the counts as they
    /// were before.
    #[inline]
    fn allocate_ticket(&self, trace: &mut Trace) -> (answer: u64)
        ensures
            final(trace)@ == old(trace)@.push(
                Access {
                    word: self.counts_word(),
                    op: Op::Add { amount: ALLOCATED_ONE, answer },
                },
            ),
        opens_invariants none
        no_unwind
    {
        atomic::fetch_add(&self.allocated_released, ALLOCATED_ONE, trace)
    }

    /// Gives a ticket back, once its bytes are no longer used, and resets the chunk
    /// if it is frozen and this was the last ticket out.
    pub fn release_ticket(&self, ticket: Ticket, trace: &mut Trace)
        requires
            ticket.is_of(self),
        ensures
            self.extends(old(trace)@, final(trace)@),
            protocol::traced(
                self.spec_capacity() as nat,
                Phase::Release,
                old(trace)@,
                final(trace)@,
            ) == Some(Phase::Done),
        opens_invariants none
        no_unwind
    {
        self.release_held(&ticket, trace);
    }

    /// Gives a ticket back that is about to be dropped, as
    /// [`release_ticket`](Self::release_ticket) does.
    pub(crate) fn release_held(&self, ticket: &Ticket, trace: &mut Trace)
        requires
            ticket.is_of(self),
        ensures
            self.extends(old(trace)@, final(trace)@),
            protocol::traced(
                self.spec_capacity() as nat,
                Phase::Release,
                old(trace)@,
                final(trace)@,
            ) == Some(Phase::Done),
        opens_invariants none
        no_unwind
    {
        self.return_ticket(trace);
    }

    /// Counts one more ticket as come back, and resets the chunk if it is frozen and
    /// this was the last ticket out.
    ///
    /// Tickets only ever come back that went out, so the tallies are not overrun.
    fn return_ticket(&self, trace: &mut Trace)
        ensures
            self.extends(old(trace)@, final(trace)@),
            protocol::traced(
                self.spec_capacity() as nat,
                Phase::Release,
                old(trace)@,
                final(trace)@,
            ) == Some(Phase::Done),
        opens_invariants none
        no_unwind
    {
        proof {
            use_type_invariant(self);
            self.extends_itself(Phase::Release, trace@);
        }
        let ghost before = trace@;
        let old: u64 = atomic::fetch_add(&self.allocated_released, 1, trace);
        let ghost between = trace@;
        proof {
            self.extends_push(Phase::Release, before, before, between.last());
        }
        if let ReleaseStep::Balanced(balanced) = words::settle_release(old) {
            self.try_reset(balanced, trace);
            proof {
                self.extends_concat(Phase::Release, before, between, trace@);
            }
        }
    }

    /// Resets the chunk if it is frozen and its counts are still `balanced`.
    ///
    /// Where the counts were, but the cursor turns out to be another one by then,
    /// others have reset the chunk in the meantime. It may have been frozen again
    /// with nobody else left to reset it, so it is looked at once more.
    fn try_reset(&self, balanced: u64, trace: &mut Trace)
        ensures
            self.extends(old(trace)@, final(trace)@),
            protocol::traced(
                self.spec_capacity() as nat,
                Phase::Look { balanced, tries: 0 },
                old(trace)@,
                final(trace)@,
            ) == Some(Phase::Done),
        opens_invariants none
        no_unwind
    {
        let ghost start = Phase::Look { balanced, tries: 0 };
        let ghost before = trace@;
        proof {
            use_type_invariant(self);
            self.extends_itself(start, before);
        }
        let mut expected: u64 = balanced;
        let mut tries: u64 = 0;
        loop
            invariant
                self.sound(),
                start == (Phase::Look { balanced, tries: 0 }),
                before == old(trace)@,
                tries < MAX_TRIES,
                self.extends(before, trace@),
                protocol::traced(self.capacity as nat, start, before, trace@) == Some(
                    Phase::Look { balanced: expected, tries: tries as nat },
                ),
            decreases MAX_TRIES - tries,
        {
            let ghost log = trace@;
            let frozen: u64 = atomic::load(&self.cursor, trace);
            proof {
                self.extends_push(start, before, log, trace@.last());
            }
            if !words::cursor_frozen(frozen) {
                return;
            }
            // The exact exchange protects against a reservation which observed the
            // chunk before it was frozen and acquired a ticket concurrently.
            let ghost log = trace@;
            let zeroed: Result<u64, u64> = atomic::compare_exchange(
                &self.allocated_released,
                expected,
                0,
                trace,
            );
            proof {
                self.extends_push(start, before, log, trace@.last());
            }
            if let Err(_) = zeroed {
                return;
            }
            let open: u64 = words::restart_cursor(frozen);
            let ghost log = trace@;
            let thawed: Result<u64, u64> = atomic::compare_exchange(
                &self.cursor,
                frozen,
                open,
                trace,
            );
            proof {
                self.extends_push(start, before, log, trace@.last());
            }
            if let Ok(_) = thawed {
                return;
            }
            expected = 0;
            tries += 1;
            if tries == MAX_TRIES {
                return;
            }
        }
    }

    /// Whether the chunk is frozen, its next free byte, and its two tallies:
    /// tickets handed out, tickets come back.
    ///
    /// The two words are read one after the other.
    pub fn snapshot(&self, trace: &mut Trace) -> (state: (bool, usize, u32, u32))
        ensures
            self.extends(old(trace)@, final(trace)@),
            exists|cursor: u64, counts: u64|
                #![trigger words::description(cursor, counts)]
                {
                    let made = protocol::events(protocol::added(old(trace)@, final(trace)@));
                    &&& made == protocol::glance(cursor, counts)
                    &&& state == words::description(cursor, counts)
                },
        opens_invariants none
        no_unwind
    {
        proof {
            use_type_invariant(self);
            self.extends_itself(Phase::Done, trace@);
        }
        let ghost before = trace@;
        let cursor: u64 = atomic::load(&self.cursor, trace);
        proof {
            self.extends_push(Phase::Done, before, before, trace@.last());
        }
        let ghost between = trace@;
        let counts: u64 = atomic::load(&self.allocated_released, trace);
        proof {
            self.extends_push(Phase::Done, before, between, trace@.last());
            assert(protocol::events(protocol::added(before, trace@)) =~= protocol::glance(
                cursor,
                counts,
            ));
        }
        words::describe(cursor, counts)
    }
}

/// A record that a chunk extends holds what it held before, and behind it accesses to the
/// two words of that chunk and to no other.
pub proof fn chunks_touch_only_their_words(
    chunk: ChunkState,
    before: Seq<Access>,
    after: Seq<Access>,
)
    requires
        chunk.extends(before, after),
    ensures
        before.len() <= after.len(),
        after.take(before.len() as int) == before,
        forall|i: int|
            before.len() <= i < after.len() ==> {
                let access = #[trigger] after[i];
                ||| access.word.role() is Cursor && access.word == chunk.cursor_word()
                ||| access.word.role() is Counts && access.word == chunk.counts_word()
            },
{
    assert(after.take(before.len() as int) =~= before);
    assert forall|i: int| before.len() <= i < after.len() implies {
        let access = #[trigger] after[i];
        ||| access.word.role() is Cursor && access.word == chunk.cursor_word()
        ||| access.word.role() is Counts && access.word == chunk.counts_word()
    } by {
        let log = protocol::added(before, after);
        assert(log[i - before.len()] == after[i]);
        assert(chunk.owns(log[i - before.len()]));
    }
}

} // verus!
