//! The chunks of an arena, and who is asked for bytes.
//!
//! The chunks are out of reach outside this module: a frame holds its ticket, but
//! neither the frame nor the arena's handle can get at the words behind it.

use crate::atomic;
use crate::atomic::Access;
use crate::atomic::Op;
use crate::atomic::Role;
use crate::atomic::Trace;
use crate::atomic::Word;
use crate::chunk::ChunkState;
use crate::chunk::Ticket;
use crate::ephemeral;
use crate::ephemeral::Place;
use crate::ephemeral::Runs;
use crate::protocol;
use crate::protocol::Phase;
use crate::protocol::Words;
use crate::words;
use std::sync::Arc;
use vstd::prelude::*;

verus! {

/// The records of what a request did, which take no room at run time.
pub struct Inquiry {
    current: Trace,
    one: Trace,
    two: Trace,
}

impl View for Inquiry {
    type V = Runs;

    /// The accesses in the records.
    closed spec fn view(&self) -> Runs {
        Runs { current: self.current@, one: self.one@, two: self.two@ }
    }
}

impl Inquiry {
    /// Records with no access in them.
    pub(crate) fn new() -> (inquiry: Inquiry)
        ensures
            inquiry@ == ephemeral::no_runs(),
    {
        Inquiry { current: Trace::new(), one: Trace::new(), two: Trace::new() }
    }
}

/// The part of an arena that its frames share.
pub struct ArenaInner {
    current: Word,
    first: ChunkState,
    second: ChunkState,
}

impl ArenaInner {
    /// The capacity of each of the two chunks.
    pub closed spec fn spec_capacity(&self) -> usize {
        self.first.spec_capacity()
    }

    /// The word that names the current chunk.
    pub closed spec fn current_word(&self) -> Word {
        self.current
    }

    /// The chunk with this index.
    pub closed spec fn spec_chunk(&self, index: int) -> ChunkState {
        if index == 0 {
            self.first
        } else {
            self.second
        }
    }

    /// Whether the chunks are alike, and small enough for their words.
    pub open spec fn sound(&self) -> bool {
        &&& self.spec_chunk(0).spec_capacity() == self.spec_capacity()
        &&& self.spec_chunk(1).spec_capacity() == self.spec_capacity()
        &&& 0 < self.spec_capacity() < u32::MAX
        &&& self.current_word().role() is Current
    }

    /// Whether the accesses are to the arena.
    pub open spec fn owns(&self, runs: Runs) -> bool {
        &&& forall|i: int|
            0 <= i < runs.current.len() ==> (#[trigger] runs.current[i]).word
                == self.current_word()
        &&& self.spec_chunk(ephemeral::first_asked(runs)).owns_all(runs.one)
        &&& self.spec_chunk(1 - ephemeral::first_asked(runs)).owns_all(runs.two)
    }

    /// Creates the part of a fresh arena that its frames share.
    pub(crate) fn new(chunk_capacity: usize) -> (arena: ArenaInner)
        requires
            0 < chunk_capacity < u32::MAX,
        ensures
            arena.sound(),
            arena.spec_capacity() == chunk_capacity,
            arena.current_word().first() == 0,
            arena.spec_chunk(0).first_words() == (Words { cursor: 0, counts: 0 }),
            arena.spec_chunk(1).first_words() == (Words { cursor: 0, counts: 0 }),
    {
        ArenaInner {
            current: atomic::new_word(Role::Current, 0),
            first: ChunkState::new(chunk_capacity),
            second: ChunkState::new(chunk_capacity),
        }
    }

    /// The capacity of each of the two chunks.
    #[inline]
    pub(crate) fn capacity(&self) -> (capacity: usize)
        ensures
            capacity == self.spec_capacity(),
        opens_invariants none
        no_unwind
    {
        self.first.capacity()
    }

    /// Describes one of the two chunks, as [`ChunkState::snapshot`] does.
    pub(crate) fn snapshot(&self, index: usize, trace: &mut Trace) -> (state: (
        bool,
        usize,
        u32,
        u32,
    ))
        ensures
            self.spec_chunk(index as int).extends(old(trace)@, final(trace)@),
            exists|cursor: u64, counts: u64|
                #![trigger words::description(cursor, counts)]
                {
                    let made = protocol::events(protocol::added(old(trace)@, final(trace)@));
                    &&& made == protocol::glance(cursor, counts)
                    &&& state == words::description(cursor, counts)
                },
        opens_invariants none
        no_unwind
    {
        self.chunk(index).snapshot(trace)
    }

    /// The chunk with this index.
    #[inline]
    fn chunk(&self, index: usize) -> (chunk: &ChunkState)
        ensures
            *chunk == self.spec_chunk(index as int),
        opens_invariants none
        no_unwind
    {
        if index == 0 {
            &self.first
        } else {
            &self.second
        }
    }

    /// The index of the chunk that is asked first, as [`words::named_chunk`] has it
    /// of the word as it is at some moment, which other threads decide.
    #[inline]
    fn current_chunk(&self, trace: &mut Trace) -> (index: usize)
        ensures
            exists|seen: u64|
                index == #[trigger] (seen % 2) && final(trace)@ == old(trace)@.push(
                    Access { word: self.current, op: Op::Load { answer: seen } },
                ),
        opens_invariants none
        no_unwind
    {
        let seen: u64 = atomic::load(&self.current, trace);
        words::named_chunk(seen)
    }

    /// Makes the other chunk the one that is asked first, unless another thread
    /// did so already.
    #[inline]
    fn switch_chunk(&self, from: usize, to: usize, trace: &mut Trace)
        ensures
            exists|reply: Result<u64, u64>|
                final(trace)@ == #[trigger] old(trace)@.push(
                    Access {
                        word: self.current,
                        op: Op::Swap { weak: false, expected: from as u64, new: to as u64, reply },
                    },
                ),
        opens_invariants none
        no_unwind
    {
        let _ = atomic::compare_exchange(&self.current, from as u64, to as u64, trace);
    }

    /// Asks the current chunk for `len` bytes and, if that one has nothing, the other
    /// one, which then becomes the current chunk.
    fn ask(&self, len: usize, inquiry: &mut Inquiry) -> (out: Option<(usize, Ticket)>)
        requires
            self.sound(),
            0 < len <= self.spec_capacity(),
            old(inquiry)@ == ephemeral::no_runs(),
        ensures
            self.owns(final(inquiry)@),
            ephemeral::asked(
                self.spec_capacity() as nat,
                len as nat,
                final(inquiry)@,
                match out {
                    Some((index, ticket)) => Place::Chunk { index, offset: ticket.spec_offset() },
                    None => Place::Heap,
                },
            ),
            out matches Some((index, ticket)) ==> {
                &&& index < 2
                &&& ticket.is_of(&self.spec_chunk(index as int))
                &&& ticket.spec_offset() + len <= self.spec_capacity()
            },
        opens_invariants none
        no_unwind
    {
        let ghost none = Seq::<Access>::empty();
        let first: usize = self.current_chunk(&mut inquiry.current);
        let reserved: Option<Ticket> = self.chunk(first).reserve(len, &mut inquiry.one);
        assert(protocol::added(none, inquiry.one@) =~= inquiry.one@);
        if let Some(ticket) = reserved {
            assert(ephemeral::first_asked(inquiry@) == first);
            return Some((first, ticket));
        }
        let second: usize = 1 - first;
        self.switch_chunk(first, second, &mut inquiry.current);
        let reserved: Option<Ticket> = self.chunk(second).reserve(len, &mut inquiry.two);
        assert(protocol::added(none, inquiry.two@) =~= inquiry.two@);
        assert(ephemeral::first_asked(inquiry@) == first);
        match reserved {
            Some(ticket) => Some((second, ticket)),
            None => None,
        }
    }

    /// Reserves `len` bytes in the current chunk or, if that one has nothing, in
    /// the other one, which then becomes the current chunk.
    pub(crate) fn reserve(arena: &Arc<ArenaInner>, len: usize) -> (out: (Option<ArenaAllocation>, Inquiry))
        requires
            arena.sound(),
            0 < len <= arena.spec_capacity(),
        ensures
            arena.owns(out.1@),
            ephemeral::asked(
                arena.spec_capacity() as nat,
                len as nat,
                out.1@,
                match out.0 {
                    Some(allocation) => allocation.place(),
                    None => Place::Heap,
                },
            ),
            out.0 matches Some(allocation) ==> {
                &&& allocation.home() == *arena
                &&& allocation.place()->index < 2
                &&& allocation.place()->offset + len <= arena.spec_capacity()
                &&& allocation.bytes@.len() == len
            },
    {
        let mut inquiry: Inquiry = Inquiry::new();
        match arena.ask(len, &mut inquiry) {
            Some((index, ticket)) => (
                Some(ArenaAllocation::new(Arc::clone(arena), index, ticket, len)),
                inquiry,
            ),
            None => (None, inquiry),
        }
    }
}

/// A ticket of one of an arena's chunks, which goes back on drop.
pub struct Hold {
    arena: Arc<ArenaInner>,
    chunk: usize,
    ticket: Ticket,
    trace: Trace,
}

impl Hold {
    #[verifier::type_invariant]
    closed spec fn sound(&self) -> bool {
        self.ticket.is_of(&self.arena.spec_chunk(self.chunk as int))
    }

    /// The arena that the ticket is of.
    pub closed spec fn home(&self) -> Arc<ArenaInner> {
        self.arena
    }

    /// The index of the chunk that the ticket is of.
    pub closed spec fn spec_index(&self) -> usize {
        self.chunk
    }

    /// Where the bytes of the ticket begin.
    pub closed spec fn spec_offset(&self) -> usize {
        self.ticket.spec_offset()
    }

    /// The chunk that the ticket is of.
    pub closed spec fn spec_chunk(&self) -> ChunkState {
        self.arena.spec_chunk(self.chunk as int)
    }

    /// The accesses on record.
    pub closed spec fn record(&self) -> Seq<Access> {
        self.trace@
    }

    /// Whether the accesses on record since `before` are those that give the ticket
    /// back to the chunk that it is of.
    pub closed spec fn gave_back(&self, before: &Hold) -> bool {
        let chunk = before.arena.spec_chunk(before.chunk as int);
        &&& before.ticket.is_of(&chunk)
        &&& chunk.extends(before.trace@, self.trace@)
        &&& protocol::traced(
            chunk.spec_capacity() as nat,
            Phase::Release,
            before.trace@,
            self.trace@,
        ) == Some(Phase::Done)
    }
}

impl Drop for Hold {
    #[inline]
    fn drop(&mut self)
        ensures
            final(self).gave_back(old(self)),
            old(self).spec_chunk().extends(old(self).record(), final(self).record()),
            protocol::traced(
                old(self).spec_chunk().spec_capacity() as nat,
                Phase::Release,
                old(self).record(),
                final(self).record(),
            ) == Some(Phase::Done),
        opens_invariants none
        no_unwind
    {
        proof {
            use_type_invariant(&*self);
        }
        self.arena.chunk(self.chunk).release_held(&self.ticket, &mut self.trace);
    }
}

/// A range of bytes drawn from a chunk.
///
/// The chunk accounts for the range: it decides who gets it, from which offset
/// on, and when it can be given out again. The bytes are in a buffer that the
/// allocation owns, so that no frame can reach the bytes of another.
pub struct ArenaAllocation {
    pub hold: Hold,
    pub bytes: Vec<u8>,
}

impl ArenaAllocation {
    /// Where the range is.
    pub open spec fn place(&self) -> Place {
        Place::Chunk { index: self.hold.spec_index(), offset: self.hold.spec_offset() }
    }

    /// The arena that the range is of.
    pub open spec fn home(&self) -> Arc<ArenaInner> {
        self.hold.home()
    }

    /// The chunk that the range is in.
    #[inline]
    pub(crate) fn chunk_index(&self) -> (index: usize)
        ensures
            self.place() matches Place::Chunk { index: chunk, .. } && chunk == index,
    {
        self.hold.chunk
    }

    fn new(arena: Arc<ArenaInner>, chunk: usize, ticket: Ticket, capacity: usize) -> (allocation:
        ArenaAllocation)
        requires
            ticket.is_of(&arena.spec_chunk(chunk as int)),
        ensures
            allocation.home() == arena,
            allocation.place() == (Place::Chunk { index: chunk, offset: ticket.spec_offset() }),
            allocation.hold.arena == arena,
            allocation.hold.chunk == chunk,
            allocation.hold.ticket == ticket,
            allocation.bytes@.len() == capacity,
    {
        let hold: Hold = Hold { arena, chunk, ticket, trace: Trace::new() };
        ArenaAllocation { hold, bytes: vec![0u8; capacity] }
    }
}

} // verus!
