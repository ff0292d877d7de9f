//! An arena for short-lived byte frames.

pub use crate::arena::ArenaAllocation;
pub use crate::arena::ArenaInner;
pub use crate::arena::Hold;
pub use crate::arena::Inquiry;
use crate::atomic::Access;
use crate::atomic::Op;
use crate::atomic::Trace;
use crate::atomic::Word;
use crate::bytes;
use crate::chunk::ChunkState;
use crate::protocol;
use crate::protocol::Phase;
use crate::protocol::Words;
use crate::report;
use crate::words;
use std::fmt;
use std::io;
use std::ops::Deref;
use std::sync::Arc;
use vstd::prelude::*;

verus! {

/// Frames up to this size are stored directly in the frame value.
pub const EPHEMERAL_BYTES_INLINE_CAPACITY: usize = 48;

/// The error of an input or output operation.
#[verifier::external_type_specification]
#[verifier::external_body]
pub struct ExIoError(std::io::Error);

/// Where the bytes of a frame are.
pub enum Place {
    /// In the frame value itself.
    Inline,
    /// In one of the arena's two chunks, from this offset on.
    Chunk { index: usize, offset: usize },
    /// In a heap buffer of their own.
    Heap,
}

/// The accesses that a request to an arena made: to the word that names the current
/// chunk, to the chunk that it asked first, and to the other chunk.
pub struct Runs {
    pub current: Seq<Access>,
    pub one: Seq<Access>,
    pub two: Seq<Access>,
}

/// No access at all.
pub open spec fn no_runs() -> Runs {
    Runs { current: Seq::empty(), one: Seq::empty(), two: Seq::empty() }
}

/// The index of the chunk that was asked first: the one that the word for the
/// current chunk named.
pub open spec fn first_asked(runs: Runs) -> int {
    match runs.current[0].op {
        Op::Load { answer } => answer as int % 2,
        _ => 0,
    }
}

/// Whether the word for the current chunk was looked at and left alone.
pub open spec fn looked(runs: Runs) -> bool {
    &&& runs.current.len() == 1
    &&& runs.current[0].op is Load
}

/// Whether the word for the current chunk was looked at and, after that, the other
/// chunk was to be made the current one.
pub open spec fn switched(runs: Runs) -> bool {
    &&& runs.current.len() == 2
    &&& runs.current[0].op is Load
    &&& runs.current[1].op matches Op::Swap { weak, expected, new, .. } && {
        &&& !weak
        &&& expected == first_asked(runs)
        &&& new == 1 - first_asked(runs)
    }
}

/// Whether `place` is where a request for `len` bytes ends up that made these
/// accesses: it asks the current chunk and, if that one has nothing, switches to the
/// other one and asks that.
pub open spec fn asked(capacity: nat, len: nat, runs: Runs, place: Place) -> bool {
    let start = Phase::Probe { len };
    let one = protocol::run(capacity, start, protocol::events(runs.one));
    let two = protocol::run(capacity, start, protocol::events(runs.two));
    match place {
        Place::Inline => false,
        Place::Chunk { index, offset } => {
            let live = Phase::Live { len, offset: offset as nat };
            if index == first_asked(runs) {
                looked(runs) && one == Some(live) && runs.two.len() == 0
            } else {
                &&& index == 1 - first_asked(runs)
                &&& switched(runs)
                &&& one == Some(Phase::Done)
                &&& two == Some(live)
            }
        },
        Place::Heap => {
            &&& switched(runs)
            &&& one == Some(Phase::Done)
            &&& two == Some(Phase::Done)
        },
    }
}

/// The words of an arena at one moment: the index of the current chunk, and the
/// words of each chunk.
pub struct ArenaWords {
    pub current: u64,
    pub first: Words,
    pub second: Words,
}

/// The words of an arena that has just been created.
pub open spec fn fresh_arena() -> ArenaWords {
    ArenaWords {
        current: 0,
        first: Words { cursor: 0, counts: 0 },
        second: Words { cursor: 0, counts: 0 },
    }
}

/// The backing memory of a frame.
///
/// All of it is initialized; how much of it has been written is for the frame
/// to know.
pub enum Storage {
    Inline([u8; EPHEMERAL_BYTES_INLINE_CAPACITY]),
    Arena(ArenaAllocation),
    Heap(Vec<u8>),
}

impl Storage {
    /// The bytes of the backing memory, written or not.
    closed spec fn region(&self) -> Seq<u8> {
        match self {
            Storage::Inline(bytes) => bytes@,
            Storage::Arena(allocation) => allocation.bytes@,
            Storage::Heap(bytes) => bytes@,
        }
    }

    proof fn region_is_addressable(&self)
        ensures
            self.region().len() <= usize::MAX,
    {
        match self {
            Storage::Inline(_) => {},
            Storage::Arena(allocation) => {
                assert(allocation.bytes.len() == allocation.bytes@.len());
            },
            Storage::Heap(bytes) => {
                assert(bytes.len() == bytes@.len());
            },
        }
    }

    closed spec fn place(&self) -> Place {
        match self {
            Storage::Inline(_) => Place::Inline,
            Storage::Arena(allocation) => allocation.place(),
            Storage::Heap(_) => Place::Heap,
        }
    }

    closed spec fn home(&self) -> Option<Arc<ArenaInner>> {
        match self {
            Storage::Arena(allocation) => Some(allocation.home()),
            _ => None,
        }
    }

    #[inline]
    fn capacity(&self) -> (capacity: usize)
        ensures
            capacity == self.region().len(),
    {
        match self {
            Storage::Inline(_) => EPHEMERAL_BYTES_INLINE_CAPACITY,
            Storage::Arena(allocation) => allocation.bytes.len(),
            Storage::Heap(bytes) => bytes.len(),
        }
    }

    #[inline]
    fn is_heap(&self) -> (heap: bool)
        ensures
            heap == (self.place() is Heap),
    {
        matches!(self, Storage::Heap(_))
    }

    #[inline]
    fn is_inline(&self) -> (inline: bool)
        ensures
            inline == (self.place() is Inline),
    {
        matches!(self, Storage::Inline(_))
    }

    #[inline]
    fn chunk_index(&self) -> (index: Option<usize>)
        ensures
            index == (match self.place() {
                Place::Chunk { index, .. } => Some(index),
                _ => None,
            }),
    {
        match self {
            Storage::Arena(allocation) => Some(allocation.chunk_index()),
            _ => None,
        }
    }

    /// The first `len` bytes.
    #[inline]
    fn as_slice(&self, len: usize) -> (bytes: &[u8])
        requires
            len <= self.region().len(),
        ensures
            bytes@ == self.region().take(len as int),
    {
        match self {
            Storage::Inline(bytes) => vstd::slice::slice_subrange(bytes.as_slice(), 0, len),
            Storage::Arena(allocation) => vstd::slice::slice_subrange(
                allocation.bytes.as_slice(),
                0,
                len,
            ),
            Storage::Heap(bytes) => vstd::slice::slice_subrange(bytes.as_slice(), 0, len),
        }
    }

    /// Writes `bytes` from `offset` on.
    #[inline]
    fn extend_from_slice(&mut self, offset: usize, bytes: &[u8])
        requires
            offset + bytes@.len() <= old(self).region().len(),
        ensures
            final(self).region() == bytes::overwritten(old(self).region(), offset as int, bytes@),
            final(self).place() == old(self).place(),
            final(self).home() == old(self).home(),
    {
        match self {
            Storage::Inline(output) => bytes::overwrite(output, offset, bytes),
            Storage::Arena(allocation) => bytes::overwrite(
                allocation.bytes.as_mut_slice(),
                offset,
                bytes,
            ),
            Storage::Heap(output) => bytes::overwrite(output.as_mut_slice(), offset, bytes),
        }
    }
}

/// A shared allocator for short-lived encoded byte frames.
///
/// Frames of [`EPHEMERAL_BYTES_INLINE_CAPACITY`] bytes or less stay inline. For
/// larger frames, the arena has two fixed-size bump-allocation chunks. An
/// allocation that no longer fits freezes the current chunk and switches to the
/// other one. A frozen chunk is reset as a whole after all allocations issued
/// from it have been dropped. Allocation never waits: oversized frames, or
/// frames for which neither chunk is available, fall back to a private heap
/// buffer.
pub struct EphemeralBytesArena {
    inner: Arc<ArenaInner>,
}

impl EphemeralBytesArena {
    #[verifier::type_invariant]
    closed spec fn sound(&self) -> bool {
        self.inner.sound()
    }

    /// The capacity of each of the two chunks.
    pub closed spec fn spec_chunk_capacity(&self) -> usize {
        self.inner.spec_capacity()
    }

    /// The word that names the current chunk.
    pub closed spec fn current_word(&self) -> Word {
        self.inner.current_word()
    }

    /// The chunk with this index.
    pub closed spec fn spec_chunk(&self, index: int) -> ChunkState {
        self.inner.spec_chunk(index)
    }

    /// The content of the arena's words when it was created.
    pub open spec fn first_words(&self) -> ArenaWords {
        ArenaWords {
            current: self.current_word().first(),
            first: self.spec_chunk(0).first_words(),
            second: self.spec_chunk(1).first_words(),
        }
    }

    /// Whether the accesses are to the arena: those to the current-chunk word, to the
    /// chunk that was asked first, and to the other chunk.
    pub open spec fn owns(&self, runs: Runs) -> bool {
        &&& forall|i: int|
            0 <= i < runs.current.len() ==> (#[trigger] runs.current[i]).word
                == self.current_word()
        &&& self.spec_chunk(first_asked(runs)).owns_all(runs.one)
        &&& self.spec_chunk(1 - first_asked(runs)).owns_all(runs.two)
    }

    /// Whether the two arenas are handles on the same chunks.
    pub closed spec fn shares_chunks_with(&self, other: &EphemeralBytesArena) -> bool {
        self.inner == other.inner
    }

    /// Creates an arena with two chunks of `chunk_capacity` bytes each.
    pub fn new(chunk_capacity: usize) -> (arena: EphemeralBytesArena)
        requires
            0 < chunk_capacity < u32::MAX,
        ensures
            arena.spec_chunk_capacity() == chunk_capacity,
            arena.spec_chunk(0).spec_capacity() == chunk_capacity,
            arena.spec_chunk(1).spec_capacity() == chunk_capacity,
            arena.first_words() == fresh_arena(),
    {
        EphemeralBytesArena { inner: Arc::new(ArenaInner::new(chunk_capacity)) }
    }

    /// Reserves space for one frame.
    ///
    /// The returned buffer starts empty and can grow up to `capacity` without
    /// another allocation. Small frames stay inline; dropping an arena-backed
    /// frame before or after [`EphemeralBytesMut::freeze`] returns its chunk
    /// allocation automatically.
    pub fn allocate(&self, capacity: usize) -> (frame: EphemeralBytesMut)
        requires
            capacity <= isize::MAX,
        ensures
            frame@ == Seq::<u8>::empty(),
            capacity <= EPHEMERAL_BYTES_INLINE_CAPACITY ==> {
                &&& frame.place() is Inline
                &&& frame.spec_capacity() == EPHEMERAL_BYTES_INLINE_CAPACITY
            },
            capacity > EPHEMERAL_BYTES_INLINE_CAPACITY ==> frame.spec_capacity() == capacity,
            capacity > EPHEMERAL_BYTES_INLINE_CAPACITY && capacity > self.spec_chunk_capacity()
                ==> frame.place() is Heap,
            capacity <= EPHEMERAL_BYTES_INLINE_CAPACITY || capacity > self.spec_chunk_capacity()
                ==> {
                &&& frame.runs() == no_runs()
                &&& frame.runs().current.len() == 0
                &&& frame.runs().one.len() == 0
                &&& frame.runs().two.len() == 0
            },
            EPHEMERAL_BYTES_INLINE_CAPACITY < capacity <= self.spec_chunk_capacity() ==> {
                &&& self.owns(frame.runs())
                &&& asked(
                    self.spec_chunk_capacity() as nat,
                    capacity as nat,
                    frame.runs(),
                    frame.place(),
                )
                &&& frame.place() matches Place::Chunk { index, offset } ==> {
                    &&& index < 2
                    &&& offset + capacity <= self.spec_chunk_capacity()
                    &&& frame.drawn_from(self)
                }
            },
    {
        proof {
            use_type_invariant(self);
        }
        let (storage, inquiry): (Storage, Inquiry) = if capacity
            <= EPHEMERAL_BYTES_INLINE_CAPACITY {
            (Storage::Inline([0u8; EPHEMERAL_BYTES_INLINE_CAPACITY]), Inquiry::new())
        } else if capacity > self.chunk_capacity() {
            (Storage::Heap(vec![0u8; capacity]), Inquiry::new())
        } else {
            match ArenaInner::reserve(&self.inner, capacity) {
                (Some(allocation), inquiry) => (Storage::Arena(allocation), inquiry),
                (None, inquiry) => (Storage::Heap(vec![0u8; capacity]), inquiry),
            }
        };
        let frame: EphemeralBytesMut = EphemeralBytesMut { storage, len: 0, inquiry };
        assert(frame@ =~= Seq::<u8>::empty());
        frame
    }

    /// Copies a slice directly into its final storage and freezes it.
    pub fn copy_from_slice(&self, bytes: &[u8]) -> (frame: EphemeralBytes)
        requires
            bytes@.len() <= isize::MAX,
        ensures
            frame@ == bytes@,
            frame.place() is Inline <==> bytes@.len() <= EPHEMERAL_BYTES_INLINE_CAPACITY,
            bytes@.len() > EPHEMERAL_BYTES_INLINE_CAPACITY && bytes@.len()
                > self.spec_chunk_capacity() ==> frame.place() is Heap,
            bytes@.len() <= EPHEMERAL_BYTES_INLINE_CAPACITY || bytes@.len()
                > self.spec_chunk_capacity() ==> {
                &&& frame.runs() == no_runs()
                &&& frame.runs().current.len() == 0
                &&& frame.runs().one.len() == 0
                &&& frame.runs().two.len() == 0
            },
            EPHEMERAL_BYTES_INLINE_CAPACITY < bytes@.len() <= self.spec_chunk_capacity() ==> {
                &&& self.owns(frame.runs())
                &&& asked(
                    self.spec_chunk_capacity() as nat,
                    bytes@.len(),
                    frame.runs(),
                    frame.place(),
                )
                &&& frame.place() matches Place::Chunk { index, offset } ==> {
                    &&& index < 2
                    &&& offset + bytes@.len() <= self.spec_chunk_capacity()
                    &&& frame.drawn_from(self)
                }
            },
    {
        let mut output: EphemeralBytesMut = self.allocate(bytes.len());
        output.extend_from_slice(bytes);
        let frame: EphemeralBytes = output.freeze();
        assert(frame@ =~= bytes@);
        frame
    }

    /// Returns the capacity of each of the two chunks.
    #[inline]
    pub fn chunk_capacity(&self) -> (capacity: usize)
        ensures
            capacity == self.spec_chunk_capacity(),
            0 < capacity < u32::MAX,
    {
        proof {
            use_type_invariant(self);
        }
        self.inner.capacity()
    }

    /// Describes one of the two chunks, as [`ChunkState::snapshot`] does.
    pub fn chunk_snapshot(&self, index: usize, trace: &mut Trace) -> (state: (
        bool,
        usize,
        u32,
        u32,
    ))
        requires
            index < 2,
        ensures
            self.spec_chunk(index as int).extends(old(trace)@, final(trace)@),
            exists|cursor: u64, counts: u64|
                #![trigger words::description(cursor, counts)]
                {
                    let made = protocol::events(protocol::added(old(trace)@, final(trace)@));
                    &&& made == protocol::glance(cursor, counts)
                    &&& state == words::description(cursor, counts)
                },
        opens_invariants none
        no_unwind
    {
        self.inner.snapshot(index, trace)
    }
}

impl fmt::Debug for EphemeralBytesArena {
    fn fmt(&self, formatter: &mut fmt::Formatter<'_>) -> (done: fmt::Result)
        ensures
            exists|
                sink: &mut fmt::Formatter<'_>,
                open: fmt::DebugStruct<'_, '_>,
                f1: &mut fmt::DebugStruct<'_, '_>,
                f2: &mut fmt::DebugStruct<'_, '_>,
            |
                #![trigger
                    report::opened("EphemeralBytesArena"@, sink, open),
                    report::numbered("chunk_capacity"@, self.spec_chunk_capacity(), f1),
                    report::finished_non_exhaustive(f2, done)]
                {
                    &&& report::opened("EphemeralBytesArena"@, sink, open)
                    &&& report::numbered("chunk_capacity"@, self.spec_chunk_capacity(), f1)
                    &&& report::finished_non_exhaustive(f2, done)
                    &&& *sink == *old(formatter)
                    &&& *final(sink) == *final(formatter)
                    &&& *f1 == open
                    &&& *f2 == *final(f1)
                },
    {
        let mut output: fmt::DebugStruct<'_, '_> = report::open_struct(
            formatter,
            "EphemeralBytesArena",
        );
        let chunk_capacity: usize = self.chunk_capacity();
        assert(chunk_capacity == self.spec_chunk_capacity());
        report::put_number(&mut output, "chunk_capacity", chunk_capacity);
        report::close_struct_non_exhaustive(&mut output)
    }
}

impl Clone for EphemeralBytesArena {
    fn clone(&self) -> (arena: EphemeralBytesArena)
        ensures
            arena.shares_chunks_with(self),
            arena.spec_chunk_capacity() == self.spec_chunk_capacity(),
            arena.current_word() == self.current_word(),
            forall|index: int| #[trigger] arena.spec_chunk(index) == self.spec_chunk(index),
    {
        proof {
            use_type_invariant(self);
        }
        EphemeralBytesArena { inner: Arc::clone(&self.inner) }
    }
}

/// A writable, fixed-capacity frame allocated by [`EphemeralBytesArena`].
///
/// Encoding writes directly into its final backing memory. It never grows;
/// reserve the complete frame capacity up front and call [`freeze`](Self::freeze)
/// before placing it on an asynchronous request queue.
pub struct EphemeralBytesMut {
    storage: Storage,
    len: usize,
    inquiry: Inquiry,
}

impl View for EphemeralBytesMut {
    type V = Seq<u8>;

    /// The bytes written so far.
    closed spec fn view(&self) -> Seq<u8> {
        self.storage.region().take(self.len as int)
    }
}

impl EphemeralBytesMut {
    #[verifier::type_invariant]
    closed spec fn sound(&self) -> bool {
        self.len <= self.storage.region().len()
    }

    /// The number of bytes that the frame can hold.
    pub closed spec fn spec_capacity(&self) -> nat {
        self.storage.region().len()
    }

    /// Where the frame's bytes are.
    pub closed spec fn place(&self) -> Place {
        self.storage.place()
    }

    /// The accesses that the request for the frame made.
    pub closed spec fn runs(&self) -> Runs {
        self.inquiry@
    }

    /// Whether the frame's bytes come out of a chunk of this arena.
    pub closed spec fn drawn_from(&self, arena: &EphemeralBytesArena) -> bool {
        self.storage.home() == Some(arena.inner)
    }

    /// Number of bytes written so far.
    #[inline]
    pub fn len(&self) -> (len: usize)
        ensures
            len == self@.len(),
            len <= self.spec_capacity(),
    {
        proof {
            use_type_invariant(self);
        }
        self.len
    }

    /// Whether nothing has been written yet.
    #[inline]
    pub fn is_empty(&self) -> (empty: bool)
        ensures
            empty == (self@.len() == 0),
    {
        proof {
            use_type_invariant(self);
        }
        self.len == 0
    }

    /// Maximum number of bytes this allocation can hold.
    #[inline]
    pub fn capacity(&self) -> (capacity: usize)
        ensures
            capacity == self.spec_capacity(),
    {
        self.storage.capacity()
    }

    /// Number of bytes that can still be written.
    #[inline]
    pub fn remaining(&self) -> (remaining: usize)
        ensures
            remaining == self.spec_capacity() - self@.len(),
    {
        proof {
            use_type_invariant(self);
        }
        self.capacity() - self.len
    }

    /// Whether this allocation used the heap fallback instead of an arena chunk.
    #[inline]
    pub fn is_heap_allocated(&self) -> (heap: bool)
        ensures
            heap == (self.place() is Heap),
    {
        self.storage.is_heap()
    }

    /// Whether the bytes are stored directly in this frame value.
    #[inline]
    pub fn is_inline(&self) -> (inline: bool)
        ensures
            inline == (self.place() is Inline),
    {
        self.storage.is_inline()
    }

    /// The chunk that holds the bytes, if one does.
    #[inline]
    pub fn chunk_index(&self) -> (index: Option<usize>)
        ensures
            index == (match self.place() {
                Place::Chunk { index, .. } => Some(index),
                _ => None,
            }),
    {
        self.storage.chunk_index()
    }

    /// Appends bytes without performing another allocation.
    pub fn extend_from_slice(&mut self, bytes: &[u8])
        requires
            old(self)@.len() + bytes@.len() <= old(self).spec_capacity(),
        ensures
            final(self)@ == old(self)@ + bytes@,
            final(self).spec_capacity() == old(self).spec_capacity(),
            final(self).place() == old(self).place(),
            final(self).runs() == old(self).runs(),
            forall|arena: &EphemeralBytesArena| #[trigger]
                final(self).drawn_from(arena) == old(self).drawn_from(arena),
    {
        proof {
            use_type_invariant(&*self);
            self.storage.region_is_addressable();
        }
        let offset: usize = self.len;
        let count: usize = bytes.len();
        let mut storage: Storage = Storage::Inline([0u8; EPHEMERAL_BYTES_INLINE_CAPACITY]);
        self.len = 0;
        std::mem::swap(&mut self.storage, &mut storage);
        storage.extend_from_slice(offset, bytes);
        self.storage = storage;
        self.len = offset + count;
        assert(self@ =~= old(self)@ + bytes@);
    }

    /// Converts the writable frame into immutable bytes without copying.
    #[inline]
    pub fn freeze(self) -> (frame: EphemeralBytes)
        ensures
            frame@ == self@,
            frame.place() == self.place(),
            frame.runs() == self.runs(),
            forall|arena: &EphemeralBytesArena| #[trigger]
                frame.drawn_from(arena) == self.drawn_from(arena),
    {
        proof {
            use_type_invariant(&self);
        }
        let EphemeralBytesMut { storage, len, inquiry } = self;
        EphemeralBytes { storage, len, inquiry }
    }

    /// The bytes written so far.
    #[inline]
    pub fn as_slice(&self) -> (bytes: &[u8])
        ensures
            bytes@ == self@,
    {
        proof {
            use_type_invariant(self);
        }
        self.storage.as_slice(self.len)
    }
}

/// Writing takes as many bytes as there is room for and never fails.
impl io::Write for EphemeralBytesMut {
    #[inline]
    fn write(&mut self, bytes: &[u8]) -> (written: io::Result<usize>)
        ensures
            written matches Ok(count) && {
                let room = old(self).spec_capacity() - old(self)@.len();
                &&& count == if bytes@.len() <= room {
                    bytes@.len() as int
                } else {
                    room
                }
                &&& final(self)@ == old(self)@ + bytes@.take(count as int)
            },
            final(self).spec_capacity() == old(self).spec_capacity(),
            final(self).place() == old(self).place(),
            final(self).runs() == old(self).runs(),
            forall|arena: &EphemeralBytesArena| #[trigger]
                final(self).drawn_from(arena) == old(self).drawn_from(arena),
    {
        let room: usize = self.remaining();
        let len: usize = if bytes.len() <= room {
            bytes.len()
        } else {
            room
        };
        self.extend_from_slice(vstd::slice::slice_subrange(bytes, 0, len));
        Ok(len)
    }

    #[inline]
    fn flush(&mut self) -> (flushed: io::Result<()>)
        ensures
            flushed is Ok,
            *final(self) == *old(self),
    {
        Ok(())
    }
}

impl AsRef<[u8]> for EphemeralBytesMut {
    #[inline]
    fn as_ref(&self) -> (bytes: &[u8])
        ensures
            bytes@ == self@,
    {
        self.as_slice()
    }
}

impl fmt::Debug for EphemeralBytesMut {
    fn fmt(&self, formatter: &mut fmt::Formatter<'_>) -> (done: fmt::Result)
        ensures
            exists|
                sink: &mut fmt::Formatter<'_>,
                open: fmt::DebugStruct<'_, '_>,
                f1: &mut fmt::DebugStruct<'_, '_>,
                f2: &mut fmt::DebugStruct<'_, '_>,
                f3: &mut fmt::DebugStruct<'_, '_>,
                f4: &mut fmt::DebugStruct<'_, '_>,
            |
                #![trigger
                    report::opened("EphemeralBytesMut"@, sink, open),
                    report::numbered("len"@, self@.len() as usize, f1),
                    report::numbered("capacity"@, self.spec_capacity() as usize, f2),
                    report::flagged("heap_allocated"@, (self.place() is Heap), f3),
                    report::finished(f4, done)]
                {
                    &&& report::opened("EphemeralBytesMut"@, sink, open)
                    &&& report::numbered("len"@, self@.len() as usize, f1)
                    &&& report::numbered("capacity"@, self.spec_capacity() as usize, f2)
                    &&& report::flagged("heap_allocated"@, (self.place() is Heap), f3)
                    &&& report::finished(f4, done)
                    &&& *sink == *old(formatter)
                    &&& *final(sink) == *final(formatter)
                    &&& *f1 == open
                    &&& *f2 == *final(f1)
                    &&& *f3 == *final(f2)
                    &&& *f4 == *final(f3)
                },
    {
        let mut output: fmt::DebugStruct<'_, '_> = report::open_struct(
            formatter,
            "EphemeralBytesMut",
        );
        let len: usize = self.len();
        assert(len == self@.len() as usize);
        report::put_number(&mut output, "len", len);
        let capacity: usize = self.capacity();
        assert(capacity == self.spec_capacity() as usize);
        report::put_number(&mut output, "capacity", capacity);
        let heap_allocated: bool = self.is_heap_allocated();
        assert(heap_allocated == (self.place() is Heap));
        report::put_flag(&mut output, "heap_allocated", heap_allocated);
        report::close_struct(&mut output)
    }
}

/// Immutable, move-only bytes backed by inline storage, an arena allocation, or
/// a heap fallback.
///
/// Dropping the value releases its allocation ticket. The underlying chunk is
/// reused only after every value issued from the frozen chunk has been dropped.
pub struct EphemeralBytes {
    storage: Storage,
    len: usize,
    inquiry: Inquiry,
}

impl View for EphemeralBytes {
    type V = Seq<u8>;

    /// The bytes of the frame.
    closed spec fn view(&self) -> Seq<u8> {
        self.storage.region().take(self.len as int)
    }
}

impl EphemeralBytes {
    #[verifier::type_invariant]
    closed spec fn sound(&self) -> bool {
        self.len <= self.storage.region().len()
    }

    /// Where the frame's bytes are.
    pub closed spec fn place(&self) -> Place {
        self.storage.place()
    }

    /// The accesses that the request for the frame made.
    pub closed spec fn runs(&self) -> Runs {
        self.inquiry@
    }

    /// Whether the frame's bytes come out of a chunk of this arena.
    pub closed spec fn drawn_from(&self, arena: &EphemeralBytesArena) -> bool {
        self.storage.home() == Some(arena.inner)
    }

    /// Number of bytes in the frame.
    #[inline]
    pub fn len(&self) -> (len: usize)
        ensures
            len == self@.len(),
    {
        proof {
            use_type_invariant(self);
        }
        self.len
    }

    /// Whether the frame has no bytes.
    #[inline]
    pub fn is_empty(&self) -> (empty: bool)
        ensures
            empty == (self@.len() == 0),
    {
        proof {
            use_type_invariant(self);
        }
        self.len == 0
    }

    /// Whether the bytes are in a heap buffer of their own.
    #[inline]
    pub fn is_heap_allocated(&self) -> (heap: bool)
        ensures
            heap == (self.place() is Heap),
    {
        self.storage.is_heap()
    }

    /// Whether the bytes are stored directly in this frame value.
    #[inline]
    pub fn is_inline(&self) -> (inline: bool)
        ensures
            inline == (self.place() is Inline),
    {
        self.storage.is_inline()
    }

    /// The bytes of the frame.
    #[inline]
    pub fn as_slice(&self) -> (bytes: &[u8])
        ensures
            bytes@ == self@,
    {
        proof {
            use_type_invariant(self);
        }
        self.storage.as_slice(self.len)
    }
}

impl AsRef<[u8]> for EphemeralBytes {
    #[inline]
    fn as_ref(&self) -> (bytes: &[u8])
        ensures
            bytes@ == self@,
    {
        self.as_slice()
    }
}

impl Deref for EphemeralBytes {
    type Target = [u8];

    #[inline]
    fn deref(&self) -> (bytes: &[u8])
        ensures
            bytes@ == self@,
    {
        self.as_slice()
    }
}

impl fmt::Debug for EphemeralBytes {
    fn fmt(&self, formatter: &mut fmt::Formatter<'_>) -> (done: fmt::Result)
        ensures
            exists|
                sink: &mut fmt::Formatter<'_>,
                open: fmt::DebugStruct<'_, '_>,
                f1: &mut fmt::DebugStruct<'_, '_>,
                f2: &mut fmt::DebugStruct<'_, '_>,
                f3: &mut fmt::DebugStruct<'_, '_>,
            |
                #![trigger
                    report::opened("EphemeralBytes"@, sink, open),
                    report::numbered("len"@, self@.len() as usize, f1),
                    report::flagged("heap_allocated"@, (self.place() is Heap), f2),
                    report::finished(f3, done)]
                {
                    &&& report::opened("EphemeralBytes"@, sink, open)
                    &&& report::numbered("len"@, self@.len() as usize, f1)
                    &&& report::flagged("heap_allocated"@, (self.place() is Heap), f2)
                    &&& report::finished(f3, done)
                    &&& *sink == *old(formatter)
                    &&& *final(sink) == *final(formatter)
                    &&& *f1 == open
                    &&& *f2 == *final(f1)
                    &&& *f3 == *final(f2)
                },
    {
        let mut output: fmt::DebugStruct<'_, '_> = report::open_struct(
            formatter,
            "EphemeralBytes",
        );
        let len: usize = self.len();
        assert(len == self@.len() as usize);
        report::put_number(&mut output, "len", len);
        let heap_allocated: bool = self.is_heap_allocated();
        assert(heap_allocated == (self.place() is Heap));
        report::put_flag(&mut output, "heap_allocated", heap_allocated);
        report::close_struct(&mut output)
    }
}

/// The accesses of a request to an arena are to the word for its current chunk, to the
/// words of the chunk that this one named, and to those of the other chunk.
pub proof fn requests_touch_only_the_arena(arena: EphemeralBytesArena, runs: Runs)
    requires
        arena.owns(runs),
    ensures
        forall|i: int|
            0 <= i < runs.current.len() ==> (#[trigger] runs.current[i]).word
                == arena.current_word(),
        forall|i: int|
            0 <= i < runs.one.len() ==> {
                let word = (#[trigger] runs.one[i]).word;
                let chunk = arena.spec_chunk(first_asked(runs));
                word == chunk.cursor_word() || word == chunk.counts_word()
            },
        forall|i: int|
            0 <= i < runs.two.len() ==> {
                let word = (#[trigger] runs.two[i]).word;
                let chunk = arena.spec_chunk(1 - first_asked(runs));
                word == chunk.cursor_word() || word == chunk.counts_word()
            },
        runs.current.len() > 0 && runs.current[0].op is Load ==> first_asked(runs)
            == runs.current[0].op->Load_answer % 2,
{
    assert forall|i: int| 0 <= i < runs.one.len() implies {
        let word = (#[trigger] runs.one[i]).word;
        let chunk = arena.spec_chunk(first_asked(runs));
        word == chunk.cursor_word() || word == chunk.counts_word()
    } by {
        assert(arena.spec_chunk(first_asked(runs)).owns(runs.one[i]));
    }
    assert forall|i: int| 0 <= i < runs.two.len() implies {
        let word = (#[trigger] runs.two[i]).word;
        let chunk = arena.spec_chunk(1 - first_asked(runs));
        word == chunk.cursor_word() || word == chunk.counts_word()
    } by {
        assert(arena.spec_chunk(1 - first_asked(runs)).owns(runs.two[i]));
    }
}

} // verus!
