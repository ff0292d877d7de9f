//! Reading from a source into a frame: how many bytes to ask the source for, and
//! what to make of its reply.

use crate::ephemeral::EphemeralBytesArena;
use crate::ephemeral::EphemeralBytesMut;
use vstd::prelude::*;

verus! {

/// What a source answered when it was asked for bytes; `E` is its own error.
pub enum ReadReply<'a, E> {
    /// It has put `bytes` into a buffer, which is another one than it was given
    /// if `replaced`.
    Filled { bytes: &'a [u8], replaced: bool },
    /// It failed.
    Failed(E),
    /// It has nothing yet.
    Pending,
}

/// How a read ended.
pub enum ReadOutcome<E> {
    /// So many bytes were appended to the frame.
    Read(usize),
    /// The source did not fill the buffer that it was given, or claims to have
    /// put more into it than it holds.
    Replaced,
    /// The source failed.
    Failed(E),
    /// There is nothing yet.
    Pending,
}

/// The number of bytes that a read of at most `maximum` bytes can append where
/// there is room for `room`.
pub open spec fn window(room: int, maximum: usize) -> int {
    if maximum <= room {
        maximum as int
    } else {
        room
    }
}

/// The bytes that `reply` adds to a frame, none if it is no successful read of at
/// most `limit` bytes.
pub open spec fn received<E>(limit: int, reply: ReadReply<'_, E>) -> Seq<u8> {
    match reply {
        ReadReply::Filled { bytes, replaced } => if replaced || bytes@.len() > limit {
            Seq::empty()
        } else {
            bytes@
        },
        _ => Seq::empty(),
    }
}

/// How a read of at most `limit` bytes ends on `reply`.
pub open spec fn outcome<E>(limit: int, reply: ReadReply<'_, E>) -> ReadOutcome<E> {
    match reply {
        ReadReply::Filled { bytes, replaced } => if replaced || bytes@.len() > limit {
            ReadOutcome::Replaced
        } else {
            ReadOutcome::Read(bytes@.len() as usize)
        },
        ReadReply::Failed(error) => ReadOutcome::Failed(error),
        ReadReply::Pending => ReadOutcome::Pending,
    }
}

impl EphemeralBytesMut {
    fn window(&self, maximum: usize) -> (limit: usize)
        ensures
            limit == window(self.spec_capacity() - self@.len(), maximum),
    {
        let room: usize = self.remaining();
        if maximum <= room {
            maximum
        } else {
            room
        }
    }

    /// The number of bytes to ask a source for in a read of at most `maximum`
    /// bytes. With none, there is no room left or nothing is wanted: the read is
    /// over with no bytes, and the source is not to be asked.
    pub fn start_read(&self, maximum: usize) -> (limit: Option<usize>)
        ensures
            limit == {
                let bytes = window(self.spec_capacity() - self@.len(), maximum);
                if bytes == 0 {
                    None
                } else {
                    Some(bytes as usize)
                }
            },
            limit is None <==> maximum == 0 || self@.len() == self.spec_capacity(),
            limit matches Some(count) ==> {
                &&& count <= maximum
                &&& self@.len() + count <= self.spec_capacity()
                &&& count == maximum || self@.len() + count == self.spec_capacity()
            },
    {
        let limit: usize = self.window(maximum);
        if limit == 0 {
            None
        } else {
            Some(limit)
        }
    }

    /// Ends a read of at most `maximum` bytes with the reply of the source. Only a
    /// successful read appends to the frame: a pending or failed one, or one that
    /// went to another buffer, leaves the bytes as they were.
    pub fn finish_read<E>(&mut self, maximum: usize, reply: ReadReply<'_, E>) -> (end: ReadOutcome<
        E,
    >)
        ensures
            end == outcome(
                window(old(self).spec_capacity() - old(self)@.len(), maximum),
                reply,
            ),
            final(self)@ == old(self)@ + received(
                window(old(self).spec_capacity() - old(self)@.len(), maximum),
                reply,
            ),
            reply matches ReadReply::Filled { bytes, replaced } ==> {
                if !replaced && bytes@.len() <= maximum && old(self)@.len() + bytes@.len() <= old(self).spec_capacity() {
                    &&& end matches ReadOutcome::Read(count) && count == bytes@.len()
                    &&& final(self)@ == old(self)@ + bytes@
                } else {
                    &&& end is Replaced
                    &&& final(self)@ == old(self)@
                }
            },
            reply matches ReadReply::Failed(error) ==> {
                &&& end matches ReadOutcome::Failed(reported) && reported == error
                &&& final(self)@ == old(self)@
            },
            reply is Pending ==> end is Pending && final(self)@ == old(self)@,
            final(self)@.len() == old(self)@.len() + (match end {
                ReadOutcome::Read(count) => count as nat,
                _ => 0nat,
            }),
            final(self).spec_capacity() == old(self).spec_capacity(),
            final(self).place() == old(self).place(),
            final(self).runs() == old(self).runs(),
            forall|arena: &EphemeralBytesArena| #[trigger]
                final(self).drawn_from(arena) == old(self).drawn_from(arena),
    {
        let limit: usize = self.window(maximum);
        assert(self@ =~= self@ + Seq::<u8>::empty());
        match reply {
            ReadReply::Filled { bytes, replaced } => {
                if replaced || bytes.len() > limit {
                    return ReadOutcome::Replaced;
                }
                self.extend_from_slice(bytes);
                ReadOutcome::Read(bytes.len())
            },
            ReadReply::Failed(error) => ReadOutcome::Failed(error),
            ReadReply::Pending => ReadOutcome::Pending,
        }
    }
}

/// A read of at most `limit` bytes reports just as many bytes as it appends, and
/// what it appends is all of what the source put into the buffer that it was given,
/// where that is no more than `limit`. In every other case it appends nothing, and it
/// does not report a read.
pub proof fn a_read_appends_what_it_reports<E>(limit: int, reply: ReadReply<'_, E>)
    requires
        0 <= limit <= usize::MAX,
    ensures
        outcome(limit, reply) matches ReadOutcome::Read(count) ==> {
            &&& count == received(limit, reply).len()
            &&& count <= limit
            &&& reply matches ReadReply::Filled { bytes, replaced } && !replaced && received(
                limit,
                reply,
            ) == bytes@
        },
        !(outcome(limit, reply) is Read) ==> received(limit, reply).len() == 0,
        outcome(limit, reply) is Read <==> (reply matches ReadReply::Filled { bytes, replaced }
            && !replaced && bytes@.len() <= limit),
        outcome(limit, reply) is Pending <==> reply is Pending,
        outcome(limit, reply) is Failed <==> reply is Failed,
        reply matches ReadReply::Failed(error) ==> outcome(limit, reply) == ReadOutcome::Failed(
            error,
        ),
{
}

/// A read asks for all that is wanted or all that there is room for, and never for more
/// than either.
pub proof fn a_read_asks_for_what_fits(room: int, maximum: usize)
    requires
        0 <= room,
    ensures
        0 <= window(room, maximum) <= room,
        window(room, maximum) <= maximum,
        window(room, maximum) == room || window(room, maximum) == maximum,
{
}

} // verus!
