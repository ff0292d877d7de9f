//! Shared words, and what was done to them.
//!
//! A [`Word`] is an `AtomicU64` of `std`. Other threads may change it at any time,
//! so nothing can be said of what an access finds beyond what the access itself
//! decides. What can be said is which accesses a thread made, on which words,
//! with which arguments, and what each of them found: every access enters that
//! into a [`Trace`]. A trace takes no room at run time.
//!
//! The accesses do not unwind, which the release of a frame on drop relies on.

use std::sync::atomic::AtomicU64;
use std::sync::atomic::Ordering;
use vstd::prelude::*;

verus! {

/// What a word is for.
#[derive(Clone, Copy)]
pub enum Role {
    /// The cursor of a chunk.
    Cursor,
    /// The ticket counts of a chunk.
    Counts,
    /// The index of an arena's current chunk.
    Current,
}

/// A 64-bit word that threads share.
pub struct Word {
    cell: AtomicU64,
    role: Ghost<Role>,
    first: Ghost<u64>,
}

impl Word {
    /// What the word is for.
    pub closed spec fn role(&self) -> Role {
        self.role@
    }

    /// The value that the word was created with.
    pub closed spec fn first(&self) -> u64 {
        self.first@
    }
}

/// What was done to a word, and what it found.
pub enum Op {
    /// Reads the word.
    Load { answer: u64 },
    /// Replaces the word if it is `expected`. A weak exchange may also fail where
    /// the word is `expected`.
    Swap { weak: bool, expected: u64, new: u64, reply: Result<u64, u64> },
    /// Adds to the word and answers with its value before.
    Add { amount: u64, answer: u64 },
}

/// One access to a word.
pub struct Access {
    pub word: Word,
    pub op: Op,
}

/// A record of accesses, in the order in which they were made.
pub struct Trace {
    log: Ghost<Seq<Access>>,
}

impl View for Trace {
    type V = Seq<Access>;

    /// The accesses.
    closed spec fn view(&self) -> Seq<Access> {
        self.log@
    }
}

impl Trace {
    /// A record with no access in it.
    ///
    /// The operations on words all promise to open no invariant, and this function
    /// does not. So none of them can begin a record of its own: every access that an
    /// operation makes is in the record that it was handed.
    pub fn new() -> (trace: Trace)
        ensures
            trace@ == Seq::<Access>::empty(),
        opens_invariants any
        no_unwind
    {
        Trace { log: Ghost(Seq::empty()) }
    }
}

/// `AtomicU64::new`: a word that holds `value` until it is changed.
#[verifier::external_body]
pub(crate) fn new_word(role: Role, value: u64) -> (word: Word)
    ensures
        word.role() == role,
        word.first() == value,
{
    Word { cell: AtomicU64::new(value), role: Ghost(role), first: Ghost(value) }
}

/// `AtomicU64::load`: answers with the word as it is at some moment, which may be
/// any value.
#[verifier::external_body]
#[inline]
pub(crate) fn load(word: &Word, trace: &mut Trace) -> (answer: u64)
    ensures
        final(trace)@ == old(trace)@.push(Access { word: *word, op: Op::Load { answer } }),
    opens_invariants none
    no_unwind
{
    let _ = trace;
    word.cell.load(Ordering::Acquire)
}

/// `AtomicU64::fetch_add`: adds with wrap-around and answers with the word as it
/// was before, which may be any value.
#[verifier::external_body]
#[inline]
pub(crate) fn fetch_add(word: &Word, amount: u64, trace: &mut Trace) -> (answer: u64)
    ensures
        final(trace)@ == old(trace)@.push(
            Access { word: *word, op: Op::Add { amount, answer } },
        ),
    opens_invariants none
    no_unwind
{
    let _ = trace;
    word.cell.fetch_add(amount, Ordering::AcqRel)
}

/// `AtomicU64::compare_exchange`: on success the word was `expected`, on failure
/// it was the value that comes back, which is another one.
#[verifier::external_body]
#[inline]
pub(crate) fn compare_exchange(word: &Word, expected: u64, new: u64, trace: &mut Trace) -> (reply:
    Result<u64, u64>)
    ensures
        final(trace)@ == old(trace)@.push(
            Access { word: *word, op: Op::Swap { weak: false, expected, new, reply } },
        ),
        match reply {
            Ok(before) => before == expected,
            Err(actual) => actual != expected,
        },
    opens_invariants none
    no_unwind
{
    let _ = trace;
    word.cell.compare_exchange(expected, new, Ordering::AcqRel, Ordering::Acquire)
}

/// `AtomicU64::compare_exchange_weak`: on success the word was `expected`; it may
/// fail on any value.
#[verifier::external_body]
#[inline]
pub(crate) fn compare_exchange_weak(
    word: &Word,
    expected: u64,
    new: u64,
    trace: &mut Trace,
) -> (reply: Result<u64, u64>)
    ensures
        final(trace)@ == old(trace)@.push(
            Access { word: *word, op: Op::Swap { weak: true, expected, new, reply } },
        ),
        reply matches Ok(before) ==> before == expected,
    opens_invariants none
    no_unwind
{
    let _ = trace;
    word.cell.compare_exchange_weak(expected, new, Ordering::AcqRel, Ordering::Acquire)
}

} // verus!
