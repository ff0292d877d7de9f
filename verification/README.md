# brz-ds

Low-level data structures for request handling, verified with Verus.

- `EphemeralBytesArena` hands out short-lived byte frames. Frames of up to 48
  bytes are stored in the frame value. Larger ones are drawn from one of two
  bump chunks of a fixed size. A request that no longer fits freezes the chunk
  and goes to the other one; a frozen chunk starts over as a whole once every
  frame drawn from it has been dropped, in whatever order. If neither chunk can
  serve a request, the frame gets a heap buffer. Nothing ever waits.
- `SmolStr` is a string that stays inline up to 62 bytes and spills to the heap
  beyond that, 64 bytes wide in both cases.

```rust
use brz_ds::EphemeralBytesArena;

let arena = EphemeralBytesArena::new(4 * 1024 * 1024);
let mut frame = arena.allocate(9);
frame.extend_from_slice(b"GET key\r\n");
let frame = frame.freeze();

assert_eq!(frame.as_ref(), b"GET key\r\n");
```

## What is proved

A chunk is two atomic words. `words` says what they mean, and `protocol` says
which access follows which answer. Every access enters itself into a trace, which
exists for the proofs alone: on which word it was, with which arguments, and what
it found. The contracts of `chunk` and `ephemeral` say of these traces that they
follow the protocol, and of each result that it is what the protocol makes of the
answers. On top of that,

- `alone` says what a reservation, a release, a snapshot and a request to the arena
  return and leave behind where no other thread is at work,
- `interleaving` says what holds of any number of reservations whose accesses
  interleave: tickets are counted, live frames do not overlap, a reset waits for
  every frame, a frozen chunk starts over however the last releases race, and a
  chunk that has gone quiet can be used again.

The cursor of a chunk carries a generation that each reset raises, so that a thread
that stalled in the middle of a reset cannot reset the chunk again later. The
statements on interleavings hold as long as the bits suffice: fewer than 2^32
tickets between two resets, and fewer than 2^31 resets while one thread stalls.
A trace holds what was entered into it: that no access is made besides, with a
trace that is thrown away, is for the reader of the code to see. The accesses are
taken to happen in one order for all threads; what weaker memory
orders add is not modelled.

Every frame keeps its bytes in a buffer of its own; the chunks account for which
ranges are taken.

`app` reads from a tokio source into a frame.
