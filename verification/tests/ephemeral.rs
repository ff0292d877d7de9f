use brz_ds::atomic::Trace;
use brz_ds::ephemeral::Storage;
use brz_ds::{
    EphemeralBytes, EphemeralBytesArena, EphemeralBytesMut, EPHEMERAL_BYTES_INLINE_CAPACITY,
};
use std::io::Write;

fn chunk_index(bytes: &EphemeralBytesMut) -> Option<usize> {
    bytes.chunk_index()
}

fn snapshot(arena: &EphemeralBytesArena, index: usize) -> (bool, usize, u32, u32) {
    arena.chunk_snapshot(index, &mut Trace::new())
}

#[test]
fn small_frames_use_all_48_inline_bytes_without_touching_the_arena() {
    let arena = EphemeralBytesArena::new(64);
    let before = snapshot(&arena, 0);
    let mut bytes = arena.allocate(EPHEMERAL_BYTES_INLINE_CAPACITY);

    assert!(bytes.is_inline());
    assert_eq!(bytes.capacity(), EPHEMERAL_BYTES_INLINE_CAPACITY);
    bytes.extend_from_slice(&[0x5a; EPHEMERAL_BYTES_INLINE_CAPACITY]);
    let bytes = bytes.freeze();

    assert!(bytes.is_inline());
    assert_eq!(bytes.len(), EPHEMERAL_BYTES_INLINE_CAPACITY);
    assert!(bytes.iter().all(|byte| *byte == 0x5a));
    assert_eq!(snapshot(&arena, 0), before);
}

#[test]
fn inline_storage_has_the_expected_64_bit_layout() {
    assert_eq!(std::mem::size_of::<Storage>(), 56);
    assert_eq!(std::mem::size_of::<EphemeralBytesMut>(), 64);
    assert_eq!(std::mem::size_of::<EphemeralBytes>(), 64);
}

#[test]
fn writes_and_freezes_without_copying_storage() {
    let arena = EphemeralBytesArena::new(64);
    let mut bytes = arena.allocate(64);
    assert_eq!(chunk_index(&bytes), Some(0));

    bytes.extend_from_slice(b"GET ");
    bytes.write_all(b"key\r\n").unwrap();
    let ptr = bytes.as_slice().as_ptr();
    let bytes = bytes.freeze();

    assert_eq!(&*bytes, b"GET key\r\n");
    assert_eq!(bytes.as_ptr(), ptr);
    assert!(!bytes.is_heap_allocated());
}

#[test]
fn switches_chunks_and_falls_back_without_waiting() {
    let arena = EphemeralBytesArena::new(64);
    let first = arena.allocate(60);
    assert_eq!(chunk_index(&first), Some(0));

    let second = arena.allocate(50);
    assert_eq!(chunk_index(&second), Some(1));

    let fallback = arena.allocate(50);
    assert!(fallback.is_heap_allocated());
}

#[test]
fn frozen_chunk_resets_after_out_of_order_release() {
    let arena = EphemeralBytesArena::new(128);
    let first = arena.allocate(60);
    let second = arena.allocate(60);
    let other_chunk = arena.allocate(60);

    assert_eq!(chunk_index(&first), Some(0));
    assert_eq!(chunk_index(&second), Some(0));
    assert_eq!(chunk_index(&other_chunk), Some(1));
    assert_eq!(snapshot(&arena, 0), (true, 120, 3, 1));

    drop(second);
    assert_eq!(snapshot(&arena, 0), (true, 120, 3, 2));
    drop(first);
    assert_eq!(snapshot(&arena, 0), (false, 0, 0, 0));
}

#[test]
fn oversized_frames_use_heap_and_empty_frames_stay_inline() {
    let arena = EphemeralBytesArena::new(64);
    assert!(arena.allocate(65).is_heap_allocated());
    assert!(arena.allocate(0).is_inline());
}

#[test]
fn frame_types_are_send_and_sync() {
    fn assert_send_sync<T: Send + Sync>() {}
    assert_send_sync::<EphemeralBytesArena>();
    assert_send_sync::<EphemeralBytesMut>();
    assert_send_sync::<EphemeralBytes>();
}

#[test]
fn a_frame_can_be_encoded_and_read_back() {
    let arena = EphemeralBytesArena::new(4 * 1024 * 1024);
    let mut frame = arena.allocate(9);
    frame.extend_from_slice(b"GET key\r\n");
    let frame = frame.freeze();
    assert_eq!(frame.as_ref(), b"GET key\r\n");
}

#[test]
fn frames_reserve_just_what_they_ask_for() {
    let arena = EphemeralBytesArena::new(100);
    assert_eq!(arena.chunk_capacity(), 100);
    for (asked, capacity) in [(0, 48), (48, 48), (49, 49), (100, 100), (101, 101)] {
        let frame = arena.allocate(asked);
        assert_eq!(frame.capacity(), capacity);
        assert_eq!(frame.remaining(), capacity);
        assert_eq!(frame.len(), 0);
        assert!(frame.is_empty());
    }
}

#[test]
fn copies_come_back_from_every_place() {
    let arena = EphemeralBytesArena::new(64);
    for len in [0, 1, 48, 49, 64, 65, 200] {
        let bytes: Vec<u8> = (0..len).map(|at| (at * 7 + 3) as u8).collect();
        let frame = arena.copy_from_slice(&bytes);
        assert_eq!(frame.as_slice(), bytes.as_slice());
        assert_eq!(frame.len(), len);
        assert_eq!(frame.is_empty(), len == 0);
        assert_eq!(frame.is_inline(), len <= 48);
        assert_eq!(frame.is_heap_allocated(), len > 64);
    }
}

#[test]
fn a_write_takes_what_there_is_room_for() {
    let arena = EphemeralBytesArena::new(64);
    let mut frame = arena.allocate(50);
    assert_eq!(frame.write(&[1; 45]).unwrap(), 45);
    assert_eq!(frame.write(&[2; 45]).unwrap(), 5);
    assert_eq!(frame.write(&[3; 45]).unwrap(), 0);
    frame.flush().unwrap();
    assert_eq!(frame.remaining(), 0);
    assert_eq!(frame.as_ref()[44..], [1, 2, 2, 2, 2, 2]);
    assert!(frame.write_all(&[4]).is_err());
}

#[test]
fn live_frames_of_one_chunk_keep_their_bytes() {
    let arena = EphemeralBytesArena::new(4096);
    let mut live = Vec::new();
    for round in 0..200usize {
        let len = 49 + (round * 17) % 48;
        live.push((round as u8, arena.copy_from_slice(&vec![round as u8; len])));
        if round % 3 == 0 {
            let (marker, frame) = live.swap_remove(round % live.len());
            assert!(frame.iter().all(|byte| *byte == marker));
        }
    }
    for (marker, frame) in live {
        assert!(frame.iter().all(|byte| *byte == marker));
    }
    for index in 0..2 {
        let (_, _, out, back) = snapshot(&arena, index);
        assert_eq!(out, back);
    }
}

#[test]
fn a_full_chunk_without_frames_starts_over() {
    let arena = EphemeralBytesArena::new(64);
    drop(arena.allocate(60));
    assert_eq!(snapshot(&arena, 0), (false, 60, 1, 1));
    // The request finds no room, freezes the chunk, and is the last to leave it.
    let frame = arena.allocate(60);
    assert_eq!(frame.chunk_index(), Some(1));
    assert_eq!(snapshot(&arena, 0), (false, 0, 0, 0));
    assert_eq!(snapshot(&arena, 1), (false, 60, 1, 0));
}

#[test]
fn a_chunk_that_started_over_is_used_again() {
    let arena = EphemeralBytesArena::new(64);
    let first = arena.allocate(60);
    let second = arena.allocate(60);
    assert!(arena.allocate(60).is_heap_allocated());
    drop(first);
    let again = arena.allocate(60);
    assert_eq!(again.chunk_index(), Some(0));
    drop(second);
    assert_eq!(arena.allocate(60).chunk_index(), Some(1));
}

#[test]
fn clones_share_the_chunks() {
    let arena = EphemeralBytesArena::new(64);
    let clone = arena.clone();
    let frame = clone.allocate(50);
    assert_eq!(snapshot(&arena, 0), (false, 50, 1, 0));
    drop(arena);
    drop(clone);
    assert_eq!(frame.chunk_index(), Some(0));
}

#[test]
fn debug_shows_the_size_and_not_the_bytes() {
    let arena = EphemeralBytesArena::new(64);
    let mut frame = arena.allocate(50);
    frame.extend_from_slice(b"abc");
    assert_eq!(
        format!("{arena:?}"),
        "EphemeralBytesArena { chunk_capacity: 64, .. }"
    );
    assert_eq!(
        format!("{frame:?}"),
        "EphemeralBytesMut { len: 3, capacity: 50, heap_allocated: false }"
    );
    assert_eq!(
        format!("{:?}", frame.freeze()),
        "EphemeralBytes { len: 3, heap_allocated: false }"
    );
}

#[test]
fn a_fresh_arena_serves_two_full_frames_from_its_chunks() {
    for capacity in [49, 64, 1000] {
        let arena = EphemeralBytesArena::new(capacity);
        let first = arena.allocate(capacity);
        let second = arena.allocate(capacity);
        let third = arena.allocate(capacity);
        assert_eq!(first.chunk_index(), Some(0));
        assert_eq!(second.chunk_index(), Some(1));
        assert!(third.is_heap_allocated());
        assert_eq!(snapshot(&arena, 0), (true, capacity, 2, 1));
        assert_eq!(snapshot(&arena, 1), (true, capacity, 2, 1));
    }
}
