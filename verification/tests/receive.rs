use brz_ds::receive::{ReadOutcome, ReadReply};
use brz_ds::{EphemeralBytesArena, EphemeralBytesMut};
use std::io;
use std::pin::Pin;
use std::task::{Context, Poll};
use tokio::io::{AsyncRead, ReadBuf};

fn poll_read_from<R: AsyncRead + ?Sized>(
    frame: &mut EphemeralBytesMut,
    cx: &mut Context<'_>,
    source: Pin<&mut R>,
    maximum: usize,
) -> Poll<io::Result<usize>> {
    let Some(limit) = frame.start_read(maximum) else {
        return Poll::Ready(Ok(0));
    };
    let mut scratch = vec![0; limit];
    let mut output = ReadBuf::new(&mut scratch);
    let pointer = output.filled().as_ptr();
    let reply = match source.poll_read(cx, &mut output) {
        Poll::Ready(Ok(())) => ReadReply::Filled {
            bytes: output.filled(),
            replaced: output.filled().as_ptr() != pointer,
        },
        Poll::Ready(Err(error)) => ReadReply::Failed(error),
        Poll::Pending => ReadReply::Pending,
    };
    match frame.finish_read(maximum, reply) {
        ReadOutcome::Read(count) => Poll::Ready(Ok(count)),
        ReadOutcome::Replaced => Poll::Ready(Err(io::ErrorKind::InvalidData.into())),
        ReadOutcome::Failed(error) => Poll::Ready(Err(error)),
        ReadOutcome::Pending => Poll::Pending,
    }
}

struct Input {
    data: &'static [u8],
    pending: bool,
    fail: bool,
}

impl AsyncRead for Input {
    fn poll_read(
        mut self: Pin<&mut Self>,
        cx: &mut Context<'_>,
        out: &mut ReadBuf<'_>,
    ) -> Poll<io::Result<()>> {
        if self.pending {
            self.pending = false;
            cx.waker().wake_by_ref();
            return Poll::Pending;
        }
        if self.fail {
            return Poll::Ready(Err(io::ErrorKind::ConnectionReset.into()));
        }
        let n = self.data.len().min(out.remaining());
        out.put_slice(&self.data[..n]);
        self.data = &self.data[n..];
        Poll::Ready(Ok(()))
    }
}

#[test]
fn direct_read_checks_bounds_pending_eof_and_heap_fallback() {
    let arena = EphemeralBytesArena::new(16);
    for capacity in [8, 32] {
        let mut frame = arena.allocate(capacity);
        frame.extend_from_slice(b"xy");
        let pointer = frame.as_slice().as_ptr();
        let mut input = Input {
            data: b"abc",
            pending: true,
            fail: false,
        };
        let mut cx = Context::from_waker(std::task::Waker::noop());
        assert!(poll_read_from(&mut frame, &mut cx, Pin::new(&mut input), 2).is_pending());
        assert_eq!(frame.as_slice(), b"xy");
        assert!(matches!(
            poll_read_from(&mut frame, &mut cx, Pin::new(&mut input), 2),
            Poll::Ready(Ok(2))
        ));
        assert_eq!(frame.as_slice(), b"xyab");
        assert_eq!(frame.as_slice().as_ptr(), pointer);
        assert!(matches!(
            poll_read_from(&mut frame, &mut cx, Pin::new(&mut input), 9),
            Poll::Ready(Ok(1))
        ));
        assert!(matches!(
            poll_read_from(&mut frame, &mut cx, Pin::new(&mut input), 9),
            Poll::Ready(Ok(0))
        ));
        input.fail = true;
        assert!(matches!(
            poll_read_from(&mut frame, &mut cx, Pin::new(&mut input), 9),
            Poll::Ready(Err(_))
        ));
        assert_eq!(frame.freeze().as_slice(), b"xyabc");
    }
}

struct ReplacesBuffer(Option<&'static mut [u8]>);

impl AsyncRead for ReplacesBuffer {
    fn poll_read(
        mut self: Pin<&mut Self>,
        _: &mut Context<'_>,
        out: &mut ReadBuf<'_>,
    ) -> Poll<io::Result<()>> {
        let replacement = self.0.take().expect("only one poll");
        *out = ReadBuf::new(replacement);
        out.advance(1);
        Poll::Ready(Ok(()))
    }
}

#[test]
fn a_safe_but_broken_reader_cannot_publish_uninitialized_arena_bytes() {
    let arena = EphemeralBytesArena::new(16);
    let mut frame = arena.allocate(8);
    frame.extend_from_slice(b"xy");
    let replacement: &'static mut [u8] = Box::leak(Box::new([b'z'; 1]));
    let mut source = ReplacesBuffer(Some(replacement));
    let mut cx = Context::from_waker(std::task::Waker::noop());
    let result = poll_read_from(&mut frame, &mut cx, Pin::new(&mut source), 4);
    assert!(matches!(result, Poll::Ready(Err(_))));
    assert_eq!(frame.as_slice(), b"xy");
}

struct WritesThenFails(u8);

impl AsyncRead for WritesThenFails {
    fn poll_read(
        self: Pin<&mut Self>,
        _: &mut Context<'_>,
        out: &mut ReadBuf<'_>,
    ) -> Poll<io::Result<()>> {
        out.put_slice(b"z");
        match self.0 {
            0 => Poll::Pending,
            _ => Poll::Ready(Err(io::ErrorKind::Interrupted.into())),
        }
    }
}

#[test]
fn failed_and_pending_reads_leave_the_bytes_as_they_were() {
    for capacity in [8, 60, 200] {
        let arena = EphemeralBytesArena::new(64);
        let mut frame = arena.allocate(capacity);
        frame.extend_from_slice(b"xy");
        let mut cx = Context::from_waker(std::task::Waker::noop());
        for mode in 0..2 {
            let mut source = WritesThenFails(mode);
            assert!(matches!(
                poll_read_from(&mut frame, &mut cx, Pin::new(&mut source), 0),
                Poll::Ready(Ok(0))
            ));
            let result = poll_read_from(&mut frame, &mut cx, Pin::new(&mut source), 1);
            assert_eq!(result.is_pending(), mode == 0);
            assert_eq!(frame.as_slice(), b"xy");
        }
        let mut valid = &b"abc"[..];
        assert!(matches!(
            poll_read_from(&mut frame, &mut cx, Pin::new(&mut valid), 3),
            Poll::Ready(Ok(3))
        ));
        assert_eq!(frame.as_slice(), b"xyabc");
    }
}

#[test]
fn a_read_is_bounded_by_the_room_and_by_the_maximum() {
    let arena = EphemeralBytesArena::new(64);
    let mut frame = arena.allocate(50);
    assert_eq!(frame.start_read(0), None);
    assert_eq!(frame.start_read(7), Some(7));
    assert_eq!(frame.start_read(usize::MAX), Some(50));
    frame.extend_from_slice(&[1; 48]);
    assert_eq!(frame.start_read(7), Some(2));
    frame.extend_from_slice(&[1; 2]);
    assert_eq!(frame.start_read(7), None);
}

#[test]
fn replies_end_a_read_as_they_should() {
    let arena = EphemeralBytesArena::new(64);
    let mut frame = arena.allocate(50);
    frame.extend_from_slice(&[1; 48]);
    let long: ReadReply<'_, u8> = ReadReply::Filled {
        bytes: &[2; 3],
        replaced: false,
    };
    assert!(matches!(frame.finish_read(9, long), ReadOutcome::Replaced));
    let elsewhere: ReadReply<'_, u8> = ReadReply::Filled {
        bytes: &[2],
        replaced: true,
    };
    assert!(matches!(frame.finish_read(9, elsewhere), ReadOutcome::Replaced));
    assert!(matches!(
        frame.finish_read(9, ReadReply::Failed(5u8)),
        ReadOutcome::Failed(5)
    ));
    let nothing: ReadReply<'_, u8> = ReadReply::Pending;
    assert!(matches!(frame.finish_read(9, nothing), ReadOutcome::Pending));
    assert_eq!(frame.as_slice(), [1; 48]);
    let some: ReadReply<'_, u8> = ReadReply::Filled {
        bytes: &[2],
        replaced: false,
    };
    assert!(matches!(frame.finish_read(1, some), ReadOutcome::Read(1)));
    assert_eq!(frame.as_slice()[47..], [1, 2]);
}
