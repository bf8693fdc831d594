use core::task::{Context, Poll};
use core::ops::ControlFlow;
use embedded_io::asynch::{
    read_exact_step, rewind_outcome, take_portion, write_all_step, BufRead, ChunkSource, DirectRead,
    DirectReadHandle, Portion, Read, UnbufferedRead, UnbufferedReadError, Write,
};
use embedded_io::blocking::ReadExactError;
use embedded_io::{Error, ErrorKind};

fn cx() -> Context<'static> {
    Context::from_waker(futures::task::noop_waker_ref())
}

#[test]
fn async_slice_read_in_two_calls_matches_one_call() {
    let mut c = cx();
    let data: [u8; 5] = [10, 20, 30, 40, 50];
    for k in 0..=data.len() {
        let mut whole: &[u8] = &data;
        let mut one = [0u8; 5];
        assert!(matches!(Read::read(&mut whole, &mut c, &mut one), Poll::Ready(Ok(5))));
        let mut split: &[u8] = &data;
        let mut first = vec![0u8; k];
        let mut second = vec![0u8; 5 - k];
        assert!(matches!(Read::read(&mut split, &mut c, &mut first), Poll::Ready(Ok(n)) if n == k));
        assert!(matches!(Read::read(&mut split, &mut c, &mut second), Poll::Ready(Ok(n)) if n == 5 - k));
        let mut joined = first.clone();
        joined.extend_from_slice(&second);
        assert_eq!(joined, one.to_vec());
    }
}

#[test]
fn async_read_exact_with_progress_slot() {
    let mut c = cx();
    let mut src: &[u8] = b"0123456";
    let mut buf = [0u8; 4];
    let mut filled: usize = 0;
    assert!(matches!(
        Read::read_exact(&mut src, &mut c, &mut buf, &mut filled),
        Poll::Ready(Ok(()))
    ));
    assert_eq!(filled, 4);
    assert_eq!(&buf, b"0123");
    let mut more = [0u8; 5];
    let mut got: usize = 0;
    assert!(matches!(
        Read::read_exact(&mut src, &mut c, &mut more, &mut got),
        Poll::Ready(Err(ReadExactError::UnexpectedEof))
    ));
    assert_eq!(got, 3);
    assert_eq!(&more[..3], b"456");
}

#[test]
fn async_fill_buf_twice_is_identical() {
    let mut c = cx();
    let mut src: &[u8] = b"same";
    let first = match BufRead::fill_buf(&mut src, &mut c) {
        Poll::Ready(Ok(s)) => s.to_vec(),
        _ => panic!("slice fill_buf never waits"),
    };
    let second = match BufRead::fill_buf(&mut src, &mut c) {
        Poll::Ready(Ok(s)) => s.to_vec(),
        _ => panic!("slice fill_buf never waits"),
    };
    assert_eq!(first, second);
    BufRead::consume(&mut src, 2);
    assert_eq!(src, b"me");
}

#[test]
fn async_fixed_destination_write_all_and_vec_write() {
    let mut c = cx();
    let mut storage = [0u8; 5];
    {
        let mut dest: &mut [u8] = &mut storage;
        let mut written: usize = 0;
        assert!(matches!(
            Write::write_all(&mut dest, &mut c, b"hello", &mut written),
            Poll::Ready(Ok(()))
        ));
        assert_eq!(written, 5);
        assert!(matches!(Write::write(&mut dest, &mut c, b"!"), Poll::Ready(Ok(0))));
        assert!(matches!(Write::flush(&mut dest, &mut c), Poll::Ready(Ok(()))));
    }
    assert_eq!(&storage, b"hello");

    let mut v: Vec<u8> = Vec::new();
    assert!(matches!(Write::write(&mut v, &mut c, b"abc"), Poll::Ready(Ok(3))));
    let mut boxed = Box::new(v);
    let mut written: usize = 1;
    assert!(matches!(
        Write::write_all(&mut boxed, &mut c, b"xyz", &mut written),
        Poll::Ready(Ok(()))
    ));
    assert_eq!(*boxed, b"abcyz".to_vec());
}

fn script(chunks: &[(&[u8], bool)]) -> ChunkSource {
    ChunkSource::new(chunks.iter().map(|(d, c)| (d.to_vec(), *c)).collect())
}

/// Polls a read until it is ready.
fn read_ready<R: Read>(r: &mut R, buf: &mut [u8]) -> Result<usize, R::Error> {
    let mut c = cx();
    loop {
        if let Poll::Ready(res) = r.read(&mut c, buf) {
            return res;
        }
    }
}

#[test]
fn unbuffered_read_skips_empty_portions_until_completion() {
    let mut u = UnbufferedRead::new(script(&[(b"ab", false), (b"", false), (b"c", false), (b"", true)]));
    let mut buf = [0u8; 8];
    let n = read_ready(&mut u, &mut buf).unwrap();
    assert_eq!(n, 2);
    assert_eq!(&buf[..2], b"ab");
    let n = read_ready(&mut u, &mut buf).unwrap();
    assert_eq!(n, 1);
    assert_eq!(buf[0], b'c');
    let n = read_ready(&mut u, &mut buf).unwrap();
    assert_eq!(n, 0);
    // Completed: the source is not asked again.
    let n = read_ready(&mut u, &mut buf).unwrap();
    assert_eq!(n, 0);
}

#[test]
fn unbuffered_read_empty_portion_is_pending_not_zero() {
    let mut c = cx();
    let mut u = UnbufferedRead::new(script(&[(b"", false), (b"z", false)]));
    let mut buf = [0u8; 4];
    assert!(matches!(u.read(&mut c, &mut buf), Poll::Pending));
    assert!(matches!(u.read(&mut c, &mut buf), Poll::Ready(Ok(1))));
    assert_eq!(buf[0], b'z');
}

#[test]
fn unbuffered_read_small_buffer_is_buffer_too_small() {
    let mut u = UnbufferedRead::new(script(&[(b"abc", true), (b"d", false), (b"", true)]));
    let mut small = [0u8; 2];
    assert!(matches!(read_ready(&mut u, &mut small), Err(UnbufferedReadError::BufferTooSmall)));
    // The completion flag did not advance: the source is asked again.
    let mut buf = [0u8; 4];
    assert_eq!(read_ready(&mut u, &mut buf).unwrap(), 1);
    assert_eq!(buf[0], b'd');
    assert_eq!(read_ready(&mut u, &mut buf).unwrap(), 0);
}

#[test]
fn unbuffered_read_error_kinds() {
    let mut u = UnbufferedRead::new(script(&[(b"toolong", false)]));
    let mut buf = [0u8; 1];
    let e = read_ready(&mut u, &mut buf).unwrap_err();
    assert_eq!(e.kind(), ErrorKind::Other);
    let io: UnbufferedReadError<ErrorKind> = UnbufferedReadError::Io(ErrorKind::Other);
    assert_eq!(io.kind(), ErrorKind::Other);
    let from: UnbufferedReadError<ErrorKind> = UnbufferedReadError::from(ErrorKind::Other);
    assert!(matches!(from, UnbufferedReadError::Io(ErrorKind::Other)));
}

#[test]
fn chunk_source_hands_out_chunks_then_completion() {
    let mut c = cx();
    let mut src = script(&[(b"ab", false)]);
    match DirectRead::read(&mut src, &mut c) {
        Poll::Ready(Ok(h)) => {
            assert_eq!(h.as_slice(), b"ab");
            assert!(!h.is_completed());
        }
        _ => panic!("a chunk source never waits"),
    }
    match DirectRead::read(&mut src, &mut c) {
        Poll::Ready(Ok(h)) => {
            assert_eq!(h.as_slice(), b"");
            assert!(h.is_completed());
        }
        _ => panic!("a chunk source never waits"),
    }
}

#[test]
fn async_read_exact_over_unbuffered_chunks() {
    let mut c = cx();
    let mut u = UnbufferedRead::new(script(&[(b"ab", false), (b"", false), (b"cd", false), (b"", true)]));
    let mut buf = [0u8; 4];
    let mut filled: usize = 0;
    let mut polls = 0;
    loop {
        polls += 1;
        match Read::read_exact(&mut u, &mut c, &mut buf, &mut filled) {
            Poll::Pending => continue,
            Poll::Ready(r) => {
                assert!(r.is_ok());
                break;
            }
        }
    }
    assert_eq!(polls, 2);
    assert_eq!(filled, 4);
    assert_eq!(&buf, b"abcd");
    let mut more = [0u8; 1];
    let mut got: usize = 0;
    assert!(matches!(
        Read::read_exact(&mut u, &mut c, &mut more, &mut got),
        Poll::Ready(Err(ReadExactError::UnexpectedEof))
    ));
}

#[test]
fn async_read_exact_passes_on_inner_error() {
    let mut c = cx();
    let mut u = UnbufferedRead::new(script(&[(b"abc", false)]));
    let mut buf = [0u8; 2];
    let mut filled: usize = 0;
    assert!(matches!(
        Read::read_exact(&mut u, &mut c, &mut buf, &mut filled),
        Poll::Ready(Err(ReadExactError::Other(UnbufferedReadError::BufferTooSmall)))
    ));
}

#[test]
fn slice_handle_is_completed_when_empty() {
    let h: &[u8] = b"";
    assert!(h.is_completed());
    let h2: &[u8] = b"q";
    assert!(!h2.is_completed());
    assert_eq!(h2.as_slice(), b"q");
}


#[test]
fn take_portion_cases() {
    let mut buf = [9u8; 4];
    assert!(matches!(take_portion(&mut buf, b"", false), Portion::Spurious));
    assert_eq!(buf, [9, 9, 9, 9]);
    assert!(matches!(take_portion(&mut buf, b"ab", false), Portion::Copied(2)));
    assert_eq!(buf, [b'a', b'b', 9, 9]);
    assert!(matches!(take_portion(&mut buf, b"", true), Portion::Copied(0)));
    assert!(matches!(take_portion(&mut buf, b"vwxyz", true), Portion::TooLong));
    assert_eq!(buf, [b'a', b'b', 9, 9]);
}

#[test]
fn read_exact_step_cases() {
    let p: Poll<Result<usize, ErrorKind>> = Poll::Pending;
    assert!(matches!(read_exact_step(1, 4, p), ControlFlow::Break(Poll::Pending)));
    assert!(matches!(
        read_exact_step::<ErrorKind>(1, 4, Poll::Ready(Ok(0))),
        ControlFlow::Break(Poll::Ready(Err(ReadExactError::UnexpectedEof)))
    ));
    assert!(matches!(read_exact_step::<ErrorKind>(1, 4, Poll::Ready(Ok(2))), ControlFlow::Continue(3)));
    assert!(matches!(
        read_exact_step(1, 4, Poll::Ready(Err(ErrorKind::Other))),
        ControlFlow::Break(Poll::Ready(Err(ReadExactError::Other(ErrorKind::Other))))
    ));
}

#[test]
fn write_all_step_cases() {
    let p: Poll<Result<usize, ErrorKind>> = Poll::Pending;
    assert!(matches!(write_all_step(0, 3, p), ControlFlow::Break(Poll::Pending)));
    assert!(matches!(write_all_step::<ErrorKind>(0, 3, Poll::Ready(Ok(3))), ControlFlow::Continue(3)));
    assert!(matches!(
        write_all_step(2, 3, Poll::Ready(Err(ErrorKind::Other))),
        ControlFlow::Break(Poll::Ready(Err(ErrorKind::Other)))
    ));
}

#[test]
fn async_read_exact_and_write_all_with_nothing_left() {
    let mut c = cx();
    let mut src: &[u8] = b"z";
    let mut buf = [0u8; 2];
    let mut filled: usize = 2;
    assert!(matches!(Read::read_exact(&mut src, &mut c, &mut buf, &mut filled), Poll::Ready(Ok(()))));
    assert_eq!(src, b"z");
    let mut v: Vec<u8> = Vec::new();
    let mut written: usize = 3;
    assert!(matches!(Write::write_all(&mut v, &mut c, b"abc", &mut written), Poll::Ready(Ok(()))));
    assert!(v.is_empty());
}

#[test]
fn unbuffered_read_leaves_buffer_on_too_small_and_after_completion() {
    let mut u = UnbufferedRead::new(script(&[(b"abc", false), (b"", true)]));
    let mut small = [5u8; 2];
    assert!(matches!(read_ready(&mut u, &mut small), Err(UnbufferedReadError::BufferTooSmall)));
    assert_eq!(small, [5, 5]);
    let mut buf = [6u8; 3];
    assert_eq!(read_ready(&mut u, &mut buf).unwrap(), 0);
    assert_eq!(read_ready(&mut u, &mut buf).unwrap(), 0);
    assert_eq!(buf, [6, 6, 6]);
}

#[test]
fn rewind_outcome_passes_on_the_seek() {
    let p: Poll<Result<u64, ErrorKind>> = Poll::Pending;
    assert!(matches!(rewind_outcome(p), Poll::Pending));
    assert!(matches!(rewind_outcome::<ErrorKind>(Poll::Ready(Ok(12))), Poll::Ready(Ok(()))));
    assert!(matches!(rewind_outcome(Poll::Ready(Err(ErrorKind::Other))), Poll::Ready(Err(ErrorKind::Other))));
}
