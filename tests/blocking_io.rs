use core::ops::ControlFlow;
use embedded_io::blocking::{read_exact_step, write_all_step, writer_outcome};
use embedded_io::blocking::{BufRead, Read, ReadExactError, Write, WriteFmtError};
use embedded_io::{Error, ErrorKind};

#[test]
fn slice_read_in_two_calls_matches_one_call() {
    let data: [u8; 7] = [1, 2, 3, 4, 5, 6, 7];
    for k in 0..=data.len() {
        let mut whole: &[u8] = &data;
        let mut one = [0u8; 7];
        assert_eq!(Read::read(&mut whole, &mut one).unwrap(), 7);

        let mut split: &[u8] = &data;
        let mut first = vec![0u8; k];
        let mut second = vec![0u8; 7 - k];
        assert_eq!(Read::read(&mut split, &mut first).unwrap(), k);
        assert_eq!(Read::read(&mut split, &mut second).unwrap(), 7 - k);
        let mut joined = first.clone();
        joined.extend_from_slice(&second);
        assert_eq!(joined, one.to_vec());
        assert!(split.is_empty());
        assert!(whole.is_empty());
    }
}

#[test]
fn slice_read_copies_min_and_advances() {
    let mut src: &[u8] = b"hello";
    let mut buf = [0u8; 3];
    assert_eq!(Read::read(&mut src, &mut buf).unwrap(), 3);
    assert_eq!(&buf, b"hel");
    assert_eq!(src, b"lo");
    let mut one = [0u8; 1];
    assert_eq!(Read::read(&mut src, &mut one).unwrap(), 1);
    assert_eq!(one[0], b'l');
    let mut big = [9u8; 4];
    assert_eq!(Read::read(&mut src, &mut big).unwrap(), 1);
    assert_eq!(big, [b'o', 9, 9, 9]);
    assert_eq!(Read::read(&mut src, &mut big).unwrap(), 0);
}

#[test]
fn read_exact_fills_when_enough() {
    let mut src: &[u8] = b"abcdef";
    let mut buf = [0u8; 4];
    assert_eq!(Read::read_exact(&mut src, &mut buf), Ok(()));
    assert_eq!(&buf, b"abcd");
    assert_eq!(src, b"ef");
}

#[test]
fn read_exact_exact_length_succeeds() {
    let mut src: &[u8] = b"abc";
    let mut buf = [0u8; 3];
    assert_eq!(Read::read_exact(&mut src, &mut buf), Ok(()));
    assert_eq!(&buf, b"abc");
    assert!(src.is_empty());
}

#[test]
fn read_exact_short_source_is_unexpected_eof_with_prefix_copied() {
    let mut src: &[u8] = b"xy";
    let mut buf = [0u8; 5];
    assert_eq!(Read::read_exact(&mut src, &mut buf), Err(ReadExactError::UnexpectedEof));
    assert_eq!(&buf[..2], b"xy");
    assert!(src.is_empty());
}

#[test]
fn read_exact_empty_buffer_succeeds() {
    let mut src: &[u8] = b"";
    let mut buf = [0u8; 0];
    assert_eq!(Read::read_exact(&mut src, &mut buf), Ok(()));
}

#[test]
fn slice_fill_buf_twice_is_identical_and_consume_drops_prefix() {
    let mut src: &[u8] = b"buffered";
    let first = BufRead::fill_buf(&mut src).unwrap().to_vec();
    let second = BufRead::fill_buf(&mut src).unwrap().to_vec();
    assert_eq!(first, second);
    assert_eq!(first, b"buffered".to_vec());
    BufRead::consume(&mut src, 3);
    assert_eq!(BufRead::fill_buf(&mut src).unwrap(), b"fered");
    BufRead::consume(&mut src, 5);
    assert_eq!(BufRead::fill_buf(&mut src).unwrap(), b"");
}

#[test]
fn fixed_destination_write_takes_min_then_zero() {
    let mut storage = [0u8; 4];
    {
        let mut dest: &mut [u8] = &mut storage;
        assert_eq!(Write::write(&mut dest, b"abcdef").unwrap(), 4);
        assert_eq!(dest.len(), 0);
        assert_eq!(Write::write(&mut dest, b"ef").unwrap(), 0);
    }
    assert_eq!(&storage, b"abcd");
}

#[test]
fn fixed_destination_write_all_fits() {
    let mut storage = [0u8; 6];
    {
        let mut dest: &mut [u8] = &mut storage;
        assert_eq!(Write::write_all(&mut dest, b"abcd"), Ok(()));
        assert_eq!(dest.len(), 2);
        assert_eq!(Write::write_all(&mut dest, b"ef"), Ok(()));
        assert_eq!(dest.len(), 0);
        assert_eq!(Write::flush(&mut dest), Ok(()));
    }
    assert_eq!(&storage, b"abcdef");
}

#[test]
fn vec_write_appends_everything() {
    let mut v: Vec<u8> = b"ab".to_vec();
    assert_eq!(Write::write(&mut v, b"cde").unwrap(), 3);
    assert_eq!(Write::write_all(&mut v, b"fg"), Ok(()));
    assert_eq!(Write::flush(&mut v), Ok(()));
    assert_eq!(v, b"abcdefg".to_vec());
}

#[test]
fn forwarding_through_mut_ref_and_box() {
    let mut src: &[u8] = b"pq";
    {
        let mut r: &mut &[u8] = &mut src;
        let mut buf = [0u8; 1];
        assert_eq!(Read::read(&mut r, &mut buf), Ok(1));
        assert_eq!(buf[0], b'p');
    }
    let mut boxed_src: Box<&[u8]> = Box::new(src);
    let mut buf = [0u8; 2];
    assert_eq!(Read::read(&mut boxed_src, &mut buf), Ok(1));
    assert_eq!(buf[0], b'q');

    let mut v: Vec<u8> = Vec::new();
    {
        let mut r: &mut Vec<u8> = &mut v;
        assert_eq!(Write::write_all(&mut r, b"12"), Ok(()));
    }
    let mut boxed: Box<Vec<u8>> = Box::new(v);
    assert_eq!(Write::write(&mut boxed, b"3").unwrap(), 1);
    assert_eq!(Write::flush(&mut boxed), Ok(()));
    assert_eq!(*boxed, b"123".to_vec());

}

#[test]
fn error_kind_is_its_own_kind() {
    assert_eq!(ErrorKind::Other.kind(), ErrorKind::Other);
}

#[test]
fn read_exact_keeps_the_unfilled_tail() {
    let mut src: &[u8] = b"abc";
    let mut buf = [0u8; 5];
    assert_eq!(Read::read_exact(&mut src, &mut buf), Err(ReadExactError::UnexpectedEof));
    assert_eq!(buf, [b'a', b'b', b'c', 0, 0]);
    assert!(src.is_empty());
}

#[test]
fn slice_read_leaves_bytes_past_the_count() {
    let mut src: &[u8] = b"xy";
    let mut buf = [7u8; 4];
    assert_eq!(Read::read(&mut src, &mut buf).unwrap(), 2);
    assert_eq!(buf, [b'x', b'y', 7, 7]);
    assert_eq!(Read::read(&mut src, &mut buf).unwrap(), 0);
    assert_eq!(buf, [b'x', b'y', 7, 7]);
}

#[test]
fn write_all_of_nothing_succeeds() {
    let mut storage = [0u8; 0];
    let mut dest: &mut [u8] = &mut storage;
    assert_eq!(Write::write_all(&mut dest, b""), Ok(()));
    let mut v: Vec<u8> = b"q".to_vec();
    assert_eq!(Write::write_all(&mut v, b""), Ok(()));
    assert_eq!(v, b"q".to_vec());
}

#[test]
fn write_rendered_writes_formatted_text() {
    let text = format!("{}{}", 42, "x");
    let mut v: Vec<u8> = Vec::new();
    assert_eq!(Write::write_rendered(&mut v, Some(text.as_bytes())), Ok(()));
    assert_eq!(v, b"42x".to_vec());

    let mut storage = [0u8; 10];
    {
        let mut dest: &mut [u8] = &mut storage;
        assert_eq!(Write::write_rendered(&mut dest, Some(text.as_bytes())), Ok(()));
        assert_eq!(dest.len(), 7);
    }
    assert_eq!(&storage[..3], b"42x");
}

#[test]
fn write_rendered_failed_rendering_is_fmt_error() {
    let mut v: Vec<u8> = b"kept".to_vec();
    assert_eq!(Write::write_rendered(&mut v, None), Err(WriteFmtError::FmtError));
    assert_eq!(v, b"kept".to_vec());
}

#[test]
fn blocking_step_functions() {
    assert!(matches!(read_exact_step::<ErrorKind>(0, 3, Ok(0)), ControlFlow::Break(Err(ReadExactError::UnexpectedEof))));
    assert!(matches!(read_exact_step::<ErrorKind>(1, 3, Ok(2)), ControlFlow::Continue(3)));
    assert!(matches!(
        read_exact_step(1, 3, Err(ErrorKind::Other)),
        ControlFlow::Break(Err(ReadExactError::Other(ErrorKind::Other)))
    ));
    assert!(matches!(write_all_step::<ErrorKind>(1, 4, Ok(2)), ControlFlow::Continue(3)));
    assert!(matches!(write_all_step(1, 4, Err(ErrorKind::Other)), ControlFlow::Break(Err(ErrorKind::Other))));
    assert_eq!(writer_outcome::<ErrorKind>(Ok(())), Ok(()));
    assert_eq!(writer_outcome(Err(ErrorKind::Other)), Err(WriteFmtError::Other(ErrorKind::Other)));
}
