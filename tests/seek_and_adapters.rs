use embedded_io::adapters::{FromFutures, FromStd, FromTokio, ToStd};
use embedded_io::{ErrorKind, SeekFrom};

#[test]
fn seek_from_round_trips_through_host_representation() {
    let values = [
        SeekFrom::Start(0),
        SeekFrom::Start(u64::MAX),
        SeekFrom::End(i64::MIN),
        SeekFrom::End(-1),
        SeekFrom::End(i64::MAX),
        SeekFrom::Current(0),
        SeekFrom::Current(i64::MIN),
        SeekFrom::Current(i64::MAX),
    ];
    for v in values {
        let host: std::io::SeekFrom = v.into();
        let back: SeekFrom = host.into();
        assert_eq!(back, v);
    }
    assert_eq!(std::io::SeekFrom::from(SeekFrom::End(-5)), std::io::SeekFrom::End(-5));
    assert_eq!(SeekFrom::from(std::io::SeekFrom::Current(3)), SeekFrom::Current(3));
    assert_eq!(SeekFrom::from(std::io::SeekFrom::Start(9)), SeekFrom::Start(9));
}

#[test]
fn adapters_own_and_hand_back_their_inner_value() {
    let mut a = FromStd::new(5u32);
    assert_eq!(*a.inner(), 5);
    *a.inner_mut() = 6;
    assert_eq!(a.into_inner(), 6);

    let mut b = ToStd::new(vec![1u8]);
    b.inner_mut().push(2);
    assert_eq!(b.inner(), &vec![1u8, 2]);
    assert_eq!(b.into_inner(), vec![1u8, 2]);

    let mut c = FromFutures::new('x');
    *c.inner_mut() = 'y';
    assert_eq!(*c.inner(), 'y');
    assert_eq!(c.into_inner(), 'y');

    let mut d = FromTokio::new(String::from("t"));
    d.inner_mut().push('!');
    assert_eq!(d.inner(), "t!");
    assert_eq!(d.into_inner(), "t!");
}

#[test]
fn to_std_reads_and_writes_through_host_traits() {
    let mut r = ToStd::new(&b"host"[..]);
    let mut out = Vec::new();
    std::io::Read::read_to_end(&mut r, &mut out).unwrap();
    assert_eq!(out, b"host".to_vec());

    let mut w = ToStd::new(Vec::<u8>::new());
    std::io::Write::write_all(&mut w, b"bytes").unwrap();
    std::io::Write::flush(&mut w).unwrap();
    assert_eq!(w.into_inner(), b"bytes".to_vec());
}

#[test]
fn host_errors_are_of_kind_other() {
    let e = std::io::Error::new(std::io::ErrorKind::NotFound, "gone");
    assert_eq!(embedded_io::Error::kind(&e), ErrorKind::Other);
}
