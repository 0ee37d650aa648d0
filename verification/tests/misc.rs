use core::time::Duration;
use netbench::ext::{ByteExt, DurationExt};
use netbench::op::ScenarioId;
use netbench::path::{MaxMtu, MIN_ALLOWED_MAX_MTU};

#[test]
fn byte_units() {
    assert_eq!(3.bytes(), 3);
    assert_eq!(3.kilobytes(), 3_000);
    assert_eq!(3u64.megabytes(), 3_000_000);
    assert_eq!(2.gigabytes(), 2_000_000_000);
    assert_eq!((-1).bytes(), u64::MAX);
}

#[test]
fn duration_units() {
    assert_eq!(5.millis(), Duration::from_millis(5));
    assert_eq!(2.seconds(), Duration::from_secs(2));
    assert_eq!(3u64.minutes(), Duration::from_secs(180));
}

#[test]
fn max_mtu_bounds() {
    assert_eq!(MIN_ALLOWED_MAX_MTU, 1228);
    assert!(MaxMtu::try_from(1227).is_err());
    assert_eq!(MaxMtu::try_from(1228).unwrap().get(), 1228);
    assert_eq!(MaxMtu::try_from(9001).unwrap().as_usize(), 9001);
    assert_eq!(MaxMtu::default().get(), 1500);
    match MaxMtu::try_from(10) {
        Err(e) => assert_eq!(e.message(), "MaxMtu must be at least 1228"),
        Ok(_) => panic!("accepted"),
    }
}

#[test]
fn scenario_id_of_nothing_is_the_empty_digest() {
    let id = ScenarioId::hasher().finish();
    assert_eq!(id.as_str(), "e3b0c44298fc1c149afbf4c8996fb92427ae41e4649b934ca495991b7852b855");
}

#[test]
fn scenario_id_of_abc() {
    let mut h = ScenarioId::hasher();
    h.write(b"a");
    h.write(b"bc");
    assert_eq!(h.finish().as_str(), "ba7816bf8f01cfea414140de5dae2223b00361a396177a9cb410ff61f20015ad");
}

use bytes::{Bytes, BytesMut};
use netbench::endian::{be_decode, be_encode};
use netbench::try_buf::{TryBuf, TryBufMut};

#[test]
fn big_endian_roundtrip() {
    let mut out = Vec::new();
    be_encode(0x0102_0304, 4, &mut out);
    assert_eq!(out, vec![1, 2, 3, 4]);
    assert_eq!(be_decode(&out), 0x0102_0304);
    let mut out = Vec::new();
    be_encode(u64::MAX, 8, &mut out);
    assert_eq!(be_decode(&out), u64::MAX);
    assert_eq!(be_decode(&[]), 0);
}

#[test]
fn try_buf_reads_in_order() {
    let data = [0u8, 1, 0, 0, 0, 2, 0, 0, 0, 0, 0, 0, 0, 3, 9];
    let mut buf: &[u8] = &data;
    assert_eq!(buf.read_u16().ok(), Some(1));
    assert_eq!(buf.read_u32().ok(), Some(2));
    assert_eq!(buf.read_u64().ok(), Some(3));
    assert_eq!(buf.remaining(), 1);
    assert!(buf.read_u16().is_err());
    assert_eq!(buf.read_u8().ok(), Some(9));
    assert!(buf.read_u8().is_err());

    let mut b = Bytes::from_static(&[7, 8]);
    assert_eq!(b.read_u8().ok(), Some(7));
    assert_eq!(b.remaining(), 1);
}

#[test]
fn try_buf_mut_writes_in_order() {
    let mut b = BytesMut::with_capacity(16);
    assert!(b.write_u8(1).is_ok());
    assert!(b.write_u16(0x0203).is_ok());
    assert!(b.write_u32(4).is_ok());
    assert!(b.write_u64(5).is_ok());
    assert_eq!(&b[..], &[1, 2, 3, 0, 0, 0, 4, 0, 0, 0, 0, 0, 0, 0, 5]);
    assert_eq!(b.read_u8().ok(), Some(1));
    assert_eq!(b.read_u16().ok(), Some(0x0203));
}
