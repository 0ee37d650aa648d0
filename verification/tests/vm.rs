use bytes::Bytes;
use core::time::Duration;
use netbench::vm::duplex::frame::{Decoder as DuplexDecoder, Frame as DuplexFrame};
use netbench::vm::duplex::{Halt, Ops, Session, Stream};
use netbench::vm::s2n_quic::{drain, Action, Control, Drained, Message, OpResult, StreamSet};
use netbench::vm::server::{wait_overflows_at, Op};
use netbench::vm::ByteVec;
use netbench::Error;

fn encoded(tag: u8, a: u64, b: u64) -> Vec<u8> {
    let mut v = vec![tag];
    v.extend_from_slice(&a.to_be_bytes());
    v.extend_from_slice(&b.to_be_bytes());
    v
}

fn queue(chunks: &[&[u8]]) -> ByteVec {
    let mut q = ByteVec::default();
    for c in chunks {
        q.push(Bytes::copy_from_slice(c));
    }
    q
}

#[test]
fn byte_vec_reads_across_chunks() {
    let mut q = queue(&[b"ab", b"", b"cde"]);
    assert_eq!(q.len(), 5);
    assert_eq!(q.get(3), b'd');
    assert_eq!(q.peek_be(1, 2), u64::from(b'b') * 256 + u64::from(b'c'));
    assert_eq!(q.chunk(), b"ab");
    q.advance(3);
    assert_eq!(q.chunk(), b"de");
    assert_eq!(&q.copy_to_bytes(2)[..], b"de");
    assert!(q.is_empty());
}

#[test]
fn op_decode_each_kind() {
    let mut q = queue(&[&encoded(3, 7, 100), &encoded(0, 2, 5), &encoded(9, 1, 1), &encoded(6, 4, 0)]);
    match Op::decode(&mut q) {
        Some(Op::Send { id: 7, len: 100 }) => {},
        other => panic!("{:?}", other),
    }
    match Op::decode(&mut q) {
        Some(Op::Wait { timeout }) => assert_eq!(timeout, Duration::new(2, 5)),
        other => panic!("{:?}", other),
    }
    assert!(Op::decode(&mut q).is_none());
    assert_eq!(q.len(), 17);
    match Op::decode(&mut q) {
        Some(Op::Await { id: 4 }) => {},
        other => panic!("{:?}", other),
    }
    let mut short = queue(&[&[3, 0, 0]]);
    assert!(Op::decode(&mut short).is_none());
    assert_eq!(short.len(), 3);
}

#[test]
fn wait_overflow_is_detected() {
    let q = queue(&[&encoded(0, u64::MAX, 2_000_000_000)]);
    assert!(wait_overflows_at(&q, 0));
    let q = queue(&[&encoded(0, u64::MAX, 999_999_999)]);
    assert!(!wait_overflows_at(&q, 0));
}

#[test]
fn duplex_frames_decode() {
    let mut bytes = vec![0u8];
    bytes.extend(encoded(1, 42, 0));
    bytes.push(1);
    bytes.extend_from_slice(&9u64.to_be_bytes());
    bytes.extend_from_slice(&3u16.to_be_bytes());
    bytes.extend_from_slice(b"xyz");
    let mut q = queue(&[&bytes]);
    let mut d = DuplexDecoder::default();
    assert!(!d.overflow_ahead(&q));
    match d.decode(&mut q) {
        Ok(Some(DuplexFrame::Control { op: Op::BidirectionalStream { id: 42 } })) => {},
        other => panic!("{:?}", other),
    }
    match d.decode(&mut q) {
        Ok(Some(DuplexFrame::Stream { id: 9, data })) => assert_eq!(&data[..], b"xyz"),
        other => panic!("{:?}", other),
    }
    assert!(matches!(d.decode(&mut q), Ok(None)));
    let mut bad = queue(&[&[7u8]]);
    assert!(matches!(d.decode(&mut bad), Err(Error::InvalidFrameTag)));
}

#[test]
fn duplex_overflow_ahead() {
    let mut bytes = vec![0u8];
    bytes.extend(encoded(0, u64::MAX, 3_000_000_000));
    let q = queue(&[&bytes]);
    assert!(DuplexDecoder::default().overflow_ahead(&q));
}

#[test]
fn duplex_stream_writes_frames() {
    let mut s = Stream::new(5);
    assert!(!s.is_active());
    s.send(3);
    assert!(s.is_active());
    let mut out = ByteVec::default();
    assert!(!s.write(&mut out));
    let mut expected = vec![1u8];
    expected.extend_from_slice(&5u64.to_be_bytes());
    expected.extend_from_slice(&[0, 1, 2]);
    assert_eq!(&out.copy_to_bytes(out.len())[..], &expected[..]);

    s.send(1);
    s.finish();
    let mut out = ByteVec::default();
    assert!(!s.write(&mut out));
    let mut expected = vec![1u8];
    expected.extend_from_slice(&5u64.to_be_bytes());
    expected.push(3);
    expected.push(2);
    expected.extend_from_slice(&5u64.to_be_bytes());
    assert_eq!(&out.copy_to_bytes(out.len())[..], &expected[..]);
    assert!(!s.is_active());

    let mut r = Stream::new(1);
    r.reset(9);
    let mut out = ByteVec::default();
    assert!(!r.write(&mut out));
    let mut expected = 1u64.to_be_bytes().to_vec();
    expected.extend_from_slice(&9u64.to_be_bytes());
    assert_eq!(&out.copy_to_bytes(out.len())[..], &expected[..]);
}

#[test]
fn duplex_ops_wait_for_an_awaited_stream() {
    let mut ops = Ops::default();
    assert!(matches!(ops.apply_one(Op::BidirectionalStream { id: 1 }), Ok(())));
    // nothing is awaited, so ops are held back
    assert!(ops.is_paused());
    assert!(matches!(ops.push(Op::Send { id: 1, len: 4 }), Ok(None)));
    assert!(matches!(ops.apply(), Ok(None)));
    assert!(matches!(ops.apply_one(Op::Send { id: 1, len: 2 }), Ok(())));
    assert!(matches!(ops.apply_one(Op::Await { id: 1 }), Ok(())));
    assert!(!ops.is_paused());
    assert!(matches!(ops.apply_one(Op::Send { id: 2, len: 4 }), Err(Error::InvalidStream)));
    // the queued op runs while the awaited stream is active
    assert!(matches!(ops.apply(), Ok(None)));
    let mut out = ByteVec::default();
    assert_eq!(ops.flush(&mut out), None);
    let mut expected = vec![1u8];
    expected.extend_from_slice(&1u64.to_be_bytes());
    expected.extend_from_slice(&[0, 1, 2, 3, 4, 5]);
    assert_eq!(&out.copy_to_bytes(out.len())[..], &expected[..]);
    // the stream has written everything, so the await is over
    assert!(ops.is_paused());
    assert!(!ops.is_applicable(Op::Wait { timeout: Duration::from_millis(1) }));
    assert!(!ops.is_applicable(Op::Trace { id: 1 }));
}

#[test]
fn duplex_session_processes_control_frames() {
    let mut session = Session::new();
    let mut bytes = vec![0u8];
    bytes.extend(encoded(1, 1, 0));
    session.on_read(Bytes::from(bytes));
    assert!(matches!(session.process(), Ok(None)));
    assert!(!session.wants_write());
    session.on_read(Bytes::from_static(&[5]));
    assert!(matches!(session.process(), Err(Error::InvalidFrameTag)));
}

#[test]
fn duplex_session_stops_at_an_overflowing_wait() {
    let mut session = Session::new();
    let mut bytes = vec![0u8];
    bytes.extend(encoded(0, u64::MAX, 4_000_000_000));
    session.on_read(Bytes::from(bytes));
    assert!(matches!(session.process(), Ok(Some(Halt::WaitOverflow))));
}

#[test]
fn stream_set_routes_ops() {
    let mut set = StreamSet::new();
    assert!(set.apply(Op::Send { id: 1, len: 3 }).is_err());
    assert!(matches!(set.apply(Op::UnidirectionalStream { id: 1 }), Ok((OpResult::Continue, Action::OpenSend(1)))));
    assert!(matches!(
        set.apply(Op::Send { id: 1, len: 3 }),
        Ok((OpResult::Continue, Action::Deliver(1, Message::Send(3))))
    ));
    assert!(matches!(set.apply(Op::Await { id: 1 }), Ok((OpResult::Await, Action::Deliver(1, Message::Await)))));
    assert!(matches!(set.apply(Op::Wait { timeout: Duration::from_millis(5) }), Ok((OpResult::Sleep, Action::Sleep(_)))));
    set.insert_send_stream(8);
    assert!(matches!(set.apply(Op::Finish { id: 8 }), Ok((OpResult::Continue, Action::Deliver(8, Message::Finish)))));
}

#[test]
fn control_restores_ops_for_unknown_streams() {
    let mut control = Control::new();
    let mut set = StreamSet::new();
    control.on_receive(Bytes::from(encoded(1, 3, 0)));
    control.on_receive(Bytes::from(encoded(3, 4, 10)));
    control.on_receive(Bytes::from(encoded(3, 3, 10)));
    let (how, actions) = drain(&mut control, &mut set);
    assert!(matches!(how, Drained::Restored));
    assert_eq!(actions.len(), 1);
    assert!(matches!(actions[0], Action::OpenBidirectional(3)));
    // the restored op comes back first
    match control.op() {
        Some(Op::Send { id: 4, len: 10 }) => {},
        other => panic!("{:?}", other),
    }
    set.insert_send_stream(4);
    let (how, actions) = drain(&mut control, &mut set);
    assert!(matches!(how, Drained::Idle));
    assert_eq!(actions.len(), 1);
}
