use bytes::Bytes;
use netbench::connection::multiplexed::frame::{Decoder, Frame};
use netbench::connection::Owner;
use netbench::vm::ByteVec;
use netbench::Error;

fn header(frame: &Frame) -> Vec<u8> {
    let mut out = Vec::new();
    frame.write_header(&mut out);
    out
}

#[test]
fn stream_open_header_bytes() {
    let h = header(&Frame::StreamOpen { id: 0x0102, bidirectional: true });
    assert_eq!(h, vec![0, 0, 0, 0, 0, 0, 0, 1, 2, 1]);
}

#[test]
fn stream_data_header_holds_length() {
    let h = header(&Frame::StreamData { id: 7, owner: Owner::Remote, data: Bytes::from_static(b"abc") });
    assert_eq!(h, vec![1, 0, 0, 0, 0, 0, 0, 0, 7, 1, 0, 0, 0, 3]);
}

#[test]
fn frames_decode_back() {
    let frames = vec![
        Frame::StreamOpen { id: 9, bidirectional: false },
        Frame::StreamFinish { id: 3, owner: Owner::Local },
        Frame::MaxStreams { up_to: 42 },
        Frame::MaxStreamData { id: 5, owner: Owner::Remote, up_to: 1 << 40 },
        Frame::InitialMaxStreamData { up_to: 256000 },
    ];
    let mut buf = ByteVec::default();
    for f in &frames {
        buf.push(Bytes::from(header(f)));
    }
    buf.push(Bytes::from(header(&Frame::StreamData { id: 2, owner: Owner::Local, data: Bytes::from_static(b"hello") })));
    buf.push(Bytes::from_static(b"hello"));

    let mut decoder = Decoder::default();
    match decoder.decode(&mut buf) {
        Ok(Some(Frame::StreamOpen { id: 9, bidirectional: false })) => {},
        other => panic!("{:?}", other),
    }
    match decoder.decode(&mut buf) {
        Ok(Some(Frame::StreamFinish { id: 3, owner: Owner::Local })) => {},
        other => panic!("{:?}", other),
    }
    match decoder.decode(&mut buf) {
        Ok(Some(Frame::MaxStreams { up_to: 42 })) => {},
        other => panic!("{:?}", other),
    }
    match decoder.decode(&mut buf) {
        Ok(Some(Frame::MaxStreamData { id: 5, owner: Owner::Remote, up_to })) => assert_eq!(up_to, 1 << 40),
        other => panic!("{:?}", other),
    }
    match decoder.decode(&mut buf) {
        Ok(Some(Frame::InitialMaxStreamData { up_to: 256000 })) => {},
        other => panic!("{:?}", other),
    }
    // the payload sits in its own chunk: the header comes first, then the data
    match decoder.decode(&mut buf) {
        Ok(Some(Frame::StreamData { id: 2, owner: Owner::Local, data })) => assert_eq!(&data[..], b"hello"),
        other => panic!("{:?}", other),
    }
    assert!(matches!(decoder.decode(&mut buf), Ok(None)));
    assert_eq!(buf.len(), 0);
}

#[test]
fn partial_frames_wait_for_more() {
    let bytes = header(&Frame::MaxStreams { up_to: 77 });
    let mut buf = ByteVec::default();
    let mut decoder = Decoder::default();
    buf.push(Bytes::from(bytes[..3].to_vec()));
    assert!(matches!(decoder.decode(&mut buf), Ok(None)));
    buf.push(Bytes::from(bytes[3..].to_vec()));
    match decoder.decode(&mut buf) {
        Ok(Some(Frame::MaxStreams { up_to: 77 })) => {},
        other => panic!("{:?}", other),
    }
}

#[test]
fn payload_split_over_chunks() {
    let data = Bytes::from_static(b"abcdef");
    let mut buf = ByteVec::default();
    buf.push(Bytes::from(header(&Frame::StreamData { id: 1, owner: Owner::Remote, data: data.clone() })));
    buf.push(Bytes::from_static(b"abc"));
    let mut decoder = Decoder::default();
    match decoder.decode(&mut buf) {
        Ok(Some(Frame::StreamData { id: 1, owner: Owner::Remote, data })) => assert_eq!(&data[..], b"abc"),
        other => panic!("{:?}", other),
    }
    assert!(matches!(decoder.decode(&mut buf), Ok(None)));
    buf.push(Bytes::from_static(b"def"));
    match decoder.decode(&mut buf) {
        Ok(Some(Frame::StreamData { id: 1, owner: Owner::Remote, data })) => assert_eq!(&data[..], b"def"),
        other => panic!("{:?}", other),
    }
}

#[test]
fn bad_tag_and_owner_are_errors() {
    let mut buf = ByteVec::default();
    buf.push(Bytes::from_static(&[9]));
    let mut decoder = Decoder::default();
    assert!(matches!(decoder.decode(&mut buf), Err(Error::InvalidFrameTag)));

    let mut buf = ByteVec::default();
    buf.push(Bytes::from_static(&[2, 0, 0, 0, 0, 0, 0, 0, 1, 7]));
    let mut decoder = Decoder::default();
    assert!(matches!(decoder.decode(&mut buf), Err(Error::InvalidOwnerId)));
}

#[test]
fn empty_payload_frames_are_skipped() {
    let mut buf = ByteVec::default();
    buf.push(Bytes::from(header(&Frame::StreamData { id: 1, owner: Owner::Local, data: Bytes::new() })));
    buf.push(Bytes::from(header(&Frame::MaxStreams { up_to: 3 })));
    let mut decoder = Decoder::default();
    match decoder.decode(&mut buf) {
        Ok(Some(Frame::MaxStreams { up_to: 3 })) => {},
        other => panic!("{:?}", other),
    }
}
