use bytes::Bytes;
use core::task::{Context, Poll};
use netbench::connection::multiplexed::frame::Frame;
use netbench::connection::multiplexed::{Config, Connection as Mux, ReceiveStream, StreamController};
use netbench::connection::trace::{push_op_text, Disabled, Logger, Throughput};
use netbench::connection::{Checkpoints, Connection, Driver, IdPrefixReader, Owner, Trace};
use netbench::op::ConnectionOp;
use netbench::scenario::Connection as ConnectionOps;
use netbench::{Error, Result};
use std::collections::HashSet;
use std::sync::Arc;
use std::task::{Wake, Waker};

struct Noop;

impl Wake for Noop {
    fn wake(self: Arc<Self>) {}
}

fn waker() -> Waker {
    Waker::from(Arc::new(Noop))
}

#[test]
fn park_after_unpark_is_released_once() {
    let mut set: HashSet<u64> = HashSet::new();
    assert_eq!(set.park(3), Poll::Pending);
    set.unpark(3);
    assert_eq!(set.park(3), Poll::Ready(()));
    assert_eq!(set.park(3), Poll::Pending);
}

#[test]
fn id_prefix_over_two_reads() {
    let mut reader = IdPrefixReader::default();
    let buf = reader.remaining();
    assert_eq!(buf.len(), 8);
    buf[..3].copy_from_slice(&[0, 0, 0]);
    assert_eq!(reader.on_read(3), Poll::Pending);
    let buf = reader.remaining();
    assert_eq!(buf.len(), 5);
    buf.copy_from_slice(&[0, 0, 1, 0, 2]);
    assert_eq!(reader.on_read(5), Poll::Ready(0x0001_0002));
}

#[test]
fn receive_stream_window() {
    let w = waker();
    let mut cx = Context::from_waker(&w);
    let mut rx = ReceiveStream::new(10);
    assert_eq!(rx.buffer(6, &mut cx), Ok(6));
    assert_eq!(rx.buffer(6, &mut cx), Ok(4));
    assert_eq!(rx.buffer(1, &mut cx), Ok(0));
    assert_eq!(rx.receive(3), Poll::Ready(Ok(3)));
    assert_eq!(rx.receive_window(), 7);
    assert_eq!(rx.receive(100), Poll::Ready(Ok(7)));
    assert_eq!(rx.receive(1), Poll::Pending);
    assert_eq!(rx.credit(5), 15);
    rx.finish(&mut cx);
    assert_eq!(rx.receive(1), Poll::Ready(Ok(0)));
    assert_eq!(rx.buffer(1, &mut cx), Err(Error::StreamFinished));
}

#[test]
fn stream_controller_limits_opens() {
    let w = waker();
    let mut cx = Context::from_waker(&w);
    let mut c = StreamController::new(2);
    assert_eq!(c.open(), Poll::Ready(()));
    assert_eq!(c.open(), Poll::Ready(()));
    assert_eq!(c.open(), Poll::Pending);
    assert_eq!(c.capacity(), 0);
    c.max_streams(5, &mut cx);
    assert_eq!(c.capacity(), 3);
}

fn drain(conn: &mut Mux) -> Vec<u8> {
    let mut out = Vec::new();
    while let Some(chunk) = conn.pop_chunk() {
        out.extend_from_slice(&chunk);
    }
    out
}

#[test]
fn two_multiplexed_endpoints_exchange_data() {
    let w = waker();
    let mut cx = Context::from_waker(&w);
    let mut client = Mux::new(Config::default());
    let mut server = Mux::new(Config::default());

    assert!(matches!(client.poll_open_send_stream(0, &mut cx), Poll::Ready(Ok(()))));
    match client.poll_send(Owner::Local, 0, 5, &mut cx) {
        Poll::Ready(Ok(5)) => {},
        other => panic!("{:?}", other),
    }
    assert!(matches!(client.poll_send_finish(Owner::Local, 0, &mut cx), Poll::Ready(Ok(()))));

    let bytes = drain(&mut client);
    server.on_read(Bytes::from(bytes));
    assert_eq!(server.flush_read_buffer(&mut cx), Ok(()));
    match server.poll_accept_stream(&mut cx) {
        Poll::Ready(Ok(Some(0))) => {},
        other => panic!("{:?}", other),
    }
    match server.poll_receive(Owner::Remote, 0, 100, &mut cx) {
        Poll::Ready(Ok(5)) => {},
        other => panic!("{:?}", other),
    }
    match server.poll_receive(Owner::Remote, 0, 100, &mut cx) {
        Poll::Ready(Ok(0)) => {},
        other => panic!("{:?}", other),
    }
}

#[test]
fn a_non_default_window_is_announced() {
    let mut config = Config::default();
    config.stream_window = 1000;
    let mut conn = Mux::new(config);
    let mut expected = Vec::new();
    Frame::InitialMaxStreamData { up_to: 1000 }.write_header(&mut expected);
    assert_eq!(drain(&mut conn), expected);
    let mut conn = Mux::new(Config::default());
    assert!(drain(&mut conn).is_empty());
}

#[test]
fn sending_on_a_missing_stream_fails() {
    let w = waker();
    let mut cx = Context::from_waker(&w);
    let mut conn = Mux::new(Config::default());
    assert!(matches!(conn.poll_send(Owner::Local, 4, 1, &mut cx), Poll::Ready(Err(Error::MissingStream))));
    assert!(matches!(conn.poll_receive(Owner::Local, 4, 1, &mut cx), Poll::Ready(Err(Error::MissingStream))));
}

/// A transport on which every operation completes at once.
struct Immediate {
    sent: u64,
}

impl Connection for Immediate {
    fn poll_open_bidirectional_stream(&mut self, _id: u64, _cx: &mut Context) -> Poll<Result<()>> {
        Poll::Ready(Ok(()))
    }

    fn poll_open_send_stream(&mut self, _id: u64, _cx: &mut Context) -> Poll<Result<()>> {
        Poll::Ready(Ok(()))
    }

    fn poll_accept_stream(&mut self, _cx: &mut Context) -> Poll<Result<Option<u64>>> {
        Poll::Ready(Ok(None))
    }

    fn poll_send(&mut self, _owner: Owner, _id: u64, bytes: u64, _cx: &mut Context) -> Poll<Result<u64>> {
        let n = bytes.min(7);
        self.sent += n;
        Poll::Ready(Ok(n))
    }

    fn poll_receive(&mut self, _owner: Owner, _id: u64, bytes: u64, _cx: &mut Context) -> Poll<Result<u64>> {
        Poll::Ready(Ok(bytes))
    }

    fn poll_send_finish(&mut self, _owner: Owner, _id: u64, _cx: &mut Context) -> Poll<Result<()>> {
        Poll::Ready(Ok(()))
    }

    fn poll_receive_finish(&mut self, _owner: Owner, _id: u64, _cx: &mut Context) -> Poll<Result<()>> {
        Poll::Ready(Ok(()))
    }
}

#[test]
fn driver_runs_a_connection_to_the_end() {
    let w = waker();
    let mut cx = Context::from_waker(&w);
    let ops = ConnectionOps {
        ops: vec![
            ConnectionOp::SendStream { stream_id: 0 },
            ConnectionOp::Send { stream_id: 0, bytes: 20 },
            ConnectionOp::SendFinish { stream_id: 0 },
            ConnectionOp::Unpark { checkpoint: 1 },
            ConnectionOp::Park { checkpoint: 1 },
        ],
        peer_streams: vec![],
    };
    let mut driver = Driver::new(&ops, Immediate { sent: 0 });
    let mut trace = Throughput::new();
    let mut checkpoints: HashSet<u64> = HashSet::new();
    let mut result = Poll::Pending;
    for _ in 0..100 {
        result = driver.poll(&mut trace, &mut checkpoints, &mut cx);
        if result.is_ready() {
            break;
        }
    }
    assert!(matches!(result, Poll::Ready(Ok(()))));
    assert_eq!(driver.connection.sent, 20);
    assert_eq!(trace.tx(), 20);
    assert!(checkpoints.is_empty());
}

#[test]
fn logger_lines() {
    let traces = vec!["hello".to_string()];
    let mut log = Logger::new(4, &traces);
    log.enter(1, 2);
    log.send(3, 10);
    log.trace(0);
    log.exit();
    log.trace(9);
    log.accept(5);
    log.receive(6, 7);
    assert_eq!(
        log.take_lines(),
        vec![
            "4:1.2:send: stream=3, len=10".to_string(),
            "4:1.2:trace: hello".to_string(),
            "4:trace: id=9".to_string(),
            "4:accept: stream=5".to_string(),
            "4:recv: stream=6, len=7".to_string(),
        ]
    );
    assert!(log.take_lines().is_empty());
}

#[test]
fn logger_exec_line() {
    let traces: Vec<String> = vec![];
    let mut log = Logger::new(0, &traces);
    log.exec(&ConnectionOp::SendStream { stream_id: 2 });
    assert_eq!(log.take_lines(), vec!["0:exec: SendStream { stream_id: 2 }".to_string()]);
}

#[test]
fn throughput_counts_and_resets() {
    let mut t = Throughput::new();
    t.send(1, 10);
    t.send(2, 5);
    t.receive(1, 3);
    let taken = t.take();
    assert_eq!((taken.rx(), taken.tx()), (3, 15));
    assert_eq!((t.rx(), t.tx()), (0, 0));
    t.send(0, u64::MAX);
    t.send(0, 2);
    assert_eq!(t.tx(), 1);
}

#[test]
fn disabled_trace_ignores_everything() {
    let mut d = Disabled::default();
    d.send(1, 2);
    d.trace(3);
    d.enter(0, 0);
    d.exit();
}

#[test]
fn owners_flip() {
    assert_eq!(!Owner::Local, Owner::Remote);
    assert_eq!(!Owner::Remote, Owner::Local);
}

#[test]
fn driver_sleeps_then_sends() {
    let runtime = tokio::runtime::Builder::new_current_thread().enable_time().build().unwrap();
    let ops = ConnectionOps {
        ops: vec![
            ConnectionOp::Sleep { amount: core::time::Duration::from_millis(20) },
            ConnectionOp::SendStream { stream_id: 0 },
            ConnectionOp::SendRate { stream_id: 0, bytes: 4, period: core::time::Duration::from_millis(5) },
            ConnectionOp::Send { stream_id: 0, bytes: 10 },
        ],
        peer_streams: vec![],
    };
    let start = std::time::Instant::now();
    let sent = runtime.block_on(async {
        let mut driver = Driver::new(&ops, Immediate { sent: 0 });
        let mut trace = Throughput::new();
        let mut checkpoints: HashSet<u64> = HashSet::new();
        let result = std::future::poll_fn(|cx| driver.poll(&mut trace, &mut checkpoints, cx)).await;
        assert!(result.is_ok());
        driver.connection.sent
    });
    assert_eq!(sent, 10);
    assert!(start.elapsed() >= core::time::Duration::from_millis(20));
}

#[test]
fn flush_read_buffer_rejects_an_unknown_tag() {
    let w = waker();
    let mut cx = Context::from_waker(&w);
    let mut server = Mux::new(Config::default());
    server.on_read(Bytes::from(vec![9u8, 0, 0]));
    assert_eq!(server.flush_read_buffer(&mut cx), Err(Error::InvalidFrameTag));
}

#[test]
fn flush_read_buffer_waits_for_the_rest_of_a_frame() {
    let w = waker();
    let mut cx = Context::from_waker(&w);
    let mut client = Mux::new(Config::default());
    let mut server = Mux::new(Config::default());
    assert!(matches!(client.poll_open_send_stream(4, &mut cx), Poll::Ready(Ok(()))));
    let bytes = drain(&mut client);
    assert_eq!(bytes.len(), 10);

    server.on_read(Bytes::from(bytes[..4].to_vec()));
    assert_eq!(server.flush_read_buffer(&mut cx), Ok(()));
    assert!(matches!(server.poll_accept_stream(&mut cx), Poll::Pending));

    server.on_read(Bytes::from(bytes[4..].to_vec()));
    assert_eq!(server.flush_read_buffer(&mut cx), Ok(()));
    match server.poll_accept_stream(&mut cx) {
        Poll::Ready(Ok(Some(4))) => {},
        other => panic!("{:?}", other),
    }
}

#[test]
fn queue_credit_updates_extends_the_window_and_tells_the_peer_first() {
    let w = waker();
    let mut cx = Context::from_waker(&w);
    let mut client = Mux::new(Config::default());
    let mut config = Config::default();
    config.stream_window = 10;
    let mut server = Mux::new(config);
    drain(&mut server);

    assert!(matches!(client.poll_open_send_stream(0, &mut cx), Poll::Ready(Ok(()))));
    match client.poll_send(Owner::Local, 0, 6, &mut cx) {
        Poll::Ready(Ok(6)) => {},
        other => panic!("{:?}", other),
    }
    server.on_read(Bytes::from(drain(&mut client)));
    assert_eq!(server.flush_read_buffer(&mut cx), Ok(()));
    match server.poll_receive(Owner::Remote, 0, 100, &mut cx) {
        Poll::Ready(Ok(6)) => {},
        other => panic!("{:?}", other),
    }

    server.queue_credit_updates();
    let mut expected = Vec::new();
    Frame::MaxStreamData { id: 0, owner: Owner::Local, up_to: 20 }.write_header(&mut expected);
    assert_eq!(drain(&mut server), expected);
}

#[test]
fn a_sleep_past_the_end_of_time_never_ends() {
    let w = waker();
    let mut cx = Context::from_waker(&w);
    let ops = ConnectionOps {
        ops: vec![ConnectionOp::Sleep { amount: std::time::Duration::MAX }],
        peer_streams: vec![],
    };
    let mut driver = Driver::new(&ops, Immediate { sent: 0 });
    let mut trace = Throughput::new();
    let mut checkpoints: HashSet<u64> = HashSet::new();
    for _ in 0..3 {
        assert!(driver.poll(&mut trace, &mut checkpoints, &mut cx).is_pending());
    }
}

#[test]
fn op_text_is_the_debug_text() {
    let ops = vec![
        ConnectionOp::Sleep { amount: std::time::Duration::from_millis(1500) },
        ConnectionOp::BidirectionalStream { stream_id: 3 },
        ConnectionOp::Send { stream_id: 0, bytes: 1024 },
        ConnectionOp::SendRate { stream_id: 1, bytes: 10, period: std::time::Duration::from_micros(7) },
        ConnectionOp::ReceiveRate { stream_id: 2, bytes: 0, period: std::time::Duration::from_secs(3) },
        ConnectionOp::ReceiveAll { stream_id: 18446744073709551615 },
        ConnectionOp::Unpark { checkpoint: 12 },
        ConnectionOp::Trace { trace_id: 5 },
        ConnectionOp::Scope {
            threads: vec![
                vec![ConnectionOp::Park { checkpoint: 1 }, ConnectionOp::SendFinish { stream_id: 9 }],
                vec![],
                vec![ConnectionOp::Scope { threads: vec![vec![ConnectionOp::ReceiveFinish { stream_id: 4 }]] }],
            ],
        },
        ConnectionOp::Scope { threads: vec![] },
    ];
    for op in &ops {
        let mut s = String::new();
        push_op_text(&mut s, op);
        assert_eq!(s, format!("{:?}", op));
    }
}

/// A transport that hands over peer stream `accept` and completes the rest.
struct Accepting {
    accept: u64,
}

impl Connection for Accepting {
    fn poll_open_bidirectional_stream(&mut self, _id: u64, _cx: &mut Context) -> Poll<Result<()>> {
        Poll::Ready(Ok(()))
    }

    fn poll_open_send_stream(&mut self, _id: u64, _cx: &mut Context) -> Poll<Result<()>> {
        Poll::Ready(Ok(()))
    }

    fn poll_accept_stream(&mut self, _cx: &mut Context) -> Poll<Result<Option<u64>>> {
        Poll::Ready(Ok(Some(self.accept)))
    }

    fn poll_send(&mut self, _owner: Owner, _id: u64, bytes: u64, _cx: &mut Context) -> Poll<Result<u64>> {
        Poll::Ready(Ok(bytes))
    }

    fn poll_receive(&mut self, _owner: Owner, _id: u64, bytes: u64, _cx: &mut Context) -> Poll<Result<u64>> {
        Poll::Ready(Ok(bytes))
    }

    fn poll_send_finish(&mut self, _owner: Owner, _id: u64, _cx: &mut Context) -> Poll<Result<()>> {
        Poll::Ready(Ok(()))
    }

    fn poll_receive_finish(&mut self, _owner: Owner, _id: u64, _cx: &mut Context) -> Poll<Result<()>> {
        Poll::Ready(Ok(()))
    }
}

#[test]
fn driver_accepts_known_peer_streams_and_refuses_unknown_ones() {
    let w = waker();
    let mut cx = Context::from_waker(&w);
    let ops = ConnectionOps {
        ops: vec![],
        peer_streams: vec![vec![ConnectionOp::Receive { stream_id: 0, bytes: 5 }]],
    };
    let mut trace = Throughput::new();
    let mut checkpoints: HashSet<u64> = HashSet::new();

    let mut driver = Driver::new(&ops, Accepting { accept: 5 });
    assert_eq!(driver.poll(&mut trace, &mut checkpoints, &mut cx), Poll::Ready(Err(Error::UnknownPeerStream)));

    let mut driver = Driver::new(&ops, Accepting { accept: 0 });
    let mut result = Poll::Pending;
    for _ in 0..10 {
        result = driver.poll(&mut trace, &mut checkpoints, &mut cx);
        if result.is_ready() {
            break;
        }
    }
    assert_eq!(result, Poll::Ready(Ok(())));
    assert_eq!(trace.rx(), 5);
}
