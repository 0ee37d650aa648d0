//! The decisions of a benchmark server whose streams run as tasks of their
//! own: which task an operation goes to, and what the server does next.

use crate::byte_buf::bytes_view;
use crate::vm::server::{op_a, op_b, op_decoded, op_tag, wait_overflows, wait_overflows_at, Op, OP_SIZE};
use crate::vm::ByteVec;
use core::time::Duration;
use std::collections::HashSet;
use vstd::prelude::*;

verus! {

/// The number of chunks a stream receives or sends at once.
pub const CHUNK_LEN: usize = 64;

/// A message for the task that drives one send stream.
#[derive(Clone, Copy, Debug, PartialEq, Eq, Structural)]
pub enum Message {
    Send(usize),
    Reset(u64),
    Finish,
    Await,
}

/// What the server waits for after an operation.
#[derive(Clone, Copy, Debug, PartialEq, Eq, Structural)]
pub enum OpResult {
    /// Nothing: the next operation may follow at once.
    Continue,
    /// The sleep that the operation started.
    Sleep,
    /// A stream task that was asked to report back.
    Await,
}

/// What the server is to do for an operation.
#[derive(Clone, Copy, Debug)]
pub enum Action {
    /// Reset the sleep to end after `timeout`.
    Sleep(Duration),
    /// Open a bidirectional stream and start a task for its sending half.
    OpenBidirectional(u64),
    /// Open a send stream and start a task for it.
    OpenSend(u64),
    /// Hand `message` to the task of stream `id`.
    Deliver(u64, Message),
}

/// The stream tasks of a connection, by stream id.
#[derive(Debug)]
pub struct StreamSet {
    tasks: HashSet<u64>,
}

/// What applying `op` to the tasks `ids` gives: the tasks after it, what
/// to wait for and what to do; `None` for an operation on a stream without
/// a task.
pub open spec fn applied(ids: Set<u64>, op: Op) -> Option<(Set<u64>, OpResult, Action)> {
    match op {
        Op::Wait { timeout } => Some((ids, OpResult::Sleep, Action::Sleep(timeout))),
        Op::BidirectionalStream { id } => Some((ids.insert(id), OpResult::Continue, Action::OpenBidirectional(id))),
        Op::UnidirectionalStream { id } => Some((ids.insert(id), OpResult::Continue, Action::OpenSend(id))),
        Op::Send { id, len } => if ids.contains(id) {
            Some((ids, OpResult::Continue, Action::Deliver(id, Message::Send(len))))
        } else {
            None
        },
        Op::Reset { id, err } => if ids.contains(id) {
            Some((ids, OpResult::Continue, Action::Deliver(id, Message::Reset(err))))
        } else {
            None
        },
        Op::Finish { id } => if ids.contains(id) {
            Some((ids, OpResult::Continue, Action::Deliver(id, Message::Finish)))
        } else {
            None
        },
        Op::Await { id } => if ids.contains(id) {
            Some((ids, OpResult::Await, Action::Deliver(id, Message::Await)))
        } else {
            None
        },
        Op::Trace { .. } => None,
    }
}

impl StreamSet {
    /// The ids of the streams that have a task.
    pub closed spec fn ids(&self) -> Set<u64> {
        self.tasks@
    }

    /// A connection without stream tasks.
    pub fn new() -> (s: Self)
        ensures
            s.ids() == Set::<u64>::empty(),
    {
        StreamSet { tasks: HashSet::new() }
    }

    /// Records the task of a send stream that the peer opened.
    pub fn insert_send_stream(&mut self, id: u64)
        ensures
            final(self).ids() == old(self).ids().insert(id),
    {
        self.tasks.insert(id);
    }

    /// Applies `op`: the result says what to wait for and what to do, or is
    /// `Err` for an operation on a stream without a task, which leaves the
    /// tasks as they are. Trace events are not implemented.
    pub fn apply(&mut self, op: Op) -> (r: Result<(OpResult, Action), ()>)
        requires
            !(op is Trace),
        ensures
            match applied(old(self).ids(), op) {
                Some((ids, w, a)) => r matches Ok((w2, a2)) && w2 == w && a2 == a && final(self).ids() == ids,
                None => r is Err && final(self).ids() == old(self).ids(),
            },
    {
        match op {
            Op::Wait { timeout } => Ok((OpResult::Sleep, Action::Sleep(timeout))),
            Op::BidirectionalStream { id } => {
                self.tasks.insert(id);
                Ok((OpResult::Continue, Action::OpenBidirectional(id)))
            },
            Op::UnidirectionalStream { id } => {
                self.tasks.insert(id);
                Ok((OpResult::Continue, Action::OpenSend(id)))
            },
            Op::Send { id, len } => self.deliver(id, Message::Send(len), OpResult::Continue),
            Op::Reset { id, err } => self.deliver(id, Message::Reset(err), OpResult::Continue),
            Op::Finish { id } => self.deliver(id, Message::Finish, OpResult::Continue),
            Op::Await { id } => self.deliver(id, Message::Await, OpResult::Await),
            Op::Trace { .. } => Err(()),
        }
    }

    fn deliver(&self, id: u64, m: Message, w: OpResult) -> (r: Result<(OpResult, Action), ()>)
        ensures
            self.ids().contains(id) ==> r == Ok::<(OpResult, Action), ()>((w, Action::Deliver(id, m))),
            !self.ids().contains(id) ==> r is Err,
    {
        if self.tasks.contains(&id) {
            Ok((w, Action::Deliver(id, m)))
        } else {
            Err(())
        }
    }
}

/// The control stream of a connection: the bytes received and not yet
/// decoded, and an operation put back because its stream had no task yet.
#[derive(Debug)]
pub struct Control {
    restored: Option<Op>,
    buffer: ByteVec,
}

impl Control {
    pub closed spec fn wf(&self) -> bool {
        self.buffer.wf()
    }

    /// The operation put back, if any.
    pub closed spec fn restored(&self) -> Option<Op> {
        self.restored
    }

    /// The bytes received and not yet decoded.
    pub closed spec fn received(&self) -> Seq<u8> {
        self.buffer@
    }

    pub fn new() -> (c: Self)
        ensures
            c.wf(),
            c.restored() is None,
            c.received() == Seq::<u8>::empty(),
    {
        Control { restored: None, buffer: ByteVec::default() }
    }

    /// Takes in bytes received on the control stream.
    pub fn on_receive(&mut self, chunk: bytes::Bytes)
        requires
            old(self).wf(),
            old(self).received().len() + bytes_view(chunk).len() <= usize::MAX,
        ensures
            final(self).wf(),
            final(self).received() == old(self).received() + bytes_view(chunk),
            final(self).restored() == old(self).restored(),
    {
        self.buffer.push(chunk);
    }

    /// Whether the next operation to decode is a wait whose duration cannot
    /// be represented; `op` must not be called then.
    pub fn overflow_ahead(&self) -> (b: bool)
        requires
            self.wf(),
        ensures
            b == (self.restored() is None && wait_overflows(self.received())),
    {
        if self.restored.is_some() {
            return false;
        }
        proof {
            assert(self.buffer@.skip(0) =~= self.buffer@);
        }
        wait_overflows_at(&self.buffer, 0)
    }

    /// The next operation: the one put back, or the next one decoded.
    pub fn op(&mut self) -> (r: Option<Op>)
        requires
            old(self).wf(),
            old(self).restored() is None ==> !wait_overflows(old(self).received()),
        ensures
            final(self).wf(),
            final(self).restored() is None,
            old(self).restored() is Some ==> r == old(self).restored() && final(self).received() == old(self).received(),
            old(self).restored() is None && old(self).received().len() < OP_SIZE ==> r is None
                && final(self).received() == old(self).received(),
            old(self).restored() is None && old(self).received().len() >= OP_SIZE ==> final(self).received()
                == old(self).received().skip(OP_SIZE as int) && op_decoded(
                r,
                op_tag(old(self).received()),
                op_a(old(self).received()),
                op_b(old(self).received()),
            ),
    {
        if let Some(op) = self.restored.take() {
            return Some(op);
        }
        Op::decode(&mut self.buffer)
    }

    /// Puts `op` back, to be returned by the next `op`.
    pub fn restore(&mut self, op: Op)
        requires
            old(self).restored() is None,
        ensures
            final(self).restored() == Some(op),
            final(self).received() == old(self).received(),
            final(self).wf() == old(self).wf(),
    {
        self.restored = Some(op);
    }
}

/// `op` is the next operation: the one put back, `restored`, or else one
/// decoded from the front of `bytes`.
pub open spec fn takes(restored: Option<Op>, bytes: Seq<u8>, op: Op) -> bool {
    match restored {
        Some(r) => op == r,
        None => bytes.len() >= OP_SIZE && !wait_overflows(bytes) && op_decoded(
            Some(op),
            op_tag(bytes),
            op_a(bytes),
            op_b(bytes),
        ),
    }
}

/// The bytes left once the next operation is taken.
pub open spec fn taken_rest(restored: Option<Op>, bytes: Seq<u8>) -> Seq<u8> {
    match restored {
        Some(_) => bytes,
        None => bytes.skip(OP_SIZE as int),
    }
}

/// The operation put back before the `n`-th operation is taken.
pub open spec fn restored_at(restored: Option<Op>, n: nat) -> Option<Op> {
    if n == 0 {
        restored
    } else {
        None
    }
}

/// Taking the operations `ops` in turn, from `restored` and then from
/// `bytes`, and applying them to the tasks `ids`, where each asks to
/// continue: the tasks and the bytes left afterwards, and the actions in
/// order; `None` when `ops` cannot be taken so.
pub open spec fn run_ops(ids: Set<u64>, restored: Option<Op>, bytes: Seq<u8>, ops: Seq<Op>) -> Option<
    (Set<u64>, Seq<u8>, Seq<Action>),
>
    decreases ops.len(),
{
    if ops.len() == 0 {
        Some((ids, bytes, Seq::<Action>::empty()))
    } else {
        match run_ops(ids, restored, bytes, ops.drop_last()) {
            None => None,
            Some((ids1, bytes1, acts)) => {
                let r1 = restored_at(restored, (ops.len() - 1) as nat);
                if takes(r1, bytes1, ops.last()) && !(ops.last() is Trace) {
                    match applied(ids1, ops.last()) {
                        Some((ids2, w, a)) => if w == OpResult::Continue {
                            Some((ids2, taken_rest(r1, bytes1), acts.push(a)))
                        } else {
                            None
                        },
                        None => None,
                    }
                } else {
                    None
                }
            },
        }
    }
}

/// How `drain` ends after the operations `ops` ran, with `op` the one it
/// stopped at, if any: `d` and `acts` are its result, and `ids2`,
/// `restored2` and `bytes2` the tasks, the operation put back and the
/// bytes left.
pub open spec fn drain_ends(
    ids: Set<u64>,
    restored: Option<Op>,
    bytes: Seq<u8>,
    ops: Seq<Op>,
    op: Op,
    d: Drained,
    acts: Seq<Action>,
    ids2: Set<u64>,
    restored2: Option<Op>,
    bytes2: Seq<u8>,
) -> bool {
    match run_ops(ids, restored, bytes, ops) {
        None => false,
        Some((ids1, bytes1, acts1)) => {
            let r1 = restored_at(restored, ops.len());
            match d {
                Drained::WaitOverflow => r1 is None && wait_overflows(bytes1) && acts == acts1 && ids2 == ids1
                    && restored2 is None && bytes2 == bytes1,
                Drained::Idle => {
                    &&& r1 is None
                    &&& !wait_overflows(bytes1)
                    &&& acts == acts1
                    &&& ids2 == ids1
                    &&& restored2 is None
                    &&& (bytes1.len() < OP_SIZE && bytes2 == bytes1 || bytes1.len() >= OP_SIZE && op_tag(bytes1) > 7
                        && bytes2 == bytes1.skip(OP_SIZE as int))
                },
                Drained::Trace(t) => t == op && takes(r1, bytes1, op) && op is Trace && acts == acts1 && ids2 == ids1
                    && restored2 == Some(op) && bytes2 == taken_rest(r1, bytes1),
                Drained::Restored => takes(r1, bytes1, op) && !(op is Trace) && applied(ids1, op) is None
                    && acts == acts1 && ids2 == ids1 && restored2 == Some(op) && bytes2 == taken_rest(r1, bytes1),
                Drained::Wait(w) => {
                    &&& takes(r1, bytes1, op)
                    &&& !(op is Trace)
                    &&& applied(ids1, op) matches Some((i, w2, a))
                    &&& w2 == w
                    &&& w != OpResult::Continue
                    &&& acts == acts1.push(a)
                    &&& ids2 == i
                    &&& restored2 is None
                    &&& bytes2 == taken_rest(r1, bytes1)
                },
            }
        },
    }
}

/// How a run of operations ended.
#[derive(Clone, Copy, Debug)]
pub enum Drained {
    /// No whole operation is left; nothing to wait for.
    Idle,
    /// The last operation asks to wait for `OpResult`.
    Wait(OpResult),
    /// An operation named a stream without a task; it is put back.
    Restored,
    /// A trace event, which is not implemented; it is put back.
    Trace(Op),
    /// A wait whose duration cannot be represented comes next.
    WaitOverflow,
}

/// Applies the operations of `control` to `streams` until one asks to
/// wait, one names a stream without a task (it is put back), or none is
/// left; the actions to carry out are returned in order.
pub fn drain(control: &mut Control, streams: &mut StreamSet) -> (r: (Drained, Vec<Action>))
    requires
        old(control).wf(),
    ensures
        final(control).wf(),
        final(control).received().len() <= old(control).received().len(),
        r.0 is Restored ==> final(control).restored() is Some,
        r.0 is Trace ==> final(control).restored() is Some,
        r.0 is Idle ==> final(control).restored() is None,
        r.0 is WaitOverflow ==> final(control).restored() is None && wait_overflows(final(control).received()),
        r.0 matches Drained::Trace(op) ==> op is Trace,
        r.0 matches Drained::Wait(w) ==> w != OpResult::Continue && r.1@.len() > 0,
        exists|ops: Seq<Op>, op: Op| #[trigger] drain_ends(
            old(streams).ids(),
            old(control).restored(),
            old(control).received(),
            ops,
            op,
            r.0,
            r.1@,
            final(streams).ids(),
            final(control).restored(),
            final(control).received(),
        ),
{
    let mut actions: Vec<Action> = Vec::new();
    let ghost mut ops: Seq<Op> = Seq::empty();
    loop
        invariant
            control.wf(),
            control.received().len() <= old(control).received().len(),
            run_ops(old(streams).ids(), old(control).restored(), old(control).received(), ops) == Some(
                (streams.ids(), control.received(), actions@),
            ),
            control.restored() == restored_at(old(control).restored(), ops.len()),
        decreases control.received().len() + if control.restored() is Some { 1int } else { 0int },
    {
        let ghost r1 = control.restored();
        let ghost b1 = control.received();
        if control.overflow_ahead() {
            let res = (Drained::WaitOverflow, actions);
            assert(drain_ends(old(streams).ids(), old(control).restored(), old(control).received(), ops, Op::Finish { id: 0 },
                res.0, res.1@, final(streams).ids(), final(control).restored(), final(control).received()));
            return res;
        }
        let op = match control.op() {
            None => {
                let res = (Drained::Idle, actions);
                assert(drain_ends(old(streams).ids(), old(control).restored(), old(control).received(), ops, Op::Finish { id: 0 },
                    res.0, res.1@, final(streams).ids(), final(control).restored(), final(control).received()));
                return res;
            },
            Some(op) => op,
        };
        assert(takes(r1, b1, op));
        assert(control.received() == taken_rest(r1, b1));
        if let Op::Trace { .. } = op {
            control.restore(op);
            let res = (Drained::Trace(op), actions);
            assert(drain_ends(old(streams).ids(), old(control).restored(), old(control).received(), ops, op,
                res.0, res.1@, final(streams).ids(), final(control).restored(), final(control).received()));
            return res;
        }
        match streams.apply(op) {
            Ok((OpResult::Continue, a)) => {
                actions.push(a);
                proof {
                    let ops2 = ops.push(op);
                    assert(ops2.drop_last() =~= ops);
                    ops = ops2;
                }
            },
            Ok((w, a)) => {
                actions.push(a);
                let res = (Drained::Wait(w), actions);
                assert(drain_ends(old(streams).ids(), old(control).restored(), old(control).received(), ops, op,
                    res.0, res.1@, final(streams).ids(), final(control).restored(), final(control).received()));
                return res;
            },
            Err(()) => {
                control.restore(op);
                let res = (Drained::Restored, actions);
                assert(drain_ends(old(streams).ids(), old(control).restored(), old(control).received(), ops, op,
                    res.0, res.1@, final(streams).ids(), final(control).restored(), final(control).received()));
                return res;
            },
        }
    }
}

} // verus!

verus! {

/// Resetting a stream that has a task hands that task, and no other, a
/// reset message carrying the operation's error code: the tasks stay as
/// they are and the server goes on at once. Two resets with different codes
/// deliver different messages, and a reset is never delivered as a finish.
/// A stream without a task cannot be reset.
pub proof fn law_reset_carries_error(ids: Set<u64>, id: u64, err: u64, other_err: u64)
    ensures
        ids.contains(id) ==> (applied(ids, Op::Reset { id, err }) matches Some(
            (ids2, w, Action::Deliver(to, Message::Reset(code))),
        ) && ids2 == ids && w == OpResult::Continue && to == id && code == err),
        ids.contains(id) && err != other_err ==> applied(ids, Op::Reset { id, err }) != applied(
            ids,
            Op::Reset { id, err: other_err },
        ),
        ids.contains(id) ==> applied(ids, Op::Reset { id, err }) != applied(ids, Op::Finish { id }),
        !ids.contains(id) ==> applied(ids, Op::Reset { id, err }) is None,
{
}

/// Each operation on an existing stream reaches the task of that stream
/// with its own message: a send carries its length, a finish ends the
/// stream, and only an await makes the server wait for the task; none of
/// them adds or drops a task. On a stream without a task each of them fails.
pub proof fn law_stream_ops_reach_their_task(ids: Set<u64>, id: u64, len: usize)
    ensures
        ids.contains(id) ==> applied(ids, Op::Send { id, len }) == Some(
            (ids, OpResult::Continue, Action::Deliver(id, Message::Send(len))),
        ),
        ids.contains(id) ==> applied(ids, Op::Finish { id }) == Some(
            (ids, OpResult::Continue, Action::Deliver(id, Message::Finish)),
        ),
        ids.contains(id) ==> applied(ids, Op::Await { id }) == Some(
            (ids, OpResult::Await, Action::Deliver(id, Message::Await)),
        ),
        !ids.contains(id) ==> applied(ids, Op::Send { id, len }) is None && applied(ids, Op::Finish { id }) is None
            && applied(ids, Op::Await { id }) is None,
{
}

/// Opening a stream starts its task, after which a reset, send, finish or
/// await on it is delivered to it; the tasks of other streams stay.
pub proof fn law_open_then_deliver(ids: Set<u64>, id: u64, unidirectional: bool, err: u64, len: usize)
    ensures
        ({
            let open = if unidirectional {
                Op::UnidirectionalStream { id }
            } else {
                Op::BidirectionalStream { id }
            };
            applied(ids, open) matches Some((ids2, w, a)) && ids2 == ids.insert(id) && w == OpResult::Continue
                && a == (if unidirectional {
                Action::OpenSend(id)
            } else {
                Action::OpenBidirectional(id)
            }) && applied(ids2, Op::Reset { id, err }) == Some(
                (ids2, OpResult::Continue, Action::Deliver(id, Message::Reset(err))),
            ) && applied(ids2, Op::Send { id, len }) == Some(
                (ids2, OpResult::Continue, Action::Deliver(id, Message::Send(len))),
            )
        }),
{
}

/// A wait neither needs nor changes a stream task: the server sleeps for
/// exactly the operation's timeout before it goes on.
pub proof fn law_wait_sleeps_for_timeout(ids: Set<u64>, timeout: Duration)
    ensures
        applied(ids, Op::Wait { timeout }) == Some((ids, OpResult::Sleep, Action::Sleep(timeout))),
{
}

} // verus!
