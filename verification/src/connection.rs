//! Runs the operations of a scenario connection over a transport.

use crate::op::ConnectionOp;
use crate::time::{duration_as_nanos};
use crate::{Error, Result};
use core::task::{Context, Poll};
use core::time::Duration;
use std::collections::{HashMap, HashSet};
use vstd::prelude::*;

pub mod multiplexed;
pub mod trace;

verus! {

broadcast use vstd::std_specs::hash::group_hash_axioms;

#[verifier::external_type_specification]
#[verifier::reject_recursive_types(T)]
pub struct ExPoll<T>(core::task::Poll<T>);

#[verifier::external_type_specification]
#[verifier::external_body]
pub struct ExContext<'a>(core::task::Context<'a>);

#[verifier::external_type_specification]
#[verifier::external_body]
pub struct ExSleep(tokio::time::Sleep);

#[verifier::external_type_specification]
#[verifier::external_body]
#[verifier::reject_recursive_types(P)]
pub struct ExPin<P>(core::pin::Pin<P>);

/// Wakes the task that `cx` belongs to (`cx.waker().wake_by_ref()`), so
/// that it is polled again.
#[verifier::external_body]
pub(crate) fn wake(cx: &mut Context) {
    cx.waker().wake_by_ref()
}

#[verifier::external_type_specification]
#[verifier::external_body]
pub struct ExInstant(tokio::time::Instant);

/// The instant `duration` from now (`Instant::now().checked_add`), or `None`
/// when it cannot be represented. It depends on the clock, so nothing is
/// stated of it.
#[verifier::external_body]
fn deadline_after(duration: Duration) -> Option<tokio::time::Instant> {
    tokio::time::Instant::now().checked_add(duration)
}

/// A timer that fires at `deadline` (`tokio::time::sleep_until`).
#[verifier::external_body]
fn sleep_until(deadline: tokio::time::Instant) -> core::pin::Pin<Box<tokio::time::Sleep>> {
    Box::pin(tokio::time::sleep_until(deadline))
}

/// Moves the deadline of `timer` to `deadline` (`Sleep::reset`).
#[verifier::external_body]
fn reset_sleep(timer: &mut core::pin::Pin<Box<tokio::time::Sleep>>, deadline: tokio::time::Instant) {
    tokio::time::Sleep::reset(timer.as_mut(), deadline)
}

/// Polls `timer` (`Future::poll`): `Ready` once its deadline has passed.
/// What comes back depends on the clock, so nothing is stated of it.
#[verifier::external_body]
fn poll_sleep(timer: &mut core::pin::Pin<Box<tokio::time::Sleep>>, cx: &mut Context) -> Poll<()> {
    core::future::Future::poll(timer.as_mut(), cx)
}

/// Which side of a connection opened a stream.
#[derive(Clone, Copy, Debug, PartialEq, Eq, Hash, Structural)]
pub enum Owner {
    Local,
    Remote,
}

/// The owner on the other side of the connection.
pub open spec fn flip(owner: Owner) -> Owner {
    match owner {
        Owner::Local => Owner::Remote,
        Owner::Remote => Owner::Local,
    }
}

impl core::ops::Not for Owner {
    type Output = Self;

    fn not(self) -> (r: Self::Output) {
        match self {
            Owner::Local => Owner::Remote,
            Owner::Remote => Owner::Local,
        }
    }
}

impl vstd::std_specs::ops::NotSpecImpl for Owner {
    open spec fn obeys_not_spec() -> bool {
        true
    }

    open spec fn not_req(self) -> bool {
        true
    }

    open spec fn not_spec(self) -> Owner {
        flip(self)
    }
}

impl Owner {
    /// The slot of this owner in a pair indexed by owner: 0 for `Local`,
    /// 1 for `Remote`.
    pub fn slot(self) -> (i: usize)
        ensures
            i == owner_slot(self),
    {
        match self {
            Owner::Local => 0,
            Owner::Remote => 1,
        }
    }
}

/// The slot of `owner` in a pair indexed by owner.
pub open spec fn owner_slot(owner: Owner) -> nat {
    match owner {
        Owner::Local => 0,
        Owner::Remote => 1,
    }
}

/// Collects the big-endian `u64` that prefixes a stream, over as many reads
/// as it takes.
#[derive(Clone, Debug)]
pub struct IdPrefixReader {
    bytes: [u8; 8],
    cursor: u8,
}

impl Default for IdPrefixReader {
    fn default() -> (r: Self)
        ensures
            r.wf(),
            r.filled() == 0,
            r.buffer().len() == 8,
    {
        IdPrefixReader { bytes: [0u8; 8], cursor: 0 }
    }
}

impl IdPrefixReader {
    /// The cursor stays inside the eight bytes.
    pub closed spec fn wf(&self) -> bool {
        self.cursor < 8
    }

    /// The number of bytes read so far.
    pub closed spec fn filled(&self) -> nat {
        self.cursor as nat
    }

    /// The eight bytes of the prefix buffer.
    pub closed spec fn buffer(&self) -> Seq<u8> {
        self.bytes@
    }

    /// The part of the buffer that the next read should fill.
    pub fn remaining(&mut self) -> (r: &mut [u8])
        requires
            old(self).wf(),
        ensures
            r@ == old(self).buffer().skip(old(self).filled() as int),
            r@.len() == 8 - old(self).filled(),
            final(self).wf(),
            final(self).filled() == old(self).filled(),
            final(self).buffer() == old(self).buffer().take(old(self).filled() as int) + final(r)@,
    {
        let cursor = self.cursor as usize;
        let all: &mut [u8] = &mut self.bytes;
        let (_, rest) = all.split_at_mut(cursor);
        rest
    }

    /// Records that `len` more bytes were read into `remaining`; once all
    /// eight are there, the prefix is returned.
    pub fn on_read(&mut self, len: usize) -> (r: Poll<u64>)
        requires
            old(self).wf(),
            old(self).filled() + len <= usize::MAX,
        ensures
            final(self).wf(),
            final(self).buffer() == old(self).buffer(),
            final(self).buffer().len() == 8,
            old(self).filled() + len >= 8 ==> r == Poll::Ready(crate::endian::be_value(old(self).buffer()) as u64)
                && final(self).filled() == old(self).filled(),
            old(self).filled() + len < 8 ==> r is Pending && final(self).filled() == old(self).filled() + len,
    {
        let cursor = self.cursor as usize + len;
        if cursor >= 8 {
            Poll::Ready(crate::endian::be_decode(&self.bytes))
        } else {
            self.cursor = cursor as u8;
            Poll::Pending
        }
    }
}

/// Parks and unparks the checkpoints that synchronize threads.
pub trait Checkpoints {
    /// The checkpoints unparked and not parked on since.
    spec fn released(&self) -> Set<u64>;

    /// `Ready` once checkpoint `id` has been unparked; parking on it uses
    /// the release up.
    fn park(&mut self, id: u64) -> (r: Poll<()>)
        ensures
            final(self).released() == old(self).released().remove(id),
            (r is Ready) == old(self).released().contains(id);

    /// Lets the threads parked on checkpoint `id` continue.
    fn unpark(&mut self, id: u64)
        ensures
            final(self).released() == old(self).released().insert(id);
}

impl Checkpoints for HashSet<u64> {
    open spec fn released(&self) -> Set<u64> {
        self@
    }

    /// A parked checkpoint is released once, and only if it was unparked.
    fn park(&mut self, id: u64) -> (r: Poll<()>) {
        if self.remove(&id) {
            Poll::Ready(())
        } else {
            Poll::Pending
        }
    }

    fn unpark(&mut self, id: u64) {
        self.insert(id);
    }
}

/// What a connection thread reports to its trace.
pub enum TraceEvent {
    /// An op is taken.
    Exec(ConnectionOp),
    /// Thread `.1` of scope `.0` is about to run.
    Enter(usize, usize),
    /// The thread entered last is done running for now.
    Exit,
    /// `.1` bytes were sent on stream `.0`.
    Send(u64, u64),
    /// `.1` bytes were received on stream `.0`.
    Receive(u64, u64),
    /// The peer's stream `.0` was accepted.
    Accept(u64),
    /// The trace event `.0` was reached.
    Trace(u64),
}

/// Observes what a connection thread does: each method reports one event.
pub trait Trace {
    /// The events reported so far, oldest first. The observers of this
    /// library define it; the default, no events, only lets code that Verus
    /// does not check implement the trait, and such an impl is not held to
    /// the methods' contracts.
    closed spec fn events(&self) -> Seq<TraceEvent> {
        Seq::empty()
    }

    fn exec(&mut self, op: &ConnectionOp)
        ensures
            final(self).events() == old(self).events().push(TraceEvent::Exec(*op));

    fn enter(&mut self, scope: usize, thread: usize)
        ensures
            final(self).events() == old(self).events().push(TraceEvent::Enter(scope, thread));

    fn exit(&mut self)
        ensures
            final(self).events() == old(self).events().push(TraceEvent::Exit);

    fn send(&mut self, stream_id: u64, len: u64)
        ensures
            final(self).events() == old(self).events().push(TraceEvent::Send(stream_id, len));

    fn receive(&mut self, stream_id: u64, len: u64)
        ensures
            final(self).events() == old(self).events().push(TraceEvent::Receive(stream_id, len));

    fn accept(&mut self, stream_id: u64)
        ensures
            final(self).events() == old(self).events().push(TraceEvent::Accept(stream_id));

    fn trace(&mut self, id: u64)
        ensures
            final(self).events() == old(self).events().push(TraceEvent::Trace(id));
}

/// The transport that a scenario connection runs over.
pub trait Connection {
    fn poll_open_bidirectional_stream(&mut self, id: u64, cx: &mut Context) -> Poll<Result<()>>;

    fn poll_open_send_stream(&mut self, id: u64, cx: &mut Context) -> Poll<Result<()>>;

    fn poll_accept_stream(&mut self, cx: &mut Context) -> Poll<Result<Option<u64>>>;

    fn poll_send(&mut self, owner: Owner, id: u64, bytes: u64, cx: &mut Context) -> Poll<Result<u64>>;

    fn poll_receive(&mut self, owner: Owner, id: u64, bytes: u64, cx: &mut Context) -> Poll<Result<u64>>;

    fn poll_send_finish(&mut self, owner: Owner, id: u64, cx: &mut Context) -> Poll<Result<()>>;

    fn poll_receive_finish(&mut self, owner: Owner, id: u64, cx: &mut Context) -> Poll<Result<()>>;

    /// Lets the transport do its own work; a transport without any is
    /// ready at once.
    fn poll_progress(&mut self, cx: &mut Context) -> (r: Poll<Result<()>>)
        default_ensures
            r == Poll::Ready(Ok::<(), Error>(())),
    {
        Poll::Ready(Ok(()))
    }

    /// Finishes the transport once the scenario is done; a transport with
    /// nothing to flush is done at once.
    fn poll_finish(&mut self, cx: &mut Context) -> (r: Poll<Result<()>>)
        default_ensures
            r == Poll::Ready(Ok::<(), Error>(())),
    {
        Poll::Ready(Ok(()))
    }
}

} // verus!

verus! {

/// The rate limits set on streams, by stream id: at most `.0` bytes per
/// period `.1`.
#[derive(Debug)]
pub struct Rates {
    pub send: HashMap<u64, (u64, Duration)>,
    pub receive: HashMap<u64, (u64, Duration)>,
}

impl Default for Rates {
    fn default() -> (r: Self)
        ensures
            r.send@ == Map::<u64, (u64, Duration)>::empty(),
            r.receive@ == Map::<u64, (u64, Duration)>::empty(),
    {
        Rates { send: HashMap::new(), receive: HashMap::new() }
    }
}

/// Paces transfers: a sleep timer and the bytes still allowed in the
/// current period.
#[derive(Debug)]
pub struct Timer {
    sleep: Option<core::pin::Pin<Box<tokio::time::Sleep>>>,
    is_armed: bool,
    window: u64,
}

impl Default for Timer {
    fn default() -> (t: Self)
        ensures
            !t.armed(),
            t.window() == 0,
    {
        Timer { sleep: None, is_armed: false, window: 0 }
    }
}

/// The direction of a paced transfer.
#[derive(Clone, Copy, Debug, PartialEq, Eq, Structural)]
pub enum Direction {
    Send,
    Receive,
}

impl Timer {
    /// Whether a sleep is under way.
    pub closed spec fn armed(&self) -> bool {
        self.is_armed
    }

    /// The bytes still allowed in the current period.
    pub closed spec fn window(&self) -> u64 {
        self.window
    }

    /// `Ready` unless a sleep is under way and has not ended yet; an ended
    /// sleep disarms the timer. A sleep without a deadline never ends.
    fn poll(&mut self, cx: &mut Context) -> (r: Poll<()>)
        ensures
            final(self).window() == old(self).window(),
            !old(self).armed() ==> r is Ready && !final(self).armed(),
            r is Pending ==> final(self).armed(),
            old(self).armed() && old(self).sleep is None ==> r is Pending && final(self).armed(),
            old(self).sleep is Some ==> final(self).sleep is Some,
            old(self).sleep is None ==> final(self).sleep is None,
            r is Ready ==> !final(self).armed(),
    {
        if !self.is_armed {
            return Poll::Ready(());
        }
        match &mut self.sleep {
            Some(timer) => {
                match poll_sleep(timer, cx) {
                    Poll::Ready(()) => {},
                    Poll::Pending => return Poll::Pending,
                }
                self.is_armed = false;
            },
            None => return Poll::Pending,
        }
        Poll::Ready(())
    }

    /// Starts a sleep of `duration`, reusing the timer when there is one.
    /// A deadline that cannot be represented is never reached: the timer
    /// then stays armed with no sleep to wait on.
    fn sleep(&mut self, duration: Duration)
        ensures
            final(self).armed(),
            final(self).window() == old(self).window(),
    {
        match deadline_after(duration) {
            Some(deadline) => match &mut self.sleep {
                Some(timer) => reset_sleep(timer, deadline),
                None => {
                    self.sleep = Some(sleep_until(deadline));
                },
            },
            None => {
                self.sleep = None;
            },
        }
        self.is_armed = true;
    }

    /// Moves up to `*remaining` bytes over stream `id` in `direction`, at most
    /// `rate.0` bytes per period `rate.1` when a rate is set. `Ready(Ok)`
    /// once nothing remains; `Pending` when the transport or the rate holds
    /// the transfer back. The ghost result is what was asked of the
    /// transport, call by call.
    fn transfer<C: Connection, T: Trace>(
        &mut self,
        remaining: &mut u64,
        rate: &Option<(u64, Duration)>,
        direction: Direction,
        conn: &mut C,
        trace: &mut T,
        owner: Owner,
        id: u64,
        cx: &mut Context,
    ) -> (r: (Poll<Result<()>>, Ghost<Seq<u64>>))
        ensures
            *final(remaining) <= *old(remaining),
            r.0 matches Poll::Ready(Ok(())) ==> *final(remaining) == 0 && final(self).window() == 0,
            *final(remaining) == 0 && *old(remaining) > 0 ==> r.0 matches Poll::Ready(Ok(())),
            transferred(old(trace).events(), final(trace).events(), direction, id, *old(remaining), *final(remaining), r.1@, *rate),
            *rate is None && *old(remaining) > 0 ==> r.1@.len() > 0,
    {
        let ghost e0 = trace.events();
        let ghost mut asked: Seq<u64> = Seq::empty();
        proof {
            assert(trace.events().skip(e0.len() as int) =~= Seq::<TraceEvent>::empty());
            assert(trace.events().subrange(0, e0.len() as int) =~= e0);
        }
        loop
            invariant
                *remaining <= *old(remaining),
                *old(remaining) == 0 ==> *remaining == 0,
                *old(remaining) > 0 ==> *remaining > 0,
                e0 == old(trace).events(),
                transferred(e0, trace.events(), direction, id, *old(remaining), *remaining, asked, *rate),
                asked.len() == trace.events().len() - e0.len(),
                *rate is None && *old(remaining) > 0 && *remaining == *old(remaining) ==> asked.len() == 0,
                *rate is None && *remaining < *old(remaining) ==> asked.len() > 0,
            decreases *remaining,
        {
            let rated = rate.is_some();
            if let Some((bytes, period)) = rate {
                if let Poll::Ready(()) = self.poll(cx) {
                    self.window = if *bytes < *remaining { *bytes } else { *remaining };
                    self.sleep(*period);
                }
                if self.window > *bytes {
                    self.window = *bytes;
                }
                if self.window == 0 {
                    return (Poll::Pending, Ghost(asked));
                }
            }
            let want = transfer_want(*remaining, rated, self.window);
            let ghost ev = trace.events();
            let ghost asked0 = asked;
            proof {
                asked = asked.push(want);
                assert(asked.drop_last() =~= asked0);
            }
            let result = transfer_once(direction, conn, trace, owner, id, want, cx);
            proof {
                lemma_transferred_step(e0, ev, trace.events(), direction, id, *old(remaining), *remaining, asked, *rate);
            }
            let amount = match result {
                Poll::Ready(Ok(amount)) => amount,
                Poll::Ready(Err(err)) => return (Poll::Ready(Err(err)), Ghost(asked)),
                Poll::Pending => return (Poll::Pending, Ghost(asked)),
            };
            let ghost before = *remaining;
            proof {
                assert(trace.events().drop_last() =~= ev);
            }
            let mut window = self.window;
            let done = apply_transferred(remaining, &mut window, amount, rated);
            self.window = window;
            proof {
                lemma_transferred_moved(e0, trace.events(), direction, id, *old(remaining), before, *remaining, asked, *rate, amount);
            }
            if done {
                self.window = 0;
                return (Poll::Ready(Ok(())), Ghost(asked));
            }
            if amount == 0 {
                return (Poll::Pending, Ghost(asked));
            }
        }
    }
}

/// What to ask of the transport: the bytes left, and with a rate no more
/// than the window allows.
fn transfer_want(remaining: u64, rated: bool, window: u64) -> (w: u64)
    ensures
        w == if rated && window < remaining { window } else { remaining },
{
    if rated && window < remaining {
        window
    } else {
        remaining
    }
}

/// Takes the `amount` bytes moved off `*remaining`, and with a rate off the
/// window too; `true` once nothing remains.
fn apply_transferred(remaining: &mut u64, window: &mut u64, amount: u64, rated: bool) -> (done: bool)
    ensures
        *final(remaining) == if amount < *old(remaining) { (*old(remaining) - amount) as u64 } else { 0 },
        *final(window) == if !rated {
            *old(window)
        } else if amount < *old(window) {
            (*old(window) - amount) as u64
        } else {
            0
        },
        done == (*final(remaining) == 0),
{
    let taken = if amount < *remaining { amount } else { *remaining };
    *remaining = *remaining - taken;
    if rated {
        *window = if amount < *window { *window - amount } else { 0 };
    }
    *remaining == 0
}

/// The event that reports `n` bytes moved over stream `id` in `direction`.
pub open spec fn moved_event(direction: Direction, id: u64, n: u64) -> TraceEvent {
    match direction {
        Direction::Send => TraceEvent::Send(id, n),
        Direction::Receive => TraceEvent::Receive(id, n),
    }
}

/// The byte count that a send or receive event reports.
pub open spec fn event_amount(e: TraceEvent) -> u64 {
    match e {
        TraceEvent::Send(_, n) => n,
        TraceEvent::Receive(_, n) => n,
        _ => 0,
    }
}

/// What is left of `rem` once the amounts reported by `t` are taken off it
/// in turn, none going below zero.
pub open spec fn after_moves(rem: nat, t: Seq<TraceEvent>) -> nat
    decreases t.len(),
{
    if t.len() == 0 {
        rem
    } else {
        let r = after_moves(rem, t.drop_last());
        if (event_amount(t.last()) as nat) < r {
            (r - event_amount(t.last())) as nat
        } else {
            0
        }
    }
}

/// The events from `before` to `after` report, in order, the bytes moved
/// over stream `id` in `direction`, which took `rem` down to `left`; call
/// `i` asked the transport for `asked[i]`: what was left then, or with a
/// rate `(b, _)` no more than that and no more than `b`. The last call may
/// have reported nothing.
pub open spec fn transferred(
    before: Seq<TraceEvent>,
    after: Seq<TraceEvent>,
    direction: Direction,
    id: u64,
    rem: u64,
    left: u64,
    asked: Seq<u64>,
    rate: Option<(u64, Duration)>,
) -> bool {
    let t = after.skip(before.len() as int);
    &&& before.len() <= after.len()
    &&& after.subrange(0, before.len() as int) == before
    &&& forall|i: int| 0 <= i < t.len() ==> #[trigger] t[i] == moved_event(direction, id, event_amount(t[i]))
    &&& left == after_moves(rem as nat, t)
    &&& t.len() <= asked.len() <= t.len() + 1
    &&& forall|i: int| 0 <= i < asked.len() ==> match rate {
        None => #[trigger] asked[i] == after_moves(rem as nat, t.take(i)),
        Some((b, _)) => asked[i] <= b && asked[i] <= after_moves(rem as nat, t.take(i)),
    }
}

/// Asking for `asked.last()` keeps `transferred` whatever the call
/// reported.
proof fn lemma_transferred_step(
    e0: Seq<TraceEvent>,
    ev: Seq<TraceEvent>,
    e1: Seq<TraceEvent>,
    direction: Direction,
    id: u64,
    rem: u64,
    left: u64,
    asked: Seq<u64>,
    rate: Option<(u64, Duration)>,
)
    requires
        asked.len() > 0,
        transferred(e0, ev, direction, id, rem, left, asked.drop_last(), rate),
        asked.drop_last().len() == ev.len() - e0.len(),
        match rate {
            None => asked.last() == left,
            Some((b, _)) => asked.last() <= b && asked.last() <= left,
        },
        e1 == ev || (exists|n: u64| e1 == ev.push(moved_event(direction, id, n))),
    ensures
        e1 == ev ==> transferred(e0, e1, direction, id, rem, left, asked, rate),
{
    let t = ev.skip(e0.len() as int);
    assert(t.take(t.len() as int) =~= t);
    assert forall|i: int| 0 <= i < asked.len() implies match rate {
        None => #[trigger] asked[i] == after_moves(rem as nat, t.take(i)),
        Some((b, _)) => asked[i] <= b && asked[i] <= after_moves(rem as nat, t.take(i)),
    } by {
        if i < asked.len() - 1 {
            assert(asked[i] == asked.drop_last()[i]);
        }
    }
}

/// A call that reported `amount` moved keeps `transferred` with the amount
/// taken off what is left.
proof fn lemma_transferred_moved(
    e0: Seq<TraceEvent>,
    e1: Seq<TraceEvent>,
    direction: Direction,
    id: u64,
    rem: u64,
    before: u64,
    left: u64,
    asked: Seq<u64>,
    rate: Option<(u64, Duration)>,
    amount: u64,
)
    requires
        asked.len() > 0,
        e1.len() > e0.len(),
        e1.last() == moved_event(direction, id, amount),
        transferred(e0, e1.drop_last(), direction, id, rem, before, asked.drop_last(), rate),
        asked.drop_last().len() == e1.drop_last().len() - e0.len(),
        match rate {
            None => asked.last() == before,
            Some((b, _)) => asked.last() <= b && asked.last() <= before,
        },
        left == if amount < before { (before - amount) as u64 } else { 0 },
    ensures
        transferred(e0, e1, direction, id, rem, left, asked, rate),
        asked.len() == e1.len() - e0.len(),
{
    let t0 = e1.drop_last().skip(e0.len() as int);
    let t = e1.skip(e0.len() as int);
    assert(t.drop_last() =~= t0);
    assert(e1.subrange(0, e0.len() as int) =~= e1.drop_last().subrange(0, e0.len() as int));
    assert(t.take(t0.len() as int) =~= t0);
    assert forall|i: int| 0 <= i < t.len() implies #[trigger] t[i] == moved_event(direction, id, event_amount(t[i])) by {
        if i < t.len() - 1 {
            assert(t[i] == t0[i]);
        }
    }
    assert forall|i: int| 0 <= i < asked.len() implies match rate {
        None => #[trigger] asked[i] == after_moves(rem as nat, t.take(i)),
        Some((b, _)) => asked[i] <= b && asked[i] <= after_moves(rem as nat, t.take(i)),
    } by {
        if i < asked.len() - 1 {
            assert(asked[i] == asked.drop_last()[i]);
            assert(t.take(i) =~= t0.take(i));
        } else {
            assert(t.take(i) =~= t0);
        }
    }
}

/// Moves up to `bytes` bytes over stream `id` once and reports the amount
/// moved to `trace`; nothing is reported unless the transport moved bytes.
fn transfer_once<C: Connection, T: Trace>(
    direction: Direction,
    conn: &mut C,
    trace: &mut T,
    owner: Owner,
    id: u64,
    bytes: u64,
    cx: &mut Context,
) -> (r: Poll<Result<u64>>)
    ensures
        r matches Poll::Ready(Ok(n)) ==> final(trace).events() == old(trace).events().push(moved_event(direction, id, n)),
        !(r matches Poll::Ready(Ok(_))) ==> final(trace).events() == old(trace).events(),
{
    match direction {
        Direction::Send => {
            let r = conn.poll_send(owner, id, bytes, cx);
            if let Poll::Ready(Ok(amount)) = r {
                trace.send(id, amount);
            }
            r
        },
        Direction::Receive => {
            let r = conn.poll_receive(owner, id, bytes, cx);
            if let Poll::Ready(Ok(amount)) = r {
                trace.receive(id, amount);
            }
            r
        },
    }
}

} // verus!

verus! {

/// The operation that a thread is waiting on.
#[derive(Debug)]
pub enum Op<'a> {
    Sleep,
    OpenBidirectionalStream { id: u64 },
    OpenSendStream { id: u64 },
    Send { id: u64, remaining: u64, rate: Option<(u64, Duration)> },
    SendFinish { id: u64 },
    Receive { id: u64, remaining: u64, rate: Option<(u64, Duration)> },
    ReceiveFinish { id: u64 },
    Wait { checkpoint: u64 },
    Scope { threads: Vec<Thread<'a>> },
}

/// A sequence of connection operations, run one after the other.
#[derive(Debug)]
pub struct Thread<'a> {
    ops: &'a [ConnectionOp],
    index: usize,
    op: Option<Op<'a>>,
    timer: Timer,
    owner: Owner,
}

/// The operation that a thread waits on after taking `op`, given the rates
/// `send` and `receive` set so far; `None` when `op` completes at once.
pub open spec fn awaited_op(op: ConnectionOp, send: Map<u64, (u64, Duration)>, receive: Map<u64, (u64, Duration)>) -> Option<SpecOp> {
    match op {
        ConnectionOp::Sleep { .. } => Some(SpecOp::Sleep),
        ConnectionOp::BidirectionalStream { stream_id } => Some(SpecOp::OpenBidirectionalStream { id: stream_id }),
        ConnectionOp::SendStream { stream_id } => Some(SpecOp::OpenSendStream { id: stream_id }),
        ConnectionOp::Send { stream_id, bytes } => Some(SpecOp::Send { id: stream_id, remaining: bytes, rate: rate_of(send, stream_id) }),
        ConnectionOp::SendFinish { stream_id } => Some(SpecOp::SendFinish { id: stream_id }),
        ConnectionOp::SendRate { .. } => None,
        ConnectionOp::Receive { stream_id, bytes } => Some(SpecOp::Receive { id: stream_id, remaining: bytes, rate: rate_of(receive, stream_id) }),
        ConnectionOp::ReceiveAll { stream_id } => Some(SpecOp::Receive { id: stream_id, remaining: u64::MAX, rate: rate_of(receive, stream_id) }),
        ConnectionOp::ReceiveFinish { stream_id } => Some(SpecOp::ReceiveFinish { id: stream_id }),
        ConnectionOp::ReceiveRate { .. } => None,
        ConnectionOp::Park { checkpoint } => Some(SpecOp::Wait { checkpoint }),
        ConnectionOp::Unpark { .. } => None,
        ConnectionOp::Trace { .. } => None,
        ConnectionOp::Scope { threads } => if threads@.len() == 0 {
            None
        } else {
            Some(SpecOp::Scope { count: threads@.len() })
        },
    }
}

/// The rate set on stream `id`, if any.
pub open spec fn rate_of(rates: Map<u64, (u64, Duration)>, id: u64) -> Option<(u64, Duration)> {
    if rates.contains_key(id) {
        Some(rates[id])
    } else {
        None
    }
}

/// What an awaited operation is, with a scope reduced to its thread count.
pub enum SpecOp {
    Sleep,
    OpenBidirectionalStream { id: u64 },
    OpenSendStream { id: u64 },
    Send { id: u64, remaining: u64, rate: Option<(u64, Duration)> },
    SendFinish { id: u64 },
    Receive { id: u64, remaining: u64, rate: Option<(u64, Duration)> },
    ReceiveFinish { id: u64 },
    Wait { checkpoint: u64 },
    Scope { count: nat },
}

impl<'a> Op<'a> {
    /// What this operation is, with a scope reduced to its thread count.
    pub closed spec fn spec(&self) -> SpecOp {
        match self {
            Op::Sleep => SpecOp::Sleep,
            Op::OpenBidirectionalStream { id } => SpecOp::OpenBidirectionalStream { id: *id },
            Op::OpenSendStream { id } => SpecOp::OpenSendStream { id: *id },
            Op::Send { id, remaining, rate } => SpecOp::Send { id: *id, remaining: *remaining, rate: *rate },
            Op::SendFinish { id } => SpecOp::SendFinish { id: *id },
            Op::Receive { id, remaining, rate } => SpecOp::Receive { id: *id, remaining: *remaining, rate: *rate },
            Op::ReceiveFinish { id } => SpecOp::ReceiveFinish { id: *id },
            Op::Wait { checkpoint } => SpecOp::Wait { checkpoint: *checkpoint },
            Op::Scope { threads } => SpecOp::Scope { count: threads@.len() },
        }
    }
}

/// How taking `op` changes the rates: a rate operation sets the rate of its
/// stream, any other leaves them as they were.
pub open spec fn rates_after(op: ConnectionOp, send: Map<u64, (u64, Duration)>, receive: Map<u64, (u64, Duration)>) -> (Map<u64, (u64, Duration)>, Map<u64, (u64, Duration)>) {
    match op {
        ConnectionOp::SendRate { stream_id, bytes, period } => (send.insert(stream_id, (bytes, period)), receive),
        ConnectionOp::ReceiveRate { stream_id, bytes, period } => (send, receive.insert(stream_id, (bytes, period))),
        _ => (send, receive),
    }
}

impl<'a> Thread<'a> {
    /// Starts a thread at the first of `ops`.
    pub fn new(ops: &'a [ConnectionOp], owner: Owner) -> (t: Self)
        ensures
            t.ops() == ops@,
            t.position() == 0,
            t.awaiting() is None,
            t.owner() == owner,
    {
        Thread { ops, index: 0, op: None, timer: Timer::default(), owner }
    }

    /// The operations of the thread.
    pub closed spec fn ops(&self) -> Seq<ConnectionOp> {
        self.ops@
    }

    /// The number of operations taken so far.
    pub closed spec fn position(&self) -> nat {
        self.index as nat
    }

    /// The operation being waited on, if any.
    pub closed spec fn awaiting(&self) -> Option<SpecOp> {
        match self.op {
            Some(op) => Some(op.spec()),
            None => None,
        }
    }

    /// The side the thread runs for.
    pub closed spec fn owner(&self) -> Owner {
        self.owner
    }

    /// Every operation was taken and none is being waited on.
    pub open spec fn done(&self) -> bool {
        self.position() >= self.ops().len() && self.awaiting() is None
    }

    /// Takes `op`: records what the thread now waits on, applies rate
    /// settings, reports traces and releases unparked checkpoints.
    fn on_op<T: Trace, Ch: Checkpoints>(
        &mut self,
        op: &'a ConnectionOp,
        trace: &mut T,
        checkpoints: &mut Ch,
        rates: &mut Rates,
        cx: &mut Context,
    )
        requires
            old(self).op is None,
            old(self).index <= old(self).ops@.len(),
            op_height(*op) <= ops_height(old(self).ops@),
        ensures
            final(self).wf(),
            final(self).ops == old(self).ops,
            final(self).index == old(self).index,
            final(self).owner == old(self).owner,
            final(self).awaiting() == awaited_op(*op, old(rates).send@, old(rates).receive@),
            (final(rates).send@, final(rates).receive@) == rates_after(*op, old(rates).send@, old(rates).receive@),
            *op matches ConnectionOp::Unpark { checkpoint }
                ==> final(checkpoints).released() == old(checkpoints).released().insert(checkpoint),
            !(*op is Unpark) ==> *final(checkpoints) == *old(checkpoints),
            final(trace).events() == old(trace).events().push(TraceEvent::Exec(*op)) + match *op {
                ConnectionOp::Trace { trace_id } => seq![TraceEvent::Trace(trace_id)],
                _ => Seq::<TraceEvent>::empty(),
            },
            adds_no_accept(old(trace).events(), final(trace).events()),
    {
        let ghost e0 = trace.events();
        trace.exec(op);
        let ghost e1 = trace.events();
        proof {
            lemma_adds_no_accept_refl(e0);
            lemma_adds_no_accept_push(e0, e0, TraceEvent::Exec(*op));
        }
        match op {
            ConnectionOp::Sleep { amount } => {
                self.timer.sleep(*amount);
                self.op = Some(Op::Sleep);
            },
            ConnectionOp::BidirectionalStream { stream_id } => {
                self.op = Some(Op::OpenBidirectionalStream { id: *stream_id });
            },
            ConnectionOp::SendStream { stream_id } => {
                self.op = Some(Op::OpenSendStream { id: *stream_id });
            },
            ConnectionOp::Send { stream_id, bytes } => {
                let rate = lookup_rate(&rates.send, *stream_id);
                self.op = Some(Op::Send { id: *stream_id, remaining: *bytes, rate });
            },
            ConnectionOp::SendFinish { stream_id } => {
                self.op = Some(Op::SendFinish { id: *stream_id });
            },
            ConnectionOp::SendRate { stream_id, bytes, period } => {
                rates.send.insert(*stream_id, (*bytes, *period));
            },
            ConnectionOp::Receive { stream_id, bytes } => {
                let rate = lookup_rate(&rates.receive, *stream_id);
                self.op = Some(Op::Receive { id: *stream_id, remaining: *bytes, rate });
            },
            ConnectionOp::ReceiveAll { stream_id } => {
                let rate = lookup_rate(&rates.receive, *stream_id);
                self.op = Some(Op::Receive { id: *stream_id, remaining: u64::MAX, rate });
            },
            ConnectionOp::ReceiveFinish { stream_id } => {
                self.op = Some(Op::ReceiveFinish { id: *stream_id });
            },
            ConnectionOp::ReceiveRate { stream_id, bytes, period } => {
                rates.receive.insert(*stream_id, (*bytes, *period));
            },
            ConnectionOp::Trace { trace_id } => {
                trace.trace(*trace_id);
                assert(trace.events() =~= e1 + seq![TraceEvent::Trace(*trace_id)]);
                proof {
                    lemma_adds_no_accept_push(e0, e1, TraceEvent::Trace(*trace_id));
                }
            },
            ConnectionOp::Park { checkpoint } => {
                self.op = Some(Op::Wait { checkpoint: *checkpoint });
            },
            ConnectionOp::Unpark { checkpoint } => {
                checkpoints.unpark(*checkpoint);
                wake(cx);
            },
            ConnectionOp::Scope { threads } => {
                if threads.len() != 0 {
                    proof {
                        lemma_scope_children_height(*op);
                    }
                    let mut children: Vec<Thread<'a>> = Vec::new();
                    let mut i: usize = 0;
                    while i < threads.len()
                        invariant
                            i <= threads@.len(),
                            children@.len() == i,
                            forall|j: int| 0 <= j < i ==> (#[trigger] children@[j]).ops@ == threads@[j]@
                                && children@[j].op is None && children@[j].index == 0,
                        decreases threads@.len() - i,
                    {
                        children.push(Thread::new(threads[i].as_slice(), self.owner));
                        i = i + 1;
                    }
                    self.op = Some(Op::Scope { threads: children });
                    assert forall|j: int| 0 <= j < children@.len() implies ops_height(
                        #[trigger] children@[j].ops@,
                    ) < ops_height(self.ops@) && children@[j].wf() by {
                        assert(children@[j].ops@ == threads@[j]@);
                    }
                }
            },
        }
    }
}

/// The rate set on stream `id` in `rates`, if any.
fn lookup_rate(rates: &HashMap<u64, (u64, Duration)>, id: u64) -> (r: Option<(u64, Duration)>)
    ensures
        r == rate_of(rates@, id),
{
    match rates.get(&id) {
        Some(rate) => Some(*rate),
        None => None,
    }
}

} // verus!

verus! {

impl<'a> Thread<'a> {
    /// Each scope thread runs operations nested strictly deeper than the
    /// thread's own, and is itself well formed.
    pub closed spec fn wf(&self) -> bool
        decreases self,
    {
        &&& self.index <= self.ops@.len()
        &&& match self.op {
            Some(Op::Scope { threads }) => forall|i: int|
                0 <= i < threads@.len() ==> ops_height(#[trigger] threads@[i].ops@) < ops_height(self.ops@)
                    && threads@[i].wf(),
            _ => true,
        }
    }

    /// Runs the thread as far as it can: `Ready(Ok)` once every operation is
    /// done, `Pending` while one waits on the transport, a timer or a
    /// checkpoint, `Ready(Err)` when the transport fails.
    fn poll<C: Connection, T: Trace, Ch: Checkpoints>(
        &mut self,
        conn: &mut C,
        trace: &mut T,
        checkpoints: &mut Ch,
        rates: &mut Rates,
        cx: &mut Context,
    ) -> (r: Poll<Result<()>>)
        requires
            old(self).wf(),
        ensures
            final(self).wf(),
            final(self).ops == old(self).ops,
            final(self).owner == old(self).owner,
            final(self).index >= old(self).index,
            r matches Poll::Ready(Ok(())) ==> final(self).done(),
            r is Pending ==> final(self).op is Some,
            old(self).done() ==> r == Poll::Ready(Ok::<(), Error>(())) && *final(self) == *old(self)
                && *final(checkpoints) == *old(checkpoints) && *final(rates) == *old(rates),
            adds_no_accept(old(trace).events(), final(trace).events()),
        decreases ops_height(old(self).ops@), 2nat,
    {
        proof {
            lemma_adds_no_accept_refl(trace.events());
        }
        loop
            invariant
                adds_no_accept(old(trace).events(), trace.events()),
                self.wf(),
                self.ops == old(self).ops,
                self.owner == old(self).owner,
                self.index >= old(self).index,
                old(self).done() ==> *self == *old(self) && *checkpoints == *old(checkpoints)
                    && *rates == *old(rates),
            decreases 2 * (self.ops@.len() - self.index) + if self.op is Some { 1int } else { 0int },
        {
            let ghost head = 2 * (self.ops@.len() - self.index) + if self.op is Some { 1int } else { 0int };
            while self.op.is_none()
                invariant
                    adds_no_accept(old(trace).events(), trace.events()),
                    self.wf(),
                    self.ops == old(self).ops,
                    self.owner == old(self).owner,
                    self.index >= old(self).index,
                    old(self).done() ==> *self == *old(self) && *checkpoints == *old(checkpoints)
                        && *rates == *old(rates),
                    2 * (self.ops@.len() - self.index) + (if self.op is Some { 1int } else { 0int }) <= head,
                decreases self.ops@.len() - self.index,
            {
                if self.index < self.ops.len() {
                    let op = &self.ops[self.index];
                    proof {
                        lemma_op_height_le(self.ops@, self.index as int);
                        lemma_scope_children_height(*op);
                    }
                    self.index = self.index + 1;
                    let ghost ev = trace.events();
                    self.on_op(op, trace, checkpoints, rates, cx);
                    proof {
                        lemma_adds_no_accept_trans(old(trace).events(), ev, trace.events());
                    }
                } else {
                    return Poll::Ready(Ok(()));
                }
            }
            let ghost ev = trace.events();
            let step = self.poll_op(conn, trace, checkpoints, rates, cx);
            proof {
                lemma_adds_no_accept_trans(old(trace).events(), ev, trace.events());
            }
            match step {
                Poll::Ready(Ok(())) => {},
                Poll::Ready(Err(err)) => return Poll::Ready(Err(err)),
                Poll::Pending => return Poll::Pending,
            }
            self.op = None;
        }
    }

    /// Advances the operation that the thread waits on.
    fn poll_op<C: Connection, T: Trace, Ch: Checkpoints>(
        &mut self,
        conn: &mut C,
        trace: &mut T,
        checkpoints: &mut Ch,
        rates: &mut Rates,
        cx: &mut Context,
    ) -> (r: Poll<Result<()>>)
        requires
            old(self).op is Some,
            old(self).wf(),
        ensures
            final(self).wf(),
            final(self).ops == old(self).ops,
            final(self).owner == old(self).owner,
            final(self).index == old(self).index,
            final(self).op is Some,
            match old(self).awaiting() {
                Some(SpecOp::Sleep) => {
                    &&& final(self).awaiting() == old(self).awaiting()
                    &&& (r is Pending || r == Poll::Ready(Ok::<(), Error>(())))
                    &&& !old(self).timer.armed() ==> r == Poll::Ready(Ok::<(), Error>(()))
                    &&& r is Pending ==> final(self).timer.armed()
                },
                Some(SpecOp::Send { id, remaining, rate }) => {
                    &&& final(self).awaiting() matches Some(SpecOp::Send { id: i, remaining: m, rate: t })
                        && i == id && t == rate && m <= remaining
                        && (r matches Poll::Ready(Ok(())) ==> m == 0)
                        && (m == 0 && remaining > 0 ==> r matches Poll::Ready(Ok(())))
                        && (exists|asked: Seq<u64>| #[trigger] transferred(
                            old(trace).events(),
                            final(trace).events(),
                            Direction::Send,
                            id,
                            remaining,
                            m,
                            asked,
                            rate,
                        ) && (rate is None && remaining > 0 ==> asked.len() > 0))
                },
                Some(SpecOp::Receive { id, remaining, rate }) => {
                    &&& final(self).awaiting() matches Some(SpecOp::Receive { id: i, remaining: m, rate: t })
                        && i == id && t == rate && m <= remaining
                        && (r matches Poll::Ready(Ok(())) ==> m == 0)
                        && (m == 0 && remaining > 0 ==> r matches Poll::Ready(Ok(())))
                        && (exists|asked: Seq<u64>| #[trigger] transferred(
                            old(trace).events(),
                            final(trace).events(),
                            Direction::Receive,
                            id,
                            remaining,
                            m,
                            asked,
                            rate,
                        ) && (rate is None && remaining > 0 ==> asked.len() > 0))
                },
                Some(SpecOp::Scope { count }) => {
                    &&& final(self).op matches Some(Op::Scope { threads }) && threads@.len() == count
                        && (r matches Poll::Ready(Ok(())) ==> forall|i: int| 0 <= i < threads@.len() ==> (
                        #[trigger] threads@[i]).done())
                        && (r is Pending ==> exists|i: int| 0 <= i < threads@.len() && !(
                        #[trigger] threads@[i]).done())
                },
                Some(SpecOp::Wait { checkpoint }) => {
                    &&& final(self).awaiting() == old(self).awaiting()
                    &&& (r is Pending || r == Poll::Ready(Ok::<(), Error>(())))
                    &&& (r is Ready <==> old(checkpoints).released().contains(checkpoint))
                    &&& final(checkpoints).released() == old(checkpoints).released().remove(checkpoint)
                },
                _ => final(self).awaiting() == old(self).awaiting(),
            },
            !(old(self).awaiting() matches Some(SpecOp::Wait { .. }))
                && !(old(self).awaiting() matches Some(SpecOp::Scope { .. }))
                ==> *final(checkpoints) == *old(checkpoints),
            adds_no_accept(old(trace).events(), final(trace).events()),
        decreases ops_height(old(self).ops@), 1nat,
    {
        proof {
            lemma_adds_no_accept_refl(trace.events());
        }
        let owner = self.owner;
        let op_idx = self.index;
        let ghost height = ops_height(self.ops@);
        let mut op = self.op.take();
        let r = match &mut op {
            Some(Op::Sleep) => {
                match self.timer.poll(cx) {
                    Poll::Ready(()) => Poll::Ready(Ok(())),
                    Poll::Pending => Poll::Pending,
                }
            },
            Some(Op::OpenBidirectionalStream { id }) => conn.poll_open_bidirectional_stream(*id, cx),
            Some(Op::OpenSendStream { id }) => conn.poll_open_send_stream(*id, cx),
            Some(Op::Send { id, remaining, rate }) => {
                let ghost e = trace.events();
                let ghost r0 = *remaining;
                let t = self.timer.transfer(remaining, rate, Direction::Send, conn, trace, owner, *id, cx);
                proof {
                    lemma_transferred_no_accept(e, trace.events(), Direction::Send, *id, r0, *remaining, t.1@, *rate);
                }
                t.0
            },
            Some(Op::SendFinish { id }) => conn.poll_send_finish(owner, *id, cx),
            Some(Op::Receive { id, remaining, rate }) => {
                let ghost e = trace.events();
                let ghost r0 = *remaining;
                let t = self.timer.transfer(remaining, rate, Direction::Receive, conn, trace, owner, *id, cx);
                proof {
                    lemma_transferred_no_accept(e, trace.events(), Direction::Receive, *id, r0, *remaining, t.1@, *rate);
                }
                t.0
            },
            Some(Op::ReceiveFinish { id }) => conn.poll_receive_finish(owner, *id, cx),
            Some(Op::Wait { checkpoint }) => {
                match checkpoints.park(*checkpoint) {
                    Poll::Ready(()) => Poll::Ready(Ok(())),
                    Poll::Pending => Poll::Pending,
                }
            },
            Some(Op::Scope { threads }) => poll_scope(threads, op_idx, conn, trace, checkpoints, rates, cx, Ghost(height)),
            None => Poll::Pending,
        };
        self.op = op;
        r
    }
}

/// `after` is `before` followed by events none of which is an accept.
pub open spec fn adds_no_accept(before: Seq<TraceEvent>, after: Seq<TraceEvent>) -> bool {
    &&& before.len() <= after.len()
    &&& after.subrange(0, before.len() as int) == before
    &&& forall|i: int| before.len() <= i < after.len() ==> !(#[trigger] after[i] is Accept)
}

/// `a` is the start of `b`.
pub open spec fn starts(a: Seq<TraceEvent>, b: Seq<TraceEvent>) -> bool {
    a.len() <= b.len() && b.subrange(0, a.len() as int) == a
}

proof fn lemma_starts_trans(a: Seq<TraceEvent>, b: Seq<TraceEvent>, c: Seq<TraceEvent>)
    requires
        starts(a, b),
        starts(b, c),
    ensures
        starts(a, c),
{
    assert(c.subrange(0, a.len() as int) =~= b.subrange(0, a.len() as int));
}

proof fn lemma_starts_push(a: Seq<TraceEvent>, b: Seq<TraceEvent>, e: TraceEvent)
    requires
        starts(a, b),
    ensures
        starts(a, b.push(e)),
{
    assert(b.push(e).subrange(0, a.len() as int) =~= b.subrange(0, a.len() as int));
}

proof fn lemma_adds_no_accept_refl(a: Seq<TraceEvent>)
    ensures
        adds_no_accept(a, a),
{
    assert(a.subrange(0, a.len() as int) =~= a);
}

proof fn lemma_adds_no_accept_trans(a: Seq<TraceEvent>, b: Seq<TraceEvent>, c: Seq<TraceEvent>)
    requires
        adds_no_accept(a, b),
        adds_no_accept(b, c),
    ensures
        adds_no_accept(a, c),
{
    assert(c.subrange(0, a.len() as int) =~= b.subrange(0, a.len() as int));
    assert forall|i: int| a.len() <= i < c.len() implies !(#[trigger] c[i] is Accept) by {
        if i < b.len() {
            assert(c[i] == b[i]);
        }
    }
}

proof fn lemma_adds_no_accept_push(a: Seq<TraceEvent>, b: Seq<TraceEvent>, e: TraceEvent)
    requires
        adds_no_accept(a, b),
        !(e is Accept),
    ensures
        adds_no_accept(a, b.push(e)),
{
    assert(b.push(e).subrange(0, a.len() as int) =~= b.subrange(0, a.len() as int));
    assert forall|i: int| a.len() <= i < b.push(e).len() implies !(#[trigger] b.push(e)[i] is Accept) by {
        if i < b.len() {
            assert(b.push(e)[i] == b[i]);
        }
    }
}

proof fn lemma_transferred_no_accept(
    before: Seq<TraceEvent>,
    after: Seq<TraceEvent>,
    direction: Direction,
    id: u64,
    rem: u64,
    left: u64,
    asked: Seq<u64>,
    rate: Option<(u64, Duration)>,
)
    requires
        transferred(before, after, direction, id, rem, left, asked, rate),
    ensures
        adds_no_accept(before, after),
{
    let t = after.skip(before.len() as int);
    assert forall|i: int| before.len() <= i < after.len() implies !(#[trigger] after[i] is Accept) by {
        assert(after[i] == t[i - before.len()]);
    }
}

/// The threads after position `i` are the same in `a` and `b`.
pub open spec fn same_after<'a>(a: Seq<Thread<'a>>, b: Seq<Thread<'a>>, i: int) -> bool {
    forall|j: int| i < j < a.len() ==> #[trigger] b[j] == a[j]
}

/// Polls every thread of a scope, in order: `Ready(Ok)` once all are done,
/// `Ready(Err)` at the first failure.
fn poll_scope<'a, C: Connection, T: Trace, Ch: Checkpoints>(
    threads: &mut Vec<Thread<'a>>,
    op_idx: usize,
    conn: &mut C,
    trace: &mut T,
    checkpoints: &mut Ch,
    rates: &mut Rates,
    cx: &mut Context,
    Ghost(height): Ghost<nat>,
) -> (r: Poll<Result<()>>)
    requires
        forall|i: int| 0 <= i < old(threads)@.len() ==> ops_height(#[trigger] old(threads)@[i].ops@) < height
            && old(threads)@[i].wf(),
    ensures
        final(threads)@.len() == old(threads)@.len(),
        forall|i: int| 0 <= i < final(threads)@.len() ==> ops_height(#[trigger] final(threads)@[i].ops@) < height
            && final(threads)@[i].wf(),
        r matches Poll::Ready(Ok(())) ==> forall|i: int| 0 <= i < final(threads)@.len() ==> (#[trigger] final(threads)@[i]).done(),
        r is Pending ==> exists|i: int| 0 <= i < final(threads)@.len() && !(#[trigger] final(threads)@[i]).done(),
        r matches Poll::Ready(Err(_)) ==> exists|i: int| 0 <= i < old(threads)@.len()
            && #[trigger] same_after(old(threads)@, final(threads)@, i),
        adds_no_accept(old(trace).events(), final(trace).events()),
    decreases height, 0nat,
{
    proof {
        lemma_adds_no_accept_refl(trace.events());
    }
    let mut all_ready = true;
    let mut failure: Option<Error> = None;
    let mut idx: usize = 0;
    let ghost start = threads@;
    while idx < threads.len()
        invariant_except_break
            failure is None,
        invariant
            adds_no_accept(old(trace).events(), trace.events()),
            idx <= threads@.len() == start.len(),
            forall|i: int| 0 <= i < threads@.len() ==> ops_height(#[trigger] threads@[i].ops@) < height
                && threads@[i].wf(),
            all_ready ==> forall|i: int| 0 <= i < idx ==> (#[trigger] threads@[i]).done(),
            !all_ready ==> exists|i: int| 0 <= i < idx && !(#[trigger] threads@[i]).done(),
            forall|j: int| idx < j < threads@.len() ==> #[trigger] threads@[j] == start[j],
        ensures
            adds_no_accept(old(trace).events(), trace.events()),
            idx <= threads@.len() == start.len(),
            forall|j: int| idx < j < threads@.len() ==> #[trigger] threads@[j] == start[j],
            failure is Some ==> idx < threads@.len(),
            forall|i: int| 0 <= i < threads@.len() ==> ops_height(#[trigger] threads@[i].ops@) < height
                && threads@[i].wf(),
            all_ready ==> forall|i: int| 0 <= i < idx ==> (#[trigger] threads@[i]).done(),
            !all_ready ==> exists|i: int| 0 <= i < idx && !(#[trigger] threads@[i]).done(),
            failure is None ==> idx == threads@.len(),
        decreases threads@.len() - idx,
    {
        let ghost e0 = trace.events();
        trace.enter(op_idx, idx);
        let ghost e1 = trace.events();
        let ghost before = threads@;
        let result = threads[idx].poll(conn, trace, checkpoints, rates, cx);
        proof {
            lemma_adds_no_accept_push(old(trace).events(), e0, TraceEvent::Enter(op_idx, idx as usize));
            lemma_adds_no_accept_trans(old(trace).events(), e1, trace.events());
            assert forall|i: int| 0 <= i < threads@.len() implies ops_height(#[trigger] threads@[i].ops@)
                < height && threads@[i].wf() by {
                if i != idx {
                    assert(threads@[i] == before[i]);
                }
            }
            assert forall|i: int| 0 <= i < idx implies threads@[i] == before[i] by {}
            assert forall|j: int| idx < j < threads@.len() implies #[trigger] threads@[j] == start[j] by {
                assert(threads@[j] == before[j]);
            }
            if !all_ready {
                let w = choose|i: int| 0 <= i < idx && !(#[trigger] before[i]).done();
                assert(threads@[w] == before[w]);
            }
        }
        let ghost e2 = trace.events();
        trace.exit();
        proof {
            lemma_adds_no_accept_push(old(trace).events(), e2, TraceEvent::Exit);
        }
        match result {
            Poll::Ready(Ok(())) => {},
            Poll::Ready(Err(err)) => {
                failure = Some(err);
                break;
            },
            Poll::Pending => {
                assert(!threads@[idx as int].done());
                all_ready = false;
            },
        }
        idx = idx + 1;
    }
    match failure {
        Some(err) => {
            assert(same_after(start, threads@, idx as int));
            Poll::Ready(Err(err))
        },
        None => if all_ready {
            Poll::Ready(Ok(()))
        } else {
            Poll::Pending
        },
    }
}

/// The nesting depth of scopes in `ops`.
pub open spec fn ops_height(ops: Seq<ConnectionOp>) -> nat
    decreases ops, 0nat,
{
    if ops.len() == 0 {
        0
    } else {
        let a = op_height(ops.last());
        let b = ops_height(ops.drop_last());
        if a > b {
            a
        } else {
            b
        }
    }
}

/// The nesting depth of scopes in `op`.
pub open spec fn op_height(op: ConnectionOp) -> nat
    decreases op, 1nat,
{
    match op {
        ConnectionOp::Scope { threads } => 1 + threads_height(threads@),
        _ => 0,
    }
}

/// The deepest nesting of scopes among the threads `ts`.
pub open spec fn threads_height(ts: Seq<Vec<ConnectionOp>>) -> nat
    decreases ts, 2nat,
{
    if ts.len() == 0 {
        0
    } else {
        let a = ops_height(ts.last()@);
        let b = threads_height(ts.drop_last());
        if a > b {
            a
        } else {
            b
        }
    }
}

proof fn lemma_op_height_le(ops: Seq<ConnectionOp>, k: int)
    requires
        0 <= k < ops.len(),
    ensures
        op_height(ops[k]) <= ops_height(ops),
    decreases ops.len(),
{
    if k < ops.len() - 1 {
        lemma_op_height_le(ops.drop_last(), k);
    }
}

proof fn lemma_threads_height_le(ts: Seq<Vec<ConnectionOp>>, k: int)
    requires
        0 <= k < ts.len(),
    ensures
        ops_height(ts[k]@) <= threads_height(ts),
    decreases ts.len(),
{
    if k < ts.len() - 1 {
        lemma_threads_height_le(ts.drop_last(), k);
    }
}

/// A scope is deeper than its threads.
proof fn lemma_threads_height_lt(op: ConnectionOp)
    ensures
        op matches ConnectionOp::Scope { threads } ==> threads_height(threads@) < op_height(op),
{
}

proof fn lemma_scope_children_height(op: ConnectionOp)
    ensures
        op matches ConnectionOp::Scope { threads } ==> forall|i: int|
            0 <= i < threads@.len() ==> ops_height(#[trigger] threads@[i]@) < op_height(op),
{
    if let ConnectionOp::Scope { threads } = op {
        assert forall|i: int| 0 <= i < threads@.len() implies ops_height(#[trigger] threads@[i]@) < op_height(op) by {
            lemma_threads_height_le(threads@, i);
        }
    }
}

} // verus!

verus! {

/// Runs a scenario connection: the local thread, and one thread for each
/// stream that the peer opens, once the stream is accepted.
pub struct Driver<'a, C: Connection> {
    pub connection: C,
    local_thread: Thread<'a>,
    local_rates: Rates,
    peer_streams: Vec<(Poll<()>, Thread<'a>)>,
    peer_rates: Rates,
    can_accept: bool,
    is_finished: bool,
}

/// What the driver answers once the transport made its own progress:
/// `Pending`, unless the transport failed.
fn progress_result(r: Poll<Result<()>>) -> (out: Poll<Result<()>>)
    ensures
        out == match r {
            Poll::Ready(Err(e)) => Poll::Ready(Err::<(), Error>(e)),
            _ => Poll::Pending,
        },
{
    match r {
        Poll::Ready(Err(err)) => Poll::Ready(Err(err)),
        _ => Poll::Pending,
    }
}

/// What a thread's poll means to the driver: `Ok(true)` when the thread is
/// done, `Ok(false)` when it waits, its error otherwise.
fn thread_outcome(r: Poll<Result<()>>) -> (out: Result<bool>)
    ensures
        out == match r {
            Poll::Ready(Ok(())) => Ok::<bool, Error>(true),
            Poll::Ready(Err(e)) => Err::<bool, Error>(e),
            Poll::Pending => Ok::<bool, Error>(false),
        },
{
    match r {
        Poll::Ready(Ok(())) => Ok(true),
        Poll::Ready(Err(err)) => Err(err),
        Poll::Pending => Ok(false),
    }
}

impl<'a, C: Connection> Driver<'a, C> {
    /// Every thread is well formed, and a finished driver has run them all.
    pub closed spec fn wf(&self) -> bool {
        &&& self.local_thread.wf()
        &&& forall|i: int| 0 <= i < self.peer_streams@.len() ==> (#[trigger] self.peer_streams@[i]).1.wf()
        &&& self.is_finished ==> self.all_done()
    }

    /// The local thread is done, and every peer stream was accepted and its
    /// thread is done.
    pub closed spec fn all_done(&self) -> bool {
        &&& self.local_thread.done()
        &&& forall|i: int| 0 <= i < self.peer_streams@.len() ==> (#[trigger] self.peer_streams@[i]).0 is Ready
            && self.peer_streams@[i].1.done()
    }

    /// What `all_done` and `finished` say, in terms of the public views.
    pub proof fn lemma_all_done(&self)
        ensures
            self.all_done() <==> (self.local_done() && forall|i: int| 0 <= i < self.peer_count()
                ==> #[trigger] self.accepted(i) && self.peer_done(i)),
            self.wf() && self.finished() ==> self.all_done(),
    {
        if self.local_done() && forall|i: int| 0 <= i < self.peer_count() ==> #[trigger] self.accepted(i) && self.peer_done(i) {
            assert forall|i: int| 0 <= i < self.peer_streams@.len() implies (#[trigger] self.peer_streams@[i]).0 is Ready
                && self.peer_streams@[i].1.done() by {
                assert(self.accepted(i));
            }
        }
        if self.all_done() {
            assert forall|i: int| 0 <= i < self.peer_count() implies #[trigger] self.accepted(i) && self.peer_done(i) by {
                assert(self.peer_streams@[i].0 is Ready);
            }
        }
    }

    /// The local thread took every op and waits on none.
    pub closed spec fn local_done(&self) -> bool {
        self.local_thread.done()
    }

    /// The thread of the peer's stream `i` took every op and waits on none.
    pub closed spec fn peer_done(&self, i: int) -> bool {
        self.peer_streams@[i].1.done()
    }

    /// Whether every operation has run and the driver only waits for the
    /// transport to finish.
    pub closed spec fn finished(&self) -> bool {
        self.is_finished
    }

    /// The threads, how far each has run, whether each peer stream was
    /// accepted, and the rates are those of `other`.
    pub closed spec fn same_threads(&self, other: Self) -> bool {
        &&& self.local_thread == other.local_thread
        &&& self.peer_streams@ == other.peer_streams@
        &&& self.local_rates == other.local_rates
        &&& self.peer_rates == other.peer_rates
    }

    /// The transport the driver runs over.
    pub closed spec fn transport(&self) -> C {
        self.connection
    }

    /// The number of streams that the peer is to open.
    pub closed spec fn peer_count(&self) -> nat {
        self.peer_streams@.len()
    }

    /// Whether the peer's stream `i` was accepted.
    pub closed spec fn accepted(&self, i: int) -> bool {
        self.peer_streams@[i].0 is Ready
    }

    /// Every accept among the events of `after` past those of `before`
    /// names a stream of the peer that is accepted, or no stream of the peer
    /// at all.
    pub open spec fn accepts_recorded(&self, before: Seq<TraceEvent>, after: Seq<TraceEvent>) -> bool {
        forall|k: int| before.len() <= k < after.len() ==> match #[trigger] after[k] {
            TraceEvent::Accept(id) => id < self.peer_count() ==> self.accepted(id as int),
            _ => true,
        }
    }

    /// Whether the driver still accepts the peer's streams.
    pub closed spec fn accepting(&self) -> bool {
        self.can_accept
    }

    /// Takes the transport's answer `r` to `poll_accept_stream`. Stream `id`
    /// of the peer is accepted and the task woken when it is one of the
    /// peer's streams, and an unknown stream is an error; either way the
    /// trace is told. `None` stops accepting, and an error is handed back.
    /// `Ok(true)` while the transport has not answered.
    fn on_accepted<T: Trace>(&mut self, r: Poll<Result<Option<u64>>>, trace: &mut T, cx: &mut Context) -> (out: Result<bool>)
        requires
            old(self).wf(),
            !old(self).finished(),
        ensures
            final(self).wf(),
            !final(self).finished(),
            final(self).peer_count() == old(self).peer_count(),
            final(self).local_thread == old(self).local_thread,
            final(self).local_rates == old(self).local_rates,
            final(self).peer_rates == old(self).peer_rates,
            forall|j: int| 0 <= j < old(self).peer_count() ==> (#[trigger] final(self).peer_streams@[j]).1
                == old(self).peer_streams@[j].1,
            match r {
                Poll::Ready(Ok(Some(id))) => {
                    &&& final(trace).events() == old(trace).events().push(TraceEvent::Accept(id))
                    &&& final(self).accepting() == old(self).accepting()
                    &&& if id < old(self).peer_count() {
                        &&& out == Ok::<bool, Error>(false)
                        &&& final(self).accepted(id as int)
                        &&& forall|j: int| 0 <= j < old(self).peer_count() && j != id ==> #[trigger] final(self).accepted(j)
                            == old(self).accepted(j)
                    } else {
                        out == Err::<bool, Error>(Error::UnknownPeerStream) && final(self).same_threads(*old(self))
                    }
                },
                Poll::Ready(Ok(None)) => {
                    &&& out == Ok::<bool, Error>(false)
                    &&& !final(self).accepting()
                    &&& final(self).same_threads(*old(self))
                    &&& final(trace).events() == old(trace).events()
                },
                Poll::Ready(Err(e)) => {
                    &&& out == Err::<bool, Error>(e)
                    &&& final(self).accepting() == old(self).accepting()
                    &&& final(self).same_threads(*old(self))
                    &&& final(trace).events() == old(trace).events()
                },
                Poll::Pending => {
                    &&& out == Ok::<bool, Error>(true)
                    &&& final(self).accepting() == old(self).accepting()
                    &&& final(self).same_threads(*old(self))
                    &&& final(trace).events() == old(trace).events()
                },
            },
    {
        match r {
            Poll::Ready(Ok(Some(id))) => {
                trace.accept(id);
                if id < self.peer_streams.len() as u64 {
                    let i = id as usize;
                    let ghost before = self.peer_streams@;
                    self.peer_streams[i].0 = Poll::Ready(());
                    proof {
                        assert forall|j: int| 0 <= j < self.peer_streams@.len() implies (
                        #[trigger] self.peer_streams@[j]).1 == before[j].1 && (j != i ==> self.peer_streams@[j].0
                            == before[j].0) by {}
                    }
                    wake(cx);
                    Ok(false)
                } else {
                    Err(Error::UnknownPeerStream)
                }
            },
            Poll::Ready(Ok(None)) => {
                self.can_accept = false;
                Ok(false)
            },
            Poll::Ready(Err(err)) => Err(err),
            Poll::Pending => Ok(true),
        }
    }

    /// The operations of the local thread.
    pub closed spec fn local_ops(&self) -> Seq<ConnectionOp> {
        self.local_thread.ops()
    }

    /// The operations run on the peer's stream `i`.
    pub closed spec fn peer_ops(&self, i: int) -> Seq<ConnectionOp> {
        self.peer_streams@[i].1.ops()
    }

    /// A driver at the start of `scenario`, over `connection`.
    pub fn new(scenario: &'a crate::scenario::Connection, connection: C) -> (d: Self)
        ensures
            d.wf(),
            !d.finished(),
            d.transport() == connection,
            d.local_ops() == scenario.ops@,
            d.peer_count() == scenario.peer_streams@.len(),
            forall|i: int| 0 <= i < d.peer_count() ==> !d.accepted(i) && d.peer_ops(i) == scenario.peer_streams@[i]@,
    {
        let mut peer_streams: Vec<(Poll<()>, Thread<'a>)> = Vec::new();
        let mut i: usize = 0;
        while i < scenario.peer_streams.len()
            invariant
                i <= scenario.peer_streams@.len(),
                peer_streams@.len() == i,
                forall|j: int| 0 <= j < i ==> (#[trigger] peer_streams@[j]).0 is Pending
                    && peer_streams@[j].1.ops() == scenario.peer_streams@[j]@
                    && peer_streams@[j].1.wf(),
            decreases scenario.peer_streams@.len() - i,
        {
            peer_streams.push((Poll::Pending, Thread::new(scenario.peer_streams[i].as_slice(), Owner::Remote)));
            i = i + 1;
        }
        Driver {
            connection,
            local_thread: Thread::new(scenario.ops.as_slice(), Owner::Local),
            local_rates: Rates::default(),
            peer_streams,
            peer_rates: Rates::default(),
            can_accept: true,
            is_finished: false,
        }
    }

    /// Runs every thread as far as it can. Once all are done the driver is
    /// finished and waits on the transport's `poll_finish`; until then it
    /// accepts the peer's streams and lets the transport make progress.
    pub fn poll<T: Trace, Ch: Checkpoints>(&mut self, trace: &mut T, checkpoints: &mut Ch, cx: &mut Context) -> (r: Poll<Result<()>>)
        requires
            old(self).wf(),
        ensures
            final(self).wf(),
            final(self).peer_count() == old(self).peer_count(),
            final(self).local_ops() == old(self).local_ops(),
            forall|i: int| 0 <= i < old(self).peer_count() ==> final(self).peer_ops(i) == old(self).peer_ops(i)
                && (old(self).accepted(i) ==> final(self).accepted(i)),
            old(self).finished() ==> final(self).finished(),
            r matches Poll::Ready(Ok(())) ==> final(self).finished(),
            final(self).finished() ==> final(self).all_done(),
            old(self).finished() ==> final(self).same_threads(*old(self)) && *final(checkpoints) == *old(checkpoints)
                && *final(trace) == *old(trace),
            old(self).all_done() ==> final(self).finished() && final(self).same_threads(*old(self))
                && *final(checkpoints) == *old(checkpoints),
            final(self).accepts_recorded(old(trace).events(), final(trace).events()),
            !old(self).finished() ==> final(trace).events().len() > old(trace).events().len()
                && final(trace).events()[old(trace).events().len() as int] == TraceEvent::Enter(0, 0),
    {
        if self.is_finished {
            return self.connection.poll_finish(cx);
        }
        let mut poll_accept = false;
        let mut all_ready = true;

        let ghost e0 = trace.events();
        proof {
            lemma_adds_no_accept_refl(e0);
            lemma_adds_no_accept_push(e0, e0, TraceEvent::Enter(0, 0));
        }
        trace.enter(0, 0);
        let ghost e1 = trace.events();
        let result = self.local_thread.poll(&mut self.connection, trace, checkpoints, &mut self.local_rates, cx);
        let ghost e2 = trace.events();
        trace.exit();
        proof {
            lemma_adds_no_accept_trans(e0, e1, e2);
            lemma_adds_no_accept_push(e0, e2, TraceEvent::Exit);
            assert(e1.subrange(0, e1.len() as int) =~= e1);
            assert(starts(e1, e2));
            lemma_starts_push(e1, e2, TraceEvent::Exit);
            assert(trace.events().subrange(0, e1.len() as int)[e0.len() as int] == trace.events()[e0.len() as int]);
        }

        match thread_outcome(result) {
            Ok(true) => {},
            Ok(false) => {
                all_ready = false;
            },
            Err(err) => return Poll::Ready(Err(err)),
        }

        let ghost start = self.peer_streams@;
        let mut idx: usize = 0;
        let mut failure: Option<Error> = None;
        while idx < self.peer_streams.len()
            invariant
                idx <= self.peer_streams@.len() == start.len(),
                self.local_thread.wf(),
                self.local_ops() == old(self).local_ops(),
                start == old(self).peer_streams@,
                poll_accept ==> !all_ready,
                all_ready ==> self.local_thread.done(),
                all_ready ==> forall|j: int| 0 <= j < idx ==> (#[trigger] self.peer_streams@[j]).0 is Ready
                    && self.peer_streams@[j].1.done(),
                forall|j: int| 0 <= j < self.peer_streams@.len() ==> (#[trigger] self.peer_streams@[j]).1.wf()
                    && self.peer_streams@[j].1.ops() == start[j].1.ops()
                    && self.peer_streams@[j].0 == start[j].0,
                !self.is_finished,
                e0 == old(trace).events(),
                e1 == e0.push(TraceEvent::Enter(0, 0)),
                starts(e1, trace.events()),
                adds_no_accept(e0, trace.events()),
                old(self).all_done() ==> all_ready && self.peer_streams@ == start
                    && self.local_thread == old(self).local_thread && *checkpoints == *old(checkpoints)
                    && self.local_rates == old(self).local_rates && self.peer_rates == old(self).peer_rates
                    && failure is None,
            ensures
                failure is None ==> idx == self.peer_streams@.len(),
                starts(e1, trace.events()),
                adds_no_accept(e0, trace.events()),
                old(self).all_done() ==> all_ready && self.peer_streams@ == start
                    && self.local_thread == old(self).local_thread && *checkpoints == *old(checkpoints)
                    && self.local_rates == old(self).local_rates && self.peer_rates == old(self).peer_rates
                    && failure is None,
            decreases self.peer_streams@.len() - idx,
        {
            let ghost before = self.peer_streams@;
            let entry = &mut self.peer_streams[idx];
            if let Poll::Pending = entry.0 {
                all_ready = false;
                poll_accept = self.can_accept;
            } else {
                let ghost f0 = trace.events();
                trace.enter(1, idx);
                let ghost f1 = trace.events();
                let result = entry.1.poll(&mut self.connection, trace, checkpoints, &mut self.peer_rates, cx);
                let ghost f2 = trace.events();
                trace.exit();
                proof {
                    lemma_adds_no_accept_push(e0, f0, TraceEvent::Enter(1, idx as usize));
                    lemma_adds_no_accept_trans(e0, f1, f2);
                    lemma_adds_no_accept_push(e0, f2, TraceEvent::Exit);
                    lemma_starts_push(e1, f0, TraceEvent::Enter(1, idx as usize));
                    assert(starts(f1, f2));
                    lemma_starts_trans(e1, f1, f2);
                    lemma_starts_push(e1, f2, TraceEvent::Exit);
                    assert forall|j: int| 0 <= j < self.peer_streams@.len() && j != idx implies self.peer_streams@[j]
                        == before[j] by {}
                }
                match thread_outcome(result) {
                    Ok(true) => {},
                    Ok(false) => {
                        all_ready = false;
                    },
                    Err(err) => {
                        failure = Some(err);
                        break;
                    },
                }
            }
            idx = idx + 1;
        }
        if let Some(err) = failure {
            return Poll::Ready(Err(err));
        }

        if poll_accept {
            let answer = self.connection.poll_accept_stream(cx);
            let ghost d1 = *self;
            let ghost g0 = trace.events();
            let ghost ans = answer;
            let outcome = self.on_accepted(answer, trace, cx);
            proof {
                if let Poll::Ready(Ok(Some(id))) = ans {
                    lemma_starts_push(e1, g0, TraceEvent::Accept(id));
                }
                assert forall|k: int| e0.len() <= k < trace.events().len() implies match #[trigger] trace.events()[k] {
                    TraceEvent::Accept(id) => id < self.peer_count() ==> self.accepted(id as int),
                    _ => true,
                } by {
                    if k < g0.len() {
                        assert(trace.events()[k] == g0[k]);
                    }
                }
                assert forall|i: int| 0 <= i < d1.peer_count() implies self.peer_ops(i) == d1.peer_ops(i)
                    && (d1.accepted(i) ==> self.accepted(i)) by {
                    assert(self.peer_streams@[i].1 == d1.peer_streams@[i].1);
                    if d1.accepted(i) {
                        match answer {
                            Poll::Ready(Ok(Some(id))) => {
                                if id < d1.peer_count() && i != id {
                                    assert(self.accepted(i) == d1.accepted(i));
                                }
                            },
                            _ => {},
                        }
                    }
                }
            }
            match outcome {
                Err(err) => return Poll::Ready(Err(err)),
                Ok(waiting) => {
                    if waiting {
                        all_ready = false;
                    }
                },
            }
        }

        assert forall|i: int| 0 <= i < old(self).peer_count() implies self.peer_ops(i) == old(self).peer_ops(i)
            && (old(self).accepted(i) ==> self.accepted(i)) by {
            assert(self.peer_streams@[i].1.ops() == start[i].1.ops());
        }
        if all_ready {
            self.is_finished = true;
            self.connection.poll_finish(cx)
        } else {
            let progress = self.connection.poll_progress(cx);
            progress_result(progress)
        }
    }
}

} // verus!

verus! {

/// The peer of the peer of a side is that side, and no side is its own
/// peer.
pub proof fn lemma_flip_involutive(o: Owner)
    ensures
        flip(flip(o)) == o,
        flip(o) != o,
{
}

/// A checkpoint that was unparked releases one park, and a second park
/// waits until it is unparked again; parking leaves other checkpoints as
/// they were.
pub proof fn lemma_park_after_unpark(unparked: Set<u64>, id: u64, other: u64)
    requires
        other != id,
    ensures
        unparked.insert(id).contains(id),
        !unparked.insert(id).remove(id).contains(id),
        unparked.insert(id).remove(id).contains(other) == unparked.contains(other),
{
}

} // verus!

verus! {

/// Once a thread has taken `ReceiveRate { stream_id, bytes, period }`, the
/// receive rates map `stream_id` to `(bytes, period)`, the send rates are
/// untouched, and a later `Receive` or `ReceiveAll` on that stream waits
/// throttled at exactly that rate; the rate of every other stream is as it
/// was, and the rate operation itself waits on nothing.
pub proof fn law_receive_rate_applies(
    send: Map<u64, (u64, Duration)>,
    receive: Map<u64, (u64, Duration)>,
    stream_id: u64,
    bytes: u64,
    period: Duration,
    amount: u64,
    other: u64,
)
    ensures
        ({
            let op = ConnectionOp::ReceiveRate { stream_id, bytes, period };
            let (s2, r2) = rates_after(op, send, receive);
            &&& r2.contains_key(stream_id)
            &&& r2[stream_id] == (bytes, period)
            &&& s2 == send
            &&& awaited_op(op, send, receive) is None
            &&& awaited_op(ConnectionOp::Receive { stream_id, bytes: amount }, s2, r2) == Some(
                SpecOp::Receive { id: stream_id, remaining: amount, rate: Some((bytes, period)) },
            )
            &&& awaited_op(ConnectionOp::ReceiveAll { stream_id }, s2, r2) == Some(
                SpecOp::Receive { id: stream_id, remaining: u64::MAX, rate: Some((bytes, period)) },
            )
            &&& other != stream_id ==> rate_of(r2, other) == rate_of(receive, other)
        }),
{
}

/// Once a thread has taken `SendRate { stream_id, bytes, period }`, the
/// send rates map `stream_id` to `(bytes, period)`, the receive rates are
/// untouched, and a later `Send` on that stream waits throttled at exactly
/// that rate; the rate of every other stream is as it was, and the rate
/// operation itself waits on nothing.
pub proof fn law_send_rate_applies(
    send: Map<u64, (u64, Duration)>,
    receive: Map<u64, (u64, Duration)>,
    stream_id: u64,
    bytes: u64,
    period: Duration,
    amount: u64,
    other: u64,
)
    ensures
        ({
            let op = ConnectionOp::SendRate { stream_id, bytes, period };
            let (s2, r2) = rates_after(op, send, receive);
            &&& s2.contains_key(stream_id)
            &&& s2[stream_id] == (bytes, period)
            &&& r2 == receive
            &&& awaited_op(op, send, receive) is None
            &&& awaited_op(ConnectionOp::Send { stream_id, bytes: amount }, s2, r2) == Some(
                SpecOp::Send { id: stream_id, remaining: amount, rate: Some((bytes, period)) },
            )
            &&& other != stream_id ==> rate_of(s2, other) == rate_of(send, other)
        }),
{
}

/// A stream with no rate set is received and sent unthrottled, whatever
/// operations on other streams set.
pub proof fn law_no_rate_unthrottled(
    send: Map<u64, (u64, Duration)>,
    receive: Map<u64, (u64, Duration)>,
    stream_id: u64,
    amount: u64,
)
    requires
        !send.contains_key(stream_id),
        !receive.contains_key(stream_id),
    ensures
        awaited_op(ConnectionOp::Receive { stream_id, bytes: amount }, send, receive) == Some(
            SpecOp::Receive { id: stream_id, remaining: amount, rate: None },
        ),
        awaited_op(ConnectionOp::Send { stream_id, bytes: amount }, send, receive) == Some(
            SpecOp::Send { id: stream_id, remaining: amount, rate: None },
        ),
{
}

} // verus!
