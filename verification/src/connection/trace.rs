//! Observers of connection threads: one that ignores everything, one that
//! writes a log line per event, and one that counts the bytes moved.

use super::{lemma_op_height_le, lemma_scope_children_height, lemma_threads_height_le, lemma_threads_height_lt, op_height, ops_height, threads_height, Trace, TraceEvent};
use crate::op::ConnectionOp;
use core::time::Duration;
use vstd::prelude::*;

verus! {

/// Ignores every event.
#[derive(Clone, Copy)]
pub struct Disabled {
    log: Ghost<Seq<TraceEvent>>,
}

impl Default for Disabled {
    fn default() -> (d: Self)
        ensures
            d.events() == Seq::<TraceEvent>::empty(),
    {
        Disabled { log: Ghost(Seq::empty()) }
    }
}

impl Trace for Disabled {
    closed spec fn events(&self) -> Seq<TraceEvent> {
        self.log@
    }

    fn exec(&mut self, op: &ConnectionOp) {
        proof {
            self.log@ = self.log@.push(TraceEvent::Exec(*op));
        }
    }

    fn enter(&mut self, scope: usize, thread: usize) {
        proof {
            self.log@ = self.log@.push(TraceEvent::Enter(scope, thread));
        }
    }

    fn exit(&mut self) {
        proof {
            self.log@ = self.log@.push(TraceEvent::Exit);
        }
    }

    fn send(&mut self, stream_id: u64, len: u64) {
        proof {
            self.log@ = self.log@.push(TraceEvent::Send(stream_id, len));
        }
    }

    fn receive(&mut self, stream_id: u64, len: u64) {
        proof {
            self.log@ = self.log@.push(TraceEvent::Receive(stream_id, len));
        }
    }

    fn accept(&mut self, stream_id: u64) {
        proof {
            self.log@ = self.log@.push(TraceEvent::Accept(stream_id));
        }
    }

    fn trace(&mut self, id: u64) {
        proof {
            self.log@ = self.log@.push(TraceEvent::Trace(id));
        }
    }
}

/// The decimal digit `d`, below 10.
pub open spec fn digit(d: nat) -> char {
    (48 + d) as char
}

/// The decimal text of `n`, without leading zeros.
pub open spec fn decimal(n: nat) -> Seq<char>
    decreases n,
{
    if n < 10 {
        seq![digit(n)]
    } else {
        decimal(n / 10) + seq![digit(n % 10)]
    }
}

/// `String::push`: appends `c`.
#[verifier::external_body]
pub(crate) fn string_push(s: &mut String, c: char)
    ensures
        final(s)@ == old(s)@.push(c),
{
    s.push(c)
}

/// Appends the decimal text of `n` to `s`.
pub fn push_decimal(s: &mut String, n: u64)
    ensures
        final(s)@ == old(s)@ + decimal(n as nat),
    decreases n,
{
    if n >= 10 {
        push_decimal(s, n / 10);
    }
    let d = (n % 10) as u8;
    string_push(s, (48 + d) as char);
    assert(final(s)@ =~= old(s)@ + decimal(n as nat));
}

/// Appends the characters of `t` to `s`.
pub fn push_str(s: &mut String, t: &str)
    ensures
        final(s)@ == old(s)@ + t@,
{
    let n = t.unicode_len();
    let mut i: usize = 0;
    while i < n
        invariant
            i <= n,
            n == t@.len(),
            s@ == old(s)@ + t@.take(i as int),
        decreases n - i,
    {
        let c = t.get_char(i);
        string_push(s, c);
        proof {
            assert(t@.take(i + 1) =~= t@.take(i as int).push(c));
        }
        i = i + 1;
    }
    proof {
        assert(t@.take(n as int) =~= t@);
    }
}

/// The `Debug` text of a `Duration`, as std writes it (such as `10ms` or
/// `1.5s`).
pub uninterp spec fn duration_debug_text(d: Duration) -> Seq<char>;

/// `format!("{:?}", d)` on a `Duration`.
#[verifier::external_body]
fn duration_debug(d: Duration) -> (s: String)
    ensures
        s@ == duration_debug_text(d),
{
    format!("{:?}", d)
}

/// `name { field: value }`, the text of a variant with one field.
pub open spec fn variant1(name: Seq<char>, f: Seq<char>, v: Seq<char>) -> Seq<char> {
    name + " { "@ + f + ": "@ + v + " }"@
}

/// `name { f: v, g: w }`, the text of a variant with two fields.
pub open spec fn variant2(name: Seq<char>, f: Seq<char>, v: Seq<char>, g: Seq<char>, w: Seq<char>) -> Seq<char> {
    name + " { "@ + f + ": "@ + v + ", "@ + g + ": "@ + w + " }"@
}

/// The text of `op`, as `Debug` writes it: the variant, then its fields by
/// name; a scope lists its threads, and each thread its ops, in brackets.
pub open spec fn op_text(op: ConnectionOp) -> Seq<char>
    decreases op, 1nat,
{
    match op {
        ConnectionOp::Sleep { amount } => variant1("Sleep"@, "amount"@, duration_debug_text(amount)),
        ConnectionOp::BidirectionalStream { stream_id } => variant1(
            "BidirectionalStream"@,
            "stream_id"@,
            decimal(stream_id as nat),
        ),
        ConnectionOp::SendStream { stream_id } => variant1("SendStream"@, "stream_id"@, decimal(stream_id as nat)),
        ConnectionOp::Send { stream_id, bytes } => variant2(
            "Send"@,
            "stream_id"@,
            decimal(stream_id as nat),
            "bytes"@,
            decimal(bytes as nat),
        ),
        ConnectionOp::SendFinish { stream_id } => variant1("SendFinish"@, "stream_id"@, decimal(stream_id as nat)),
        ConnectionOp::SendRate { stream_id, bytes, period } => "SendRate { stream_id: "@ + decimal(stream_id as nat)
            + ", bytes: "@ + decimal(bytes as nat) + ", period: "@ + duration_debug_text(period) + " }"@,
        ConnectionOp::Receive { stream_id, bytes } => variant2(
            "Receive"@,
            "stream_id"@,
            decimal(stream_id as nat),
            "bytes"@,
            decimal(bytes as nat),
        ),
        ConnectionOp::ReceiveAll { stream_id } => variant1("ReceiveAll"@, "stream_id"@, decimal(stream_id as nat)),
        ConnectionOp::ReceiveFinish { stream_id } => variant1(
            "ReceiveFinish"@,
            "stream_id"@,
            decimal(stream_id as nat),
        ),
        ConnectionOp::ReceiveRate { stream_id, bytes, period } => "ReceiveRate { stream_id: "@ + decimal(
            stream_id as nat,
        ) + ", bytes: "@ + decimal(bytes as nat) + ", period: "@ + duration_debug_text(period) + " }"@,
        ConnectionOp::Park { checkpoint } => variant1("Park"@, "checkpoint"@, decimal(checkpoint as nat)),
        ConnectionOp::Unpark { checkpoint } => variant1("Unpark"@, "checkpoint"@, decimal(checkpoint as nat)),
        ConnectionOp::Trace { trace_id } => variant1("Trace"@, "trace_id"@, decimal(trace_id as nat)),
        ConnectionOp::Scope { threads } => "Scope { threads: ["@ + threads_items(threads@) + "] }"@,
    }
}

/// The texts of `ops`, separated by `, `.
pub open spec fn ops_items(ops: Seq<ConnectionOp>) -> Seq<char>
    decreases ops, 0nat,
{
    if ops.len() == 0 {
        Seq::empty()
    } else if ops.len() == 1 {
        op_text(ops.last())
    } else {
        ops_items(ops.drop_last()) + ", "@ + op_text(ops.last())
    }
}

/// The threads `ts`, each as its ops in brackets, separated by `, `.
pub open spec fn threads_items(ts: Seq<Vec<ConnectionOp>>) -> Seq<char>
    decreases ts, 2nat,
{
    if ts.len() == 0 {
        Seq::empty()
    } else if ts.len() == 1 {
        "["@ + ops_items(ts.last()@) + "]"@
    } else {
        threads_items(ts.drop_last()) + ", ["@ + ops_items(ts.last()@) + "]"@
    }
}

/// Appends `name { f: v }`, where `v` is the text `t`.
fn push_variant1(s: &mut String, name: &str, f: &str, t: &str)
    ensures
        final(s)@ == old(s)@ + variant1(name@, f@, t@),
{
    push_str(s, name);
    push_str(s, " { ");
    push_str(s, f);
    push_str(s, ": ");
    push_str(s, t);
    push_str(s, " }");
    proof {
        reveal_strlit(" { ");
        reveal_strlit(": ");
        reveal_strlit(" }");
    }
    assert(final(s)@ =~= old(s)@ + variant1(name@, f@, t@));
}

/// Appends `name { f: n }`.
fn push_variant1_num(s: &mut String, name: &str, f: &str, n: u64)
    ensures
        final(s)@ == old(s)@ + variant1(name@, f@, decimal(n as nat)),
{
    push_str(s, name);
    push_str(s, " { ");
    push_str(s, f);
    push_str(s, ": ");
    push_decimal(s, n);
    push_str(s, " }");
    proof {
        reveal_strlit(" { ");
        reveal_strlit(": ");
        reveal_strlit(" }");
    }
    assert(final(s)@ =~= old(s)@ + variant1(name@, f@, decimal(n as nat)));
}

/// Appends `name { f: n, g: m }`.
fn push_variant2_num(s: &mut String, name: &str, f: &str, n: u64, g: &str, m: u64)
    ensures
        final(s)@ == old(s)@ + variant2(name@, f@, decimal(n as nat), g@, decimal(m as nat)),
{
    push_str(s, name);
    push_str(s, " { ");
    push_str(s, f);
    push_str(s, ": ");
    push_decimal(s, n);
    push_str(s, ", ");
    push_str(s, g);
    push_str(s, ": ");
    push_decimal(s, m);
    push_str(s, " }");
    proof {
        reveal_strlit(" { ");
        reveal_strlit(": ");
        reveal_strlit(", ");
        reveal_strlit(" }");
    }
    assert(final(s)@ =~= old(s)@ + variant2(name@, f@, decimal(n as nat), g@, decimal(m as nat)));
}

/// Appends `head`, the numbers `n` and `m` separated by `, bytes: `, then
/// `, period: `, the text of `d` and ` }`: the text of a rate op.
fn push_rate(s: &mut String, head: &str, n: u64, m: u64, d: Duration)
    ensures
        final(s)@ == old(s)@ + head@ + decimal(n as nat) + ", bytes: "@ + decimal(m as nat) + ", period: "@
            + duration_debug_text(d) + " }"@,
{
    push_str(s, head);
    push_decimal(s, n);
    push_str(s, ", bytes: ");
    push_decimal(s, m);
    push_str(s, ", period: ");
    let t = duration_debug(d);
    push_str(s, t.as_str());
    push_str(s, " }");
    assert(final(s)@ =~= old(s)@ + head@ + decimal(n as nat) + ", bytes: "@ + decimal(m as nat) + ", period: "@
        + duration_debug_text(d) + " }"@);
}

/// Appends the text of `op`.
pub fn push_op_text(s: &mut String, op: &ConnectionOp)
    ensures
        final(s)@ == old(s)@ + op_text(*op),
    decreases op_height(*op), 2nat,
{
    match op {
        ConnectionOp::Scope { threads } => {
            push_str(s, "Scope { threads: [");
            proof {
                lemma_scope_children_height(*op);
                lemma_threads_height_lt(*op);
            }
            push_threads_items(s, threads, Ghost(op_height(*op)));
            push_str(s, "] }");
            assert(final(s)@ =~= old(s)@ + op_text(*op));
        },
        ConnectionOp::Sleep { amount } => {
            let t = duration_debug(*amount);
            push_variant1(s, "Sleep", "amount", t.as_str());
        },
        ConnectionOp::BidirectionalStream { stream_id } => {
            push_variant1_num(s, "BidirectionalStream", "stream_id", *stream_id);
        },
        ConnectionOp::SendStream { stream_id } => {
            push_variant1_num(s, "SendStream", "stream_id", *stream_id);
        },
        ConnectionOp::Send { stream_id, bytes } => {
            push_variant2_num(s, "Send", "stream_id", *stream_id, "bytes", *bytes);
        },
        ConnectionOp::SendFinish { stream_id } => {
            push_variant1_num(s, "SendFinish", "stream_id", *stream_id);
        },
        ConnectionOp::SendRate { stream_id, bytes, period } => {
            push_rate(s, "SendRate { stream_id: ", *stream_id, *bytes, *period);
        },
        ConnectionOp::Receive { stream_id, bytes } => {
            push_variant2_num(s, "Receive", "stream_id", *stream_id, "bytes", *bytes);
        },
        ConnectionOp::ReceiveAll { stream_id } => {
            push_variant1_num(s, "ReceiveAll", "stream_id", *stream_id);
        },
        ConnectionOp::ReceiveFinish { stream_id } => {
            push_variant1_num(s, "ReceiveFinish", "stream_id", *stream_id);
        },
        ConnectionOp::ReceiveRate { stream_id, bytes, period } => {
            push_rate(s, "ReceiveRate { stream_id: ", *stream_id, *bytes, *period);
        },
        ConnectionOp::Park { checkpoint } => {
            push_variant1_num(s, "Park", "checkpoint", *checkpoint);
        },
        ConnectionOp::Unpark { checkpoint } => {
            push_variant1_num(s, "Unpark", "checkpoint", *checkpoint);
        },
        ConnectionOp::Trace { trace_id } => {
            push_variant1_num(s, "Trace", "trace_id", *trace_id);
        },
    }
}

/// Appends the texts of `ops`, separated by `, `.
fn push_ops_items(s: &mut String, ops: &Vec<ConnectionOp>)
    ensures
        final(s)@ == old(s)@ + ops_items(ops@),
    decreases ops_height(ops@), 3nat,
{
    let mut i: usize = 0;
    proof {
        assert(ops@.take(0) =~= Seq::<ConnectionOp>::empty());
    }
    while i < ops.len()
        invariant
            i <= ops@.len(),
            s@ == old(s)@ + ops_items(ops@.take(i as int)),
        decreases ops@.len() - i,
    {
        if i > 0 {
            push_str(s, ", ");
        }
        proof {
            lemma_op_height_le(ops@, i as int);
        }
        push_op_text(s, &ops[i]);
        proof {
            reveal_strlit(", ");
            assert(ops@.take(i + 1).drop_last() =~= ops@.take(i as int));
            assert(ops@.take(i + 1).last() == ops@[i as int]);
            assert(s@ =~= old(s)@ + ops_items(ops@.take(i + 1)));
        }
        i = i + 1;
    }
    proof {
        assert(ops@.take(ops@.len() as int) =~= ops@);
    }
}

/// Appends the threads `ts`, each as its ops in brackets, separated by `, `.
fn push_threads_items(s: &mut String, ts: &Vec<Vec<ConnectionOp>>, Ghost(h): Ghost<nat>)
    requires
        threads_height(ts@) < h,
    ensures
        final(s)@ == old(s)@ + threads_items(ts@),
    decreases h, 1nat,
{
    let mut i: usize = 0;
    proof {
        assert(ts@.take(0) =~= Seq::<Vec<ConnectionOp>>::empty());
    }
    while i < ts.len()
        invariant
            i <= ts@.len(),
            threads_height(ts@) < h,
            s@ == old(s)@ + threads_items(ts@.take(i as int)),
        decreases ts@.len() - i,
    {
        if i > 0 {
            push_str(s, ", ");
        }
        push_str(s, "[");
        proof {
            lemma_threads_height_le(ts@, i as int);
        }
        push_ops_items(s, &ts[i]);
        push_str(s, "]");
        proof {
            reveal_strlit(", ");
            reveal_strlit("[");
            reveal_strlit("]");
            reveal_strlit(", [");
            assert(ts@.take(i + 1).drop_last() =~= ts@.take(i as int));
            assert(ts@.take(i + 1).last() == ts@[i as int]);
            assert(s@ =~= old(s)@ + threads_items(ts@.take(i + 1)));
        }
        i = i + 1;
    }
    proof {
        assert(ts@.take(ts@.len() as int) =~= ts@);
    }
}

/// The scope prefix of a log line: `scope.thread:` for each entered scope.
pub open spec fn scope_prefix(scope: Seq<(usize, usize)>) -> Seq<char>
    decreases scope.len(),
{
    if scope.len() == 0 {
        Seq::empty()
    } else {
        scope_prefix(scope.drop_last()) + decimal(scope.last().0 as nat) + seq!['.'] + decimal(
            scope.last().1 as nat,
        ) + seq![':']
    }
}

/// Writes a line for every event: the connection id, the scope and thread
/// of every scope entered, and the event.
#[derive(Clone)]
pub struct Logger<'a> {
    id: u64,
    traces: &'a [String],
    scope: Vec<(usize, usize)>,
    lines: Vec<String>,
    log: Ghost<Seq<TraceEvent>>,
}

impl<'a> Logger<'a> {
    pub closed spec fn spec_id(&self) -> u64 {
        self.id
    }

    /// The scopes entered, outermost first.
    pub closed spec fn scope(&self) -> Seq<(usize, usize)> {
        self.scope@
    }

    /// The lines written and not yet taken.
    pub closed spec fn lines(&self) -> Seq<Seq<char>> {
        self.lines@.map_values(|s: String| s@)
    }

    /// The trace names, by trace id.
    pub closed spec fn traces(&self) -> Seq<String> {
        self.traces@
    }

    /// The line for the event `msg`.
    pub open spec fn line(&self, msg: Seq<char>) -> Seq<char> {
        decimal(self.spec_id() as nat) + seq![':'] + scope_prefix(self.scope()) + msg
    }

    /// A logger for connection `id`, whose trace events are named by
    /// `traces`.
    pub fn new(id: u64, traces: &'a [String]) -> (l: Self)
        ensures
            l.spec_id() == id,
            l.traces() == traces@,
            l.scope() == Seq::<(usize, usize)>::empty(),
            l.lines() == Seq::<Seq<char>>::empty(),
            l.events() == Seq::<TraceEvent>::empty(),
    {
        let l = Logger { id, traces, scope: Vec::new(), lines: Vec::new(), log: Ghost(Seq::empty()) };
        assert(l.lines() =~= Seq::<Seq<char>>::empty());
        l
    }

    /// Writes the line for `msg`.
    fn log(&mut self, msg: String)
        ensures
            final(self).lines() == old(self).lines().push(old(self).line(msg@)),
            final(self).spec_id() == old(self).spec_id(),
            final(self).scope() == old(self).scope(),
            final(self).traces() == old(self).traces(),
            final(self).log == old(self).log,
    {
        let mut out = String::new();
        push_decimal(&mut out, self.id);
        string_push(&mut out, ':');
        let ghost head = out@;
        let mut i: usize = 0;
        while i < self.scope.len()
            invariant
                i <= self.scope@.len(),
                out@ == head + scope_prefix(self.scope@.take(i as int)),
            decreases self.scope@.len() - i,
        {
            let (s, t) = self.scope[i];
            push_decimal(&mut out, s as u64);
            string_push(&mut out, '.');
            push_decimal(&mut out, t as u64);
            string_push(&mut out, ':');
            proof {
                assert(self.scope@.take(i + 1).drop_last() =~= self.scope@.take(i as int));
                assert(out@ =~= head + scope_prefix(self.scope@.take(i + 1)));
            }
            i = i + 1;
        }
        proof {
            assert(self.scope@.take(self.scope@.len() as int) =~= self.scope@);
        }
        push_str(&mut out, msg.as_str());
        assert(out@ =~= old(self).line(msg@));
        let ghost before = self.lines();
        self.lines.push(out);
        assert(self.lines() =~= before.push(old(self).line(msg@)));
    }

    /// Takes the lines written so far, oldest first.
    pub fn take_lines(&mut self) -> (lines: Vec<String>)
        ensures
            lines@.map_values(|s: String| s@) == old(self).lines(),
            final(self).lines() == Seq::<Seq<char>>::empty(),
            final(self).spec_id() == old(self).spec_id(),
            final(self).scope() == old(self).scope(),
            final(self).traces() == old(self).traces(),
            final(self).events() == old(self).events(),
    {
        let mut lines = Vec::new();
        core::mem::swap(&mut lines, &mut self.lines);
        assert(self.lines() =~= Seq::<Seq<char>>::empty());
        lines
    }
}

/// A message of a fixed text followed by a number.
fn message(text: &str, n: u64) -> (m: String)
    ensures
        m@ == text@ + decimal(n as nat),
{
    let mut m = String::new();
    push_str(&mut m, text);
    push_decimal(&mut m, n);
    m
}

impl<'a> Trace for Logger<'a> {
    closed spec fn events(&self) -> Seq<TraceEvent> {
        self.log@
    }

    /// Writes `exec: ` and the op.
    fn exec(&mut self, op: &ConnectionOp)
        ensures
            final(self).lines() == old(self).lines().push(old(self).line("exec: "@ + op_text(*op))),
            final(self).scope() == old(self).scope(),
            final(self).spec_id() == old(self).spec_id(),
            final(self).traces() == old(self).traces(),
    {
        proof {
            self.log@ = self.log@.push(TraceEvent::Exec(*op));
        }
        let mut m = String::new();
        push_str(&mut m, "exec: ");
        push_op_text(&mut m, op);
        self.log(m);
    }

    /// Enters scope `scope`, thread `thread`.
    fn enter(&mut self, scope: usize, thread: usize)
        ensures
            final(self).scope() == old(self).scope().push((scope, thread)),
            final(self).lines() == old(self).lines(),
            final(self).spec_id() == old(self).spec_id(),
            final(self).traces() == old(self).traces(),
    {
        proof {
            self.log@ = self.log@.push(TraceEvent::Enter(scope, thread));
        }
        self.scope.push((scope, thread));
    }

    /// Leaves the innermost scope.
    fn exit(&mut self)
        ensures
            final(self).scope() == if old(self).scope().len() > 0 {
                old(self).scope().drop_last()
            } else {
                old(self).scope()
            },
            final(self).lines() == old(self).lines(),
            final(self).spec_id() == old(self).spec_id(),
            final(self).traces() == old(self).traces(),
    {
        proof {
            self.log@ = self.log@.push(TraceEvent::Exit);
        }
        self.scope.pop();
    }

    /// Writes `send: stream=..., len=...`.
    fn send(&mut self, stream_id: u64, len: u64)
        ensures
            final(self).lines() == old(self).lines().push(
                old(self).line("send: stream="@ + decimal(stream_id as nat) + ", len="@ + decimal(len as nat)),
            ),
            final(self).scope() == old(self).scope(),
            final(self).spec_id() == old(self).spec_id(),
            final(self).traces() == old(self).traces(),
    {
        proof {
            self.log@ = self.log@.push(TraceEvent::Send(stream_id, len));
        }
        let mut m = message("send: stream=", stream_id);
        push_str(&mut m, ", len=");
        push_decimal(&mut m, len);
        assert(m@ =~= "send: stream="@ + decimal(stream_id as nat) + ", len="@ + decimal(len as nat));
        self.log(m);
    }

    /// Writes `recv: stream=..., len=...`.
    fn receive(&mut self, stream_id: u64, len: u64)
        ensures
            final(self).lines() == old(self).lines().push(
                old(self).line("recv: stream="@ + decimal(stream_id as nat) + ", len="@ + decimal(len as nat)),
            ),
            final(self).scope() == old(self).scope(),
            final(self).spec_id() == old(self).spec_id(),
            final(self).traces() == old(self).traces(),
    {
        proof {
            self.log@ = self.log@.push(TraceEvent::Receive(stream_id, len));
        }
        let mut m = message("recv: stream=", stream_id);
        push_str(&mut m, ", len=");
        push_decimal(&mut m, len);
        assert(m@ =~= "recv: stream="@ + decimal(stream_id as nat) + ", len="@ + decimal(len as nat));
        self.log(m);
    }

    /// Writes `accept: stream=...`.
    fn accept(&mut self, stream_id: u64)
        ensures
            final(self).lines() == old(self).lines().push(old(self).line("accept: stream="@ + decimal(stream_id as nat))),
            final(self).scope() == old(self).scope(),
            final(self).spec_id() == old(self).spec_id(),
            final(self).traces() == old(self).traces(),
    {
        proof {
            self.log@ = self.log@.push(TraceEvent::Accept(stream_id));
        }
        let m = message("accept: stream=", stream_id);
        self.log(m);
    }

    /// Writes `trace: ` and the trace name, or its id when it has none.
    fn trace(&mut self, id: u64)
        ensures
            final(self).lines() == old(self).lines().push(old(self).line(
                if id < old(self).traces().len() {
                    "trace: "@ + old(self).traces()[id as int]@
                } else {
                    "trace: id="@ + decimal(id as nat)
                },
            )),
            final(self).scope() == old(self).scope(),
            final(self).spec_id() == old(self).spec_id(),
            final(self).traces() == old(self).traces(),
    {
        proof {
            self.log@ = self.log@.push(TraceEvent::Trace(id));
        }
        if id < self.traces.len() as u64 {
            let mut m = String::new();
            push_str(&mut m, "trace: ");
            push_str(&mut m, self.traces[id as usize].as_str());
            self.log(m);
        } else {
            let m = message("trace: id=", id);
            self.log(m);
        }
    }
}

/// Counts the bytes received and sent.
#[derive(Clone)]
pub struct Throughput<Counter> {
    rx: Counter,
    tx: Counter,
    log: Ghost<Seq<TraceEvent>>,
    mark: Ghost<nat>,
}

/// The bytes that the send events of `t` report.
pub open spec fn sent_total(t: Seq<TraceEvent>) -> nat
    decreases t.len(),
{
    if t.len() == 0 {
        0
    } else {
        sent_total(t.drop_last()) + match t.last() {
            TraceEvent::Send(_, n) => n as nat,
            _ => 0,
        }
    }
}

/// The bytes that the receive events of `t` report.
pub open spec fn received_total(t: Seq<TraceEvent>) -> nat
    decreases t.len(),
{
    if t.len() == 0 {
        0
    } else {
        received_total(t.drop_last()) + match t.last() {
            TraceEvent::Receive(_, n) => n as nat,
            _ => 0,
        }
    }
}

proof fn lemma_totals_push(t: Seq<TraceEvent>, e: TraceEvent)
    ensures
        sent_total(t.push(e)) == sent_total(t) + match e {
            TraceEvent::Send(_, n) => n as nat,
            _ => 0,
        },
        received_total(t.push(e)) == received_total(t) + match e {
            TraceEvent::Receive(_, n) => n as nat,
            _ => 0,
        },
{
    assert(t.push(e).drop_last() =~= t);
}

impl Throughput<u64> {
    /// The counts are those of the events reported since the last `take`,
    /// modulo 2^64.
    pub closed spec fn wf(&self) -> bool {
        &&& self.mark@ <= self.log@.len()
        &&& self.tx == sent_total(self.log@.skip(self.mark@ as int)) % 0x1_0000_0000_0000_0000
        &&& self.rx == received_total(self.log@.skip(self.mark@ as int)) % 0x1_0000_0000_0000_0000
    }

    /// How many events had been reported at the last `take`.
    pub closed spec fn counted(&self) -> nat {
        self.mark@
    }

    /// A reported event leaves the counts those of the events since the
    /// last `take`.
    proof fn lemma_push(&self, e: TraceEvent, tx: u64, rx: u64)
        requires
            self.wf(),
            tx == (self.tx + match e {
                TraceEvent::Send(_, n) => n as nat,
                _ => 0,
            }) % 0x1_0000_0000_0000_0000,
            rx == (self.rx + match e {
                TraceEvent::Receive(_, n) => n as nat,
                _ => 0,
            }) % 0x1_0000_0000_0000_0000,
        ensures
            (Throughput { rx, tx, log: Ghost(self.log@.push(e)), mark: self.mark }).wf(),
    {
        let t = self.log@.skip(self.mark@ as int);
        assert(self.log@.push(e).skip(self.mark@ as int) =~= t.push(e));
        lemma_totals_push(t, e);
        let a = sent_total(t);
        let b = received_total(t);
        assert((a % 0x1_0000_0000_0000_0000 + match e {
            TraceEvent::Send(_, n) => n as nat,
            _ => 0,
        }) % 0x1_0000_0000_0000_0000 == (a + match e {
            TraceEvent::Send(_, n) => n as nat,
            _ => 0,
        }) % 0x1_0000_0000_0000_0000) by (nonlinear_arith);
        assert((b % 0x1_0000_0000_0000_0000 + match e {
            TraceEvent::Receive(_, n) => n as nat,
            _ => 0,
        }) % 0x1_0000_0000_0000_0000 == (b + match e {
            TraceEvent::Receive(_, n) => n as nat,
            _ => 0,
        }) % 0x1_0000_0000_0000_0000) by (nonlinear_arith);
    }

    pub closed spec fn received(&self) -> u64 {
        self.rx
    }

    pub closed spec fn sent(&self) -> u64 {
        self.tx
    }

    /// Counts that start at zero.
    pub fn new() -> (t: Self)
        ensures
            t.received() == 0,
            t.sent() == 0,
            t.events() == Seq::<TraceEvent>::empty(),
            t.wf(),
            t.counted() == 0,
    {
        let t = Throughput { rx: 0, tx: 0, log: Ghost(Seq::empty()), mark: Ghost(0) };
        assert(t.log@.skip(0) =~= Seq::<TraceEvent>::empty());
        t
    }

    /// The bytes received.
    pub fn rx(&self) -> (n: u64)
        ensures
            n == self.received(),
    {
        self.rx
    }

    /// The bytes sent.
    pub fn tx(&self) -> (n: u64)
        ensures
            n == self.sent(),
    {
        self.tx
    }

    /// The counts so far; the counts start again at zero.
    pub fn take(&mut self) -> (t: Throughput<u64>)
        ensures
            t.received() == old(self).received(),
            t.sent() == old(self).sent(),
            final(self).received() == 0,
            final(self).sent() == 0,
            final(self).events() == old(self).events(),
            old(self).wf() ==> final(self).wf() && t.sent() == sent_total(old(self).events().skip(
                old(self).counted() as int,
            )) % 0x1_0000_0000_0000_0000 && t.received() == received_total(old(self).events().skip(
                old(self).counted() as int,
            )) % 0x1_0000_0000_0000_0000,
            final(self).counted() == old(self).events().len(),
    {
        let t = Throughput { rx: self.rx, tx: self.tx, log: self.log, mark: self.mark };
        self.rx = 0;
        self.tx = 0;
        proof {
            self.mark@ = self.log@.len();
            assert(self.log@.skip(self.mark@ as int) =~= Seq::<TraceEvent>::empty());
        }
        t
    }
}

impl Trace for Throughput<u64> {
    closed spec fn events(&self) -> Seq<TraceEvent> {
        self.log@
    }

    /// Counts nothing.
    fn exec(&mut self, op: &ConnectionOp)
        ensures
            final(self).sent() == old(self).sent(),
            final(self).received() == old(self).received(),
            final(self).counted() == old(self).counted(),
            old(self).wf() ==> final(self).wf(),
    {
        proof {
            if old(self).wf() {
                old(self).lemma_push(TraceEvent::Exec(*op), self.tx, self.rx);
            }
            self.log@ = self.log@.push(TraceEvent::Exec(*op));
        }
    }

    /// Counts nothing.
    fn enter(&mut self, scope: usize, thread: usize)
        ensures
            final(self).sent() == old(self).sent(),
            final(self).received() == old(self).received(),
            final(self).counted() == old(self).counted(),
            old(self).wf() ==> final(self).wf(),
    {
        proof {
            if old(self).wf() {
                old(self).lemma_push(TraceEvent::Enter(scope, thread), self.tx, self.rx);
            }
            self.log@ = self.log@.push(TraceEvent::Enter(scope, thread));
        }
    }

    /// Counts nothing.
    fn exit(&mut self)
        ensures
            final(self).sent() == old(self).sent(),
            final(self).received() == old(self).received(),
            final(self).counted() == old(self).counted(),
            old(self).wf() ==> final(self).wf(),
    {
        proof {
            if old(self).wf() {
                old(self).lemma_push(TraceEvent::Exit, self.tx, self.rx);
            }
            self.log@ = self.log@.push(TraceEvent::Exit);
        }
    }

    /// Counts `len` bytes sent, wrapping past `u64::MAX`.
    fn send(&mut self, stream_id: u64, len: u64)
        ensures
            final(self).sent() == (old(self).sent() + len) % 0x1_0000_0000_0000_0000,
            final(self).received() == old(self).received(),
            final(self).counted() == old(self).counted(),
            old(self).wf() ==> final(self).wf(),
    {
        self.tx = self.tx.wrapping_add(len);
        proof {
            if old(self).wf() {
                old(self).lemma_push(TraceEvent::Send(stream_id, len), self.tx, self.rx);
            }
            self.log@ = self.log@.push(TraceEvent::Send(stream_id, len));
        }
    }

    /// Counts `len` bytes received, wrapping past `u64::MAX`.
    fn receive(&mut self, stream_id: u64, len: u64)
        ensures
            final(self).received() == (old(self).received() + len) % 0x1_0000_0000_0000_0000,
            final(self).sent() == old(self).sent(),
            final(self).counted() == old(self).counted(),
            old(self).wf() ==> final(self).wf(),
    {
        self.rx = self.rx.wrapping_add(len);
        proof {
            if old(self).wf() {
                old(self).lemma_push(TraceEvent::Receive(stream_id, len), self.tx, self.rx);
            }
            self.log@ = self.log@.push(TraceEvent::Receive(stream_id, len));
        }
    }

    /// Counts nothing.
    fn accept(&mut self, stream_id: u64)
        ensures
            final(self).sent() == old(self).sent(),
            final(self).received() == old(self).received(),
            final(self).counted() == old(self).counted(),
            old(self).wf() ==> final(self).wf(),
    {
        proof {
            if old(self).wf() {
                old(self).lemma_push(TraceEvent::Accept(stream_id), self.tx, self.rx);
            }
            self.log@ = self.log@.push(TraceEvent::Accept(stream_id));
        }
    }

    /// Counts nothing.
    fn trace(&mut self, id: u64)
        ensures
            final(self).sent() == old(self).sent(),
            final(self).received() == old(self).received(),
            final(self).counted() == old(self).counted(),
            old(self).wf() ==> final(self).wf(),
    {
        proof {
            if old(self).wf() {
                old(self).lemma_push(TraceEvent::Trace(id), self.tx, self.rx);
            }
            self.log@ = self.log@.push(TraceEvent::Trace(id));
        }
    }
}

} // verus!
