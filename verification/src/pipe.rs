//! Per-session output pipeline.
//!
//! Each live terminal session is served by two concurrent workers that share
//! one `OutputPipe`: a reader that appends every chunk read from the
//! pseudo-terminal, and a flusher that wakes on a fixed short interval,
//! drains the whole buffer and publishes it in bounded-size data events.
//! The split guarantees delivery within one flush interval even while the
//! reader is blocked waiting for more output.
//!
//! The pipe carries two ghost histories — all bytes ever produced and all
//! bytes ever delivered — so the contracts can state the delivery guarantees
//! exactly: delivery is in production order, every tick delivers everything
//! produced so far, and the session-exit event is published exactly once,
//! after the last data event.

use vstd::prelude::*;

verus! {

/// Largest number of bytes published in one data event; larger drains are
/// split across several events, never dropped.
pub const MAX_FLUSH_BYTES: usize = 64 * 1024;

/// Period of the flusher worker in milliseconds; bounds delivery latency.
pub const FLUSH_INTERVAL_MS: u64 = 8;

/// An event a terminal session publishes to the output sink.
pub enum TermEvent {
    /// A batch of output bytes from the session's pseudo-terminal.
    Data { id: u32, bytes: Vec<u8> },
    /// The session's stream has ended; published exactly once, last.
    Exit { id: u32 },
}

impl TermEvent {
    pub open spec fn ev_id(self) -> u32 {
        match self {
            TermEvent::Data { id, .. } => id,
            TermEvent::Exit { id } => id,
        }
    }

    pub open spec fn is_data(self) -> bool {
        self matches TermEvent::Data { .. }
    }
}

/// Concatenation of a sequence of byte sequences.
pub open spec fn concat_bytes(ss: Seq<Seq<u8>>) -> Seq<u8>
    decreases ss.len(),
{
    if ss.len() == 0 {
        Seq::empty()
    } else {
        ss[0] + concat_bytes(ss.skip(1))
    }
}

/// The payloads of the data events among `evs`, in order.
pub open spec fn data_payloads(evs: Seq<TermEvent>) -> Seq<Seq<u8>>
    decreases evs.len(),
{
    if evs.len() == 0 {
        Seq::empty()
    } else {
        let rest = data_payloads(evs.skip(1));
        match evs[0] {
            TermEvent::Data { bytes, .. } => seq![bytes@] + rest,
            TermEvent::Exit { .. } => rest,
        }
    }
}

/// Decomposition of `data` into consecutive chunks of at most `max` bytes,
/// all but the last exactly `max` bytes.
pub open spec fn chunks_of(data: Seq<u8>, max: int) -> Seq<Seq<u8>>
    decreases data.len() when 0 < max
{
    if data.len() == 0 {
        Seq::empty()
    } else if data.len() <= max {
        seq![data]
    } else {
        seq![data.take(max)] + chunks_of(data.skip(max), max)
    }
}

pub proof fn lemma_concat_bytes_append(a: Seq<Seq<u8>>, b: Seq<Seq<u8>>)
    ensures
        concat_bytes(a + b) == concat_bytes(a) + concat_bytes(b),
    decreases a.len(),
{
    if a.len() == 0 {
        assert(a + b =~= b);
        assert(concat_bytes(a) + concat_bytes(b) =~= concat_bytes(b));
    } else {
        lemma_concat_bytes_append(a.skip(1), b);
        assert((a + b).skip(1) =~= a.skip(1) + b);
        assert(a[0] + (concat_bytes(a.skip(1)) + concat_bytes(b)) =~= (a[0] + concat_bytes(
            a.skip(1),
        )) + concat_bytes(b));
    }
}

/// Splitting into chunks loses and reorders nothing: the chunks concatenate
/// back to the original bytes.
pub proof fn lemma_chunks_concat(data: Seq<u8>, max: int)
    requires
        0 < max,
    ensures
        concat_bytes(chunks_of(data, max)) == data,
    decreases data.len(),
{
    if data.len() == 0 {
        assert(concat_bytes(chunks_of(data, max)) =~= data);
    } else if data.len() <= max {
        assert(chunks_of(data, max) == seq![data]);
        assert(seq![data].skip(1) =~= Seq::<Seq<u8>>::empty());
        assert(concat_bytes(seq![data].skip(1)) =~= Seq::<u8>::empty());
        assert(concat_bytes(chunks_of(data, max)) =~= data);
    } else {
        lemma_chunks_concat(data.skip(max), max);
        assert(chunks_of(data, max).skip(1) =~= chunks_of(data.skip(max), max));
        assert(data.take(max) + data.skip(max) =~= data);
    }
}

/// Every chunk is non-empty and at most `max` bytes; all but the last are
/// exactly `max` bytes.
pub proof fn lemma_chunks_sizes(data: Seq<u8>, max: int)
    requires
        0 < max,
    ensures
        forall|i: int|
            0 <= i < chunks_of(data, max).len() ==> 0 < #[trigger] chunks_of(data, max)[i].len()
                <= max,
        forall|i: int|
            0 <= i < chunks_of(data, max).len() - 1 ==> #[trigger] chunks_of(data, max)[i].len()
                == max,
    decreases data.len(),
{
    if data.len() > max {
        lemma_chunks_sizes(data.skip(max), max);
        assert(forall|i: int|
            1 <= i < chunks_of(data, max).len() ==> chunks_of(data, max)[i] == chunks_of(
                data.skip(max),
                max,
            )[i - 1]);
    }
}

pub proof fn lemma_data_payloads_one(e: TermEvent)
    ensures
        data_payloads(seq![e]) == (match e {
            TermEvent::Data { bytes, .. } => seq![bytes@],
            TermEvent::Exit { .. } => Seq::<Seq<u8>>::empty(),
        }),
{
    assert(seq![e].skip(1) =~= Seq::<TermEvent>::empty());
    assert(data_payloads(seq![e].skip(1)) =~= Seq::<Seq<u8>>::empty());
    match e {
        TermEvent::Data { bytes, .. } => {
            assert(data_payloads(seq![e]) =~= seq![bytes@] + Seq::<Seq<u8>>::empty());
            assert(seq![bytes@] + Seq::<Seq<u8>>::empty() =~= seq![bytes@]);
        },
        TermEvent::Exit { .. } => {},
    }
}

pub proof fn lemma_data_payloads_append(a: Seq<TermEvent>, b: Seq<TermEvent>)
    ensures
        data_payloads(a + b) == data_payloads(a) + data_payloads(b),
    decreases a.len(),
{
    if a.len() == 0 {
        assert(a + b =~= b);
        assert(data_payloads(a) + data_payloads(b) =~= data_payloads(b));
    } else {
        lemma_data_payloads_append(a.skip(1), b);
        assert((a + b).skip(1) =~= a.skip(1) + b);
        match a[0] {
            TermEvent::Data { bytes, .. } => {
                assert(seq![bytes@] + (data_payloads(a.skip(1)) + data_payloads(b)) =~= (
                seq![bytes@] + data_payloads(a.skip(1))) + data_payloads(b));
            },
            TermEvent::Exit { .. } => {},
        }
    }
}

/// The shared buffer between one session's reader and flusher, together with
/// the ghost history of what has been produced and delivered.
pub struct OutputPipe {
    id: u32,
    pending: Vec<u8>,
    finished: bool,
    exited: bool,
    produced: Ghost<Seq<u8>>,
    delivered: Ghost<Seq<u8>>,
}

impl OutputPipe {
    /// The session handle this pipe serves.
    pub closed spec fn id_spec(self) -> u32 {
        self.id
    }

    /// Bytes appended by the reader and not yet drained by the flusher.
    pub closed spec fn pending_spec(self) -> Seq<u8> {
        self.pending@
    }

    /// All bytes the reader has ever appended, in order.
    pub closed spec fn produced_spec(self) -> Seq<u8> {
        self.produced@
    }

    /// All bytes ever handed out in data events, in order.
    pub closed spec fn delivered_spec(self) -> Seq<u8> {
        self.delivered@
    }

    /// The reader has reached end-of-stream or a read error.
    pub closed spec fn is_finished(self) -> bool {
        self.finished
    }

    /// The exit event has been published.
    pub closed spec fn has_exited(self) -> bool {
        self.exited
    }

    /// The pipe invariant: delivery is a faithful prefix of production — the
    /// delivered bytes followed by the still-pending bytes are exactly the
    /// produced bytes — and the exit event is published only after the stream
    /// finished and the buffer was drained.
    pub open spec fn wf(self) -> bool {
        &&& self.delivered_spec() + self.pending_spec() == self.produced_spec()
        &&& (self.has_exited() ==> self.is_finished() && self.pending_spec().len() == 0)
    }

    pub fn new(id: u32) -> (r: OutputPipe)
        ensures
            r.wf(),
            r.id_spec() == id,
            r.produced_spec() == Seq::<u8>::empty(),
            r.delivered_spec() == Seq::<u8>::empty(),
            r.pending_spec() == Seq::<u8>::empty(),
            !r.is_finished(),
            !r.has_exited(),
    {
        let r = OutputPipe {
            id,
            pending: Vec::new(),
            finished: false,
            exited: false,
            produced: Ghost(Seq::empty()),
            delivered: Ghost(Seq::empty()),
        };
        proof {
            assert(r.delivered_spec() + r.pending_spec() =~= r.produced_spec());
        }
        r
    }

    /// Reader side: append one chunk read from the pseudo-terminal.
    pub fn append(&mut self, chunk: &[u8])
        requires
            old(self).wf(),
            !old(self).is_finished(),
        ensures
            final(self).wf(),
            final(self).id_spec() == old(self).id_spec(),
            final(self).produced_spec() == old(self).produced_spec() + chunk@,
            final(self).pending_spec() == old(self).pending_spec() + chunk@,
            final(self).delivered_spec() == old(self).delivered_spec(),
            final(self).is_finished() == old(self).is_finished(),
            final(self).has_exited() == old(self).has_exited(),
            final(self).model() == append_step(old(self).model(), chunk@),
    {
        let n = chunk.len();
        let mut j: usize = 0;
        while j < n
            invariant
                n == chunk@.len(),
                j <= n,
                self.pending@ == old(self).pending@ + chunk@.take(j as int),
                self.id == old(self).id,
                self.finished == old(self).finished,
                self.exited == old(self).exited,
                self.produced == old(self).produced,
                self.delivered == old(self).delivered,
            decreases n - j,
        {
            self.pending.push(chunk[j]);
            proof {
                assert(old(self).pending@ + chunk@.take(j as int) + seq![chunk@[j as int]]
                    =~= old(self).pending@ + chunk@.take(j + 1));
            }
            j += 1;
        }
        proof {
            assert(chunk@.take(n as int) =~= chunk@);
            self.produced = Ghost(self.produced@ + chunk@);
            assert(self.delivered_spec() + self.pending_spec() =~= self.produced_spec());
        }
    }

    /// Reader side: the stream ended (end-of-file or read error).
    pub fn mark_finished(&mut self)
        requires
            old(self).wf(),
        ensures
            final(self).wf(),
            final(self).id_spec() == old(self).id_spec(),
            final(self).produced_spec() == old(self).produced_spec(),
            final(self).pending_spec() == old(self).pending_spec(),
            final(self).delivered_spec() == old(self).delivered_spec(),
            final(self).is_finished(),
            final(self).has_exited() == old(self).has_exited(),
            final(self).model() == finish_step(old(self).model()),
    {
        self.finished = true;
    }

    /// Flusher side: one wake of the flusher worker.
    ///
    /// Drains the whole buffer and returns the events to publish: the drained
    /// bytes split into data events of at most `MAX_FLUSH_BYTES` each, in
    /// production order, followed by the single exit event if the stream has
    /// finished and the exit event was not yet published.  After any tick,
    /// everything produced so far has been delivered — this holds whether or
    /// not the reader is still producing, so one burst of output followed by
    /// silence is still delivered within one flush interval.
    pub fn flush_tick(&mut self) -> (evs: Vec<TermEvent>)
        requires
            old(self).wf(),
        ensures
            final(self).wf(),
            final(self).id_spec() == old(self).id_spec(),
            final(self).produced_spec() == old(self).produced_spec(),
            final(self).is_finished() == old(self).is_finished(),
            final(self).pending_spec().len() == 0,
            final(self).delivered_spec() == final(self).produced_spec(),
            final(self).delivered_spec() == old(self).delivered_spec() + concat_bytes(
                data_payloads(evs@),
            ),
            final(self).has_exited() == (old(self).has_exited() || old(self).is_finished()),
            data_payloads(evs@) == chunks_of(old(self).pending_spec(), MAX_FLUSH_BYTES as int),
            final(self).model() == tick_step(old(self).model()).0,
            data_payloads(evs@) == tick_step(old(self).model()).1,
            forall|i: int| 0 <= i < evs@.len() ==> (#[trigger] evs@[i]).ev_id()
                == old(self).id_spec(),
            evs@.len() == chunks_of(old(self).pending_spec(), MAX_FLUSH_BYTES as int).len() + (
            if old(self).is_finished() && !old(self).has_exited() {
                1int
            } else {
                0int
            }),
            forall|i: int|
                0 <= i < chunks_of(old(self).pending_spec(), MAX_FLUSH_BYTES as int).len()
                    ==> (#[trigger] evs@[i]).is_data(),
            old(self).is_finished() && !old(self).has_exited() ==> evs@.last()
                == (TermEvent::Exit { id: old(self).id_spec() }),
    {
        let ghost pend0 = self.pending@;
        let drained = self.pending.split_off(0);
        proof {
            assert(drained@ =~= pend0);
            assert(self.pending@ =~= Seq::<u8>::empty());
        }
        let mut evs: Vec<TermEvent> = Vec::new();
        push_data_events(self.id, drained, &mut evs);
        proof {
            assert(evs@.take(0) =~= Seq::<TermEvent>::empty());
            assert(evs@.skip(0) =~= evs@);
        }
        if self.finished && !self.exited {
            let ghost evs0 = evs@;
            evs.push(TermEvent::Exit { id: self.id });
            self.exited = true;
            proof {
                assert(evs@ =~= evs0 + seq![TermEvent::Exit { id: self.id }]);
                lemma_data_payloads_append(evs0, seq![TermEvent::Exit { id: self.id }]);
                lemma_data_payloads_one(TermEvent::Exit { id: self.id });
                assert(data_payloads(evs@) =~= data_payloads(evs0));
            }
        }
        proof {
            self.delivered = Ghost(self.delivered@ + pend0);
            assert(self.delivered_spec() + self.pending_spec() =~= self.delivered_spec());
            assert(self.delivered_spec() =~= self.produced_spec());
            lemma_chunks_concat(pend0, MAX_FLUSH_BYTES as int);
        }
        evs
    }
}

/// Spec-level state of an output pipe; `OutputPipe::model` maps the
/// executable pipe onto it, and each executable operation promises to be the
/// corresponding transition below.
pub struct PipeModel {
    pub produced: Seq<u8>,
    pub delivered: Seq<u8>,
    pub pending: Seq<u8>,
    pub finished: bool,
    pub exited: bool,
}

pub open spec fn initial_pipe_model() -> PipeModel {
    PipeModel {
        produced: Seq::empty(),
        delivered: Seq::empty(),
        pending: Seq::empty(),
        finished: false,
        exited: false,
    }
}

pub open spec fn pipe_inv(m: PipeModel) -> bool {
    m.delivered + m.pending == m.produced
}

pub open spec fn append_step(m: PipeModel, chunk: Seq<u8>) -> PipeModel {
    PipeModel { produced: m.produced + chunk, pending: m.pending + chunk, ..m }
}

pub open spec fn finish_step(m: PipeModel) -> PipeModel {
    PipeModel { finished: true, ..m }
}

/// One flusher tick: the whole buffer is delivered, split into bounded
/// chunks; the second component is the data payloads published.
pub open spec fn tick_step(m: PipeModel) -> (PipeModel, Seq<Seq<u8>>) {
    (
        PipeModel {
            delivered: m.delivered + m.pending,
            pending: Seq::empty(),
            exited: m.exited || m.finished,
            ..m
        },
        chunks_of(m.pending, MAX_FLUSH_BYTES as int),
    )
}

/// One step of a session's life, as the two workers interleave.
pub enum PipeOp {
    /// The reader appends a chunk read from the pseudo-terminal.
    Append(Seq<u8>),
    /// The reader reaches end-of-stream or a read error.
    Finish,
    /// The flusher wakes and drains.
    Tick,
}

pub open spec fn op_step(m: PipeModel, op: PipeOp) -> (PipeModel, Seq<Seq<u8>>) {
    match op {
        PipeOp::Append(chunk) => (append_step(m, chunk), Seq::empty()),
        PipeOp::Finish => (finish_step(m), Seq::empty()),
        PipeOp::Tick => tick_step(m),
    }
}

/// A whole run: the final state and every data payload published, in order.
pub open spec fn run_pipe(m: PipeModel, ops: Seq<PipeOp>) -> (PipeModel, Seq<Seq<u8>>)
    decreases ops.len(),
{
    if ops.len() == 0 {
        (m, Seq::empty())
    } else {
        let s = op_step(m, ops[0]);
        let r = run_pipe(s.0, ops.skip(1));
        (r.0, s.1 + r.1)
    }
}

proof fn lemma_run_pipe(m: PipeModel, ops: Seq<PipeOp>)
    requires
        pipe_inv(m),
    ensures
        pipe_inv(run_pipe(m, ops).0),
        run_pipe(m, ops).0.delivered == m.delivered + concat_bytes(run_pipe(m, ops).1),
        ops.len() > 0 && ops.last() is Tick ==> run_pipe(m, ops).0.pending.len() == 0,
    decreases ops.len(),
{
    if ops.len() == 0 {
        assert(concat_bytes(run_pipe(m, ops).1) =~= Seq::<u8>::empty());
        assert(m.delivered + Seq::<u8>::empty() =~= m.delivered);
    } else {
        let s = op_step(m, ops[0]);
        assert(pipe_inv(s.0)) by {
            match ops[0] {
                PipeOp::Append(chunk) => {
                    assert(m.delivered + (m.pending + chunk) =~= (m.delivered + m.pending)
                        + chunk);
                },
                PipeOp::Finish => {},
                PipeOp::Tick => {
                    assert((m.delivered + m.pending) + Seq::<u8>::empty() =~= m.delivered
                        + m.pending);
                },
            }
        }
        lemma_run_pipe(s.0, ops.skip(1));
        let r = run_pipe(s.0, ops.skip(1));
        lemma_concat_bytes_append(s.1, r.1);
        assert(s.0.delivered =~= m.delivered + concat_bytes(s.1)) by {
            match ops[0] {
                PipeOp::Append(..) => {
                    assert(concat_bytes(s.1) =~= Seq::<u8>::empty());
                },
                PipeOp::Finish => {
                    assert(concat_bytes(s.1) =~= Seq::<u8>::empty());
                },
                PipeOp::Tick => {
                    lemma_chunks_concat(m.pending, MAX_FLUSH_BYTES as int);
                },
            }
        }
        assert(r.0.delivered =~= m.delivered + (concat_bytes(s.1) + concat_bytes(r.1)));
        if ops.len() > 1 {
            assert(ops.last() == ops.skip(1).last());
        } else {
            assert(ops.skip(1).len() == 0);
            if ops[0] is Tick {
                assert(run_pipe(m, ops).0.pending =~= Seq::<u8>::empty());
            }
        }
    }
}

/// Law: over any interleaving of reader appends, stream end and flusher
/// ticks, the published data payloads concatenate, in order, to exactly the
/// delivered bytes; the delivered bytes followed by the still-buffered bytes
/// are exactly the produced bytes; and whenever the run ends on a flusher
/// tick, everything produced has been published — no byte waits longer than
/// one flush interval.
pub proof fn lemma_pipe_delivery(ops: Seq<PipeOp>)
    ensures
        ({
            let r = run_pipe(initial_pipe_model(), ops);
            &&& concat_bytes(r.1) == r.0.delivered
            &&& r.0.delivered + r.0.pending == r.0.produced
            &&& (ops.len() > 0 && ops.last() is Tick ==> r.0.delivered == r.0.produced)
        }),
{
    assert(pipe_inv(initial_pipe_model())) by {
        assert(Seq::<u8>::empty() + Seq::<u8>::empty() =~= Seq::<u8>::empty());
    }
    lemma_run_pipe(initial_pipe_model(), ops);
    let r = run_pipe(initial_pipe_model(), ops);
    assert(concat_bytes(r.1) =~= Seq::<u8>::empty() + concat_bytes(r.1));
    if ops.len() > 0 && ops.last() is Tick {
        assert(r.0.delivered =~= r.0.delivered + r.0.pending);
    }
}

/// How many session-exit events a run publishes: a tick publishes one
/// exactly when the stream has finished and the event is still owed.
pub open spec fn run_exits(m: PipeModel, ops: Seq<PipeOp>) -> int
    decreases ops.len(),
{
    if ops.len() == 0 {
        0
    } else {
        let e: int = if ops[0] is Tick && m.finished && !m.exited {
            1
        } else {
            0
        };
        e + run_exits(op_step(m, ops[0]).0, ops.skip(1))
    }
}

/// Law: the session-exit event is published at most once, however the
/// reader and the flusher interleave — and never again once it is out.
pub proof fn lemma_exit_published_once(m: PipeModel, ops: Seq<PipeOp>)
    ensures
        run_exits(m, ops) <= 1,
        m.exited ==> run_exits(m, ops) == 0,
    decreases ops.len(),
{
    if ops.len() > 0 {
        let next = op_step(m, ops[0]).0;
        lemma_exit_published_once(next, ops.skip(1));
        if ops[0] is Tick && m.finished && !m.exited {
            assert(next.exited);
        }
    }
}

impl OutputPipe {
    /// The pipe's spec-level state.
    pub open spec fn model(self) -> PipeModel {
        PipeModel {
            produced: self.produced_spec(),
            delivered: self.delivered_spec(),
            pending: self.pending_spec(),
            finished: self.is_finished(),
            exited: self.has_exited(),
        }
    }
}

/// Law: what has been delivered is always a prefix of what was produced —
/// bytes are published in production order with nothing skipped.
pub proof fn lemma_delivered_is_prefix_of_produced(p: OutputPipe)
    requires
        p.wf(),
    ensures
        p.delivered_spec() == p.produced_spec().take(p.delivered_spec().len() as int),
{
    assert(p.delivered_spec() =~= p.produced_spec().take(p.delivered_spec().len() as int));
}

/// Law: one burst of output followed by silence is still delivered.  A
/// single flusher tick emits data events carrying exactly the buffered
/// bytes — `flush_tick` promises its events equal `chunks_of` the pending
/// buffer with no condition on the reader still producing — and it emits at
/// least one event exactly when there is anything to deliver.
pub proof fn lemma_tick_delivers_single_burst(pending: Seq<u8>)
    ensures
        concat_bytes(chunks_of(pending, MAX_FLUSH_BYTES as int)) == pending,
        chunks_of(pending, MAX_FLUSH_BYTES as int).len() > 0 <==> pending.len() > 0,
{
    lemma_chunks_concat(pending, MAX_FLUSH_BYTES as int);
}

/// Append the data events for `data`, split into chunks of at most
/// `MAX_FLUSH_BYTES`, to `evs`.
fn push_data_events(id: u32, data: Vec<u8>, evs: &mut Vec<TermEvent>)
    ensures
        final(evs)@.take(old(evs)@.len() as int) == old(evs)@,
        data_payloads(final(evs)@.skip(old(evs)@.len() as int)) == chunks_of(
            data@,
            MAX_FLUSH_BYTES as int,
        ),
        final(evs)@.len() == old(evs)@.len() + chunks_of(data@, MAX_FLUSH_BYTES as int).len(),
        forall|i: int|
            old(evs)@.len() <= i < final(evs)@.len() ==> (#[trigger] final(evs)@[i])
                == (TermEvent::Data {
                id,
                bytes: final(evs)@[i]->Data_bytes,
            }) && final(evs)@[i]->Data_bytes@ == chunks_of(data@, MAX_FLUSH_BYTES as int)[i - old(
                evs,
            )@.len()],
    decreases data@.len(),
{
    let ghost evs0 = evs@;
    if data.len() == 0 {
        proof {
            assert(evs@.take(evs0.len() as int) =~= evs0);
            assert(evs@.skip(evs0.len() as int) =~= Seq::<TermEvent>::empty());
        }
    } else if data.len() <= MAX_FLUSH_BYTES {
        let ghost d = data@;
        evs.push(TermEvent::Data { id, bytes: data });
        proof {
            assert(evs@.take(evs0.len() as int) =~= evs0);
            assert(evs@.skip(evs0.len() as int) =~= seq![evs@.last()]);
            lemma_data_payloads_one(evs@.last());
            assert(data_payloads(evs@.skip(evs0.len() as int)) =~= seq![d]);
            assert(chunks_of(d, MAX_FLUSH_BYTES as int) =~= seq![d]);
        }
    } else {
        let mut head = data;
        let ghost d = head@;
        let rest = head.split_off(MAX_FLUSH_BYTES);
        let ghost mid = evs@;
        evs.push(TermEvent::Data { id, bytes: head });
        let ghost after_push = evs@;
        push_data_events(id, rest, evs);
        proof {
            assert(after_push.take(evs0.len() as int) =~= evs0);
            assert(evs@.take(evs0.len() as int) =~= after_push.take(
                after_push.len() as int,
            ).take(evs0.len() as int));
            assert(evs@.take(after_push.len() as int).take(evs0.len() as int) =~= evs@.take(
                evs0.len() as int,
            ));
            let tail = evs@.skip(evs0.len() as int);
            assert(tail =~= seq![after_push.last()] + evs@.skip(after_push.len() as int));
            lemma_data_payloads_append(
                seq![after_push.last()],
                evs@.skip(after_push.len() as int),
            );
            lemma_data_payloads_one(after_push.last());
            assert(data_payloads(seq![after_push.last()]) =~= seq![d.take(
                MAX_FLUSH_BYTES as int,
            )]);
            assert(chunks_of(d, MAX_FLUSH_BYTES as int) =~= seq![d.take(MAX_FLUSH_BYTES as int)]
                + chunks_of(d.skip(MAX_FLUSH_BYTES as int), MAX_FLUSH_BYTES as int));
        }
    }
}

} // verus!
