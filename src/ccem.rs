//! Channel conditioning: TX smoothing, RX de-jitter and reordering, and
//! clock drift compensation.

use vstd::prelude::*;
use std::collections::VecDeque;
use crate::clock::now_micros;
use crate::envelope::{Envelope, EnvelopeView};
use crate::error::AriaResult;

verus! {

pub struct TxConditionerView {
    /// Minimum gap between sends, in microseconds.
    pub smoothing_window: u64,
    pub last_send: Option<i64>,
    pub queue: Seq<EnvelopeView>,
}

/// One submission at `now`: inside the window after the last send it is
/// queued and nothing goes out; otherwise the send instant is recorded and
/// the head of the queue goes out (the submission joining the queue's tail),
/// or the submission itself where the queue is empty.
pub open spec fn condition_spec(s: TxConditionerView, e: EnvelopeView, now: int) -> (
    TxConditionerView,
    Option<EnvelopeView>,
) {
    match s.last_send {
        Some(l) if now - l < s.smoothing_window => (
            TxConditionerView { queue: s.queue.push(e), ..s },
            None,
        ),
        _ => if s.queue.len() > 0 {
            (
                TxConditionerView {
                    last_send: Some(now as i64),
                    queue: s.queue.drop_first().push(e),
                    ..s
                },
                Some(s.queue[0]),
            )
        } else {
            (TxConditionerView { last_send: Some(now as i64), ..s }, Some(e))
        },
    }
}

/// Smooths output to at most one send per window; FIFO.
pub struct TxConditioner {
    smoothing_window: u64,
    last_send: Option<i64>,
    queue: VecDeque<Envelope>,
}

impl View for TxConditioner {
    type V = TxConditionerView;

    closed spec fn view(&self) -> TxConditionerView {
        TxConditionerView {
            smoothing_window: self.smoothing_window,
            last_send: self.last_send,
            queue: self.queue@.map_values(|e: Envelope| e@),
        }
    }
}

impl TxConditioner {
    /// A conditioner with a gap of `smoothing_window` microseconds.
    pub fn new(smoothing_window: u64) -> (r: Self)
        ensures
            r@ == (TxConditionerView { smoothing_window, last_send: None, queue: Seq::empty() }),
    {
        let r = TxConditioner { smoothing_window, last_send: None, queue: VecDeque::new() };
        assert(r@.queue =~= Seq::<EnvelopeView>::empty());
        r
    }

    /// `condition_at` at the current wall-clock instant.
    pub fn condition(&mut self, envelope: Envelope) -> (r: AriaResult<Option<Envelope>>)
        ensures
            exists|now: i64|
                {
                    let (s, out) = #[trigger] condition_spec(old(self)@, envelope@, now as int);
                    &&& final(self)@ == s
                    &&& r matches Ok(o) && match o {
                        Some(x) => out == Some(x@),
                        None => out is None,
                    }
                },
    {
        let now = now_micros();
        let ghost e = envelope@;
        let r = self.condition_at(envelope, now);
        assert(condition_spec(old(self)@, e, now as int).0 == self@);
        r
    }

    /// Submits `envelope` at instant `now`: see `condition_spec`.
    pub fn condition_at(&mut self, envelope: Envelope, now: i64) -> (r: AriaResult<Option<Envelope>>)
        ensures
            ({
                let (s, out) = condition_spec(old(self)@, envelope@, now as int);
                &&& final(self)@ == s
                &&& r matches Ok(o) && match o {
                    Some(x) => out == Some(x@),
                    None => out is None,
                }
            }),
    {
        let ghost e = envelope@;
        if let Some(last) = self.last_send {
            if (now as i128) - (last as i128) < (self.smoothing_window as i128) {
                self.queue.push_back(envelope);
                assert(self@.queue =~= old(self)@.queue.push(e));
                return Ok(None);
            }
        }
        self.last_send = Some(now);
        if let Some(queued) = self.queue.pop_front() {
            self.queue.push_back(envelope);
            assert(self@.queue =~= old(self)@.queue.drop_first().push(e));
            Ok(Some(queued))
        } else {
            assert(self@.queue =~= old(self)@.queue);
            Ok(Some(envelope))
        }
    }
}

/// Keeps a clock offset, in microseconds, as an exponential moving average
/// of measurements with weight one tenth.
pub struct DriftCompensator {
    clock_offset: u64,
}

impl DriftCompensator {
    pub fn new() -> (r: Self)
        ensures
            r.offset() == 0,
    {
        DriftCompensator { clock_offset: 0 }
    }

    pub closed spec fn offset(&self) -> u64 {
        self.clock_offset
    }

    pub fn clock_offset(&self) -> (r: u64)
        ensures
            r == self.offset(),
    {
        self.clock_offset
    }

    /// `timestamp` (microseconds since the epoch) moved by the offset.
    pub fn compensate(&self, timestamp: i64) -> (r: i64)
        requires
            timestamp + self.offset() <= i64::MAX,
        ensures
            r == timestamp + self.offset(),
    {
        ((timestamp as i128) + (self.clock_offset as i128)) as i64
    }

    /// Folds a measured offset into the average:
    /// `floor((measured + 9 * current) / 10)`.
    pub fn update_offset(&mut self, measured_offset: u64)
        ensures
            final(self).offset() == (measured_offset + 9 * old(self).offset()) / 10,
    {
        let sum: u128 = (measured_offset as u128) + 9 * (self.clock_offset as u128);
        self.clock_offset = (sum / 10) as u64;
    }
}

pub open spec fn seq_of(e: EnvelopeView) -> int {
    e.metadata.sequence_number as int
}

/// Whether some buffered envelope carries sequence number `q`.
pub open spec fn holds_seq(buf: Seq<EnvelopeView>, q: int) -> bool {
    exists|i: int| 0 <= i < buf.len() && seq_of(#[trigger] buf[i]) == q
}

/// Strictly increasing sequence numbers.
pub open spec fn strictly_sorted(buf: Seq<EnvelopeView>) -> bool {
    forall|i: int, j: int| 0 <= i < j < buf.len() ==> seq_of(#[trigger] buf[i]) < seq_of(#[trigger] buf[j])
}

/// Number of buffered entries with a lower sequence number than `q`.
pub open spec fn insert_pos(buf: Seq<EnvelopeView>, q: int) -> int
    decreases buf.len(),
{
    if buf.len() == 0 {
        0
    } else if seq_of(buf[0]) < q {
        1 + insert_pos(buf.drop_first(), q)
    } else {
        0
    }
}

pub open spec fn sorted_insert(buf: Seq<EnvelopeView>, e: EnvelopeView) -> Seq<EnvelopeView> {
    buf.insert(insert_pos(buf, seq_of(e)), e)
}

/// Pops the head while it carries `next`, advancing `next` each time:
/// the entries emitted, the rest, and the new `next`.
pub open spec fn emit_run(buf: Seq<EnvelopeView>, next: int) -> (Seq<EnvelopeView>, Seq<EnvelopeView>, int)
    decreases buf.len(),
{
    if buf.len() > 0 && seq_of(buf[0]) == next {
        let (em, rest, n) = emit_run(buf.drop_first(), next + 1);
        (seq![buf[0]] + em, rest, n)
    } else {
        (Seq::empty(), buf, next)
    }
}

pub struct DeJitterView {
    pub buffer: Seq<EnvelopeView>,
    pub buffer_size: nat,
    pub next_sequence: int,
}

/// One arrival: a late one (below `next`) or a duplicate is discarded.
/// Otherwise it is inserted in order; where the buffer then exceeds its
/// size, its lowest entry is taken as lost and dropped, and `next` skips
/// past it. Then the in-order run from `next` is emitted.
pub open spec fn add_spec(s: DeJitterView, e: EnvelopeView) -> (DeJitterView, Seq<EnvelopeView>) {
    let q = seq_of(e);
    if q < s.next_sequence || holds_seq(s.buffer, q) {
        (s, Seq::empty())
    } else {
        let b1 = sorted_insert(s.buffer, e);
        if b1.len() > s.buffer_size {
            let (em, rest, n) = emit_run(b1.drop_first(), seq_of(b1[0]) + 1);
            (DeJitterView { buffer: rest, next_sequence: n, ..s }, em)
        } else {
            let (em, rest, n) = emit_run(b1, s.next_sequence);
            (DeJitterView { buffer: rest, next_sequence: n, ..s }, em)
        }
    }
}

pub open spec fn dejitter_wf(s: DeJitterView) -> bool {
    &&& strictly_sorted(s.buffer)
    &&& forall|i: int| 0 <= i < s.buffer.len() ==> seq_of(#[trigger] s.buffer[i]) > s.next_sequence
    &&& 0 <= s.next_sequence <= u64::MAX + 1
    &&& s.buffer.len() <= s.buffer_size
}

/// Reorders arrivals by sequence number, starting from zero.
pub struct RxDeJitter {
    buffer: Vec<Envelope>,
    buffer_size: usize,
    next_sequence: u128,
}

impl View for RxDeJitter {
    type V = DeJitterView;

    closed spec fn view(&self) -> DeJitterView {
        DeJitterView {
            buffer: self.buffer@.map_values(|e: Envelope| e@),
            buffer_size: self.buffer_size as nat,
            next_sequence: self.next_sequence as int,
        }
    }
}

proof fn lemma_insert_pos(buf: Seq<EnvelopeView>, q: int)
    requires
        strictly_sorted(buf),
    ensures
        0 <= insert_pos(buf, q) <= buf.len(),
        forall|i: int| 0 <= i < insert_pos(buf, q) ==> seq_of(#[trigger] buf[i]) < q,
        forall|i: int| insert_pos(buf, q) <= i < buf.len() ==> seq_of(#[trigger] buf[i]) >= q,
    decreases buf.len(),
{
    if buf.len() > 0 {
        let t = buf.drop_first();
        assert forall|i: int, j: int| 0 <= i < j < t.len() implies seq_of(#[trigger] t[i]) < seq_of(
            #[trigger] t[j],
        ) by {
            assert(t[i] == buf[i + 1] && t[j] == buf[j + 1]);
        }
        lemma_insert_pos(t, q);
        if seq_of(buf[0]) < q {
            assert forall|i: int| 0 <= i < insert_pos(buf, q) implies seq_of(#[trigger] buf[i]) < q by {
                if i > 0 {
                    assert(buf[i] == t[i - 1]);
                }
            }
            assert forall|i: int| insert_pos(buf, q) <= i < buf.len() implies seq_of(
                #[trigger] buf[i],
            ) >= q by {
                assert(buf[i] == t[i - 1]);
            }
        } else {
            assert forall|i: int| 0 <= i < buf.len() implies seq_of(#[trigger] buf[i]) >= q by {
                if i > 0 {
                    assert(seq_of(buf[0]) < seq_of(buf[i]));
                }
            }
        }
    }
}

proof fn lemma_emit_run(buf: Seq<EnvelopeView>, next: int)
    requires
        strictly_sorted(buf),
        forall|i: int| 0 <= i < buf.len() ==> seq_of(#[trigger] buf[i]) >= next,
    ensures
        ({
            let (em, rest, n) = emit_run(buf, next);
            &&& buf == em + rest
            &&& n == next + em.len()
            &&& forall|i: int| 0 <= i < em.len() ==> seq_of(#[trigger] em[i]) == next + i
            &&& forall|i: int| 0 <= i < rest.len() ==> seq_of(#[trigger] rest[i]) > n
            &&& strictly_sorted(rest)
        }),
    decreases buf.len(),
{
    if buf.len() > 0 && seq_of(buf[0]) == next {
        let t = buf.drop_first();
        assert forall|i: int, j: int| 0 <= i < j < t.len() implies seq_of(#[trigger] t[i]) < seq_of(
            #[trigger] t[j],
        ) by {
            assert(t[i] == buf[i + 1] && t[j] == buf[j + 1]);
        }
        assert forall|i: int| 0 <= i < t.len() implies seq_of(#[trigger] t[i]) >= next + 1 by {
            assert(t[i] == buf[i + 1]);
        }
        lemma_emit_run(t, next + 1);
        let (em, rest, n) = emit_run(t, next + 1);
        assert(t == em + rest);
        assert(buf =~= seq![buf[0]] + t);
        assert(buf =~= (seq![buf[0]] + em) + rest);
        assert forall|i: int| 0 <= i < em.len() + 1 implies seq_of(#[trigger] (seq![buf[0]] + em)[i])
            == next + i by {
            if i > 0 {
                assert((seq![buf[0]] + em)[i] == em[i - 1]);
            }
        }
    } else {
        assert(buf =~= Seq::<EnvelopeView>::empty() + buf);
        assert forall|i: int| 0 <= i < buf.len() implies seq_of(#[trigger] buf[i]) > next by {
            if i > 0 {
                assert(seq_of(buf[0]) < seq_of(buf[i]));
            }
        }
    }
}

impl RxDeJitter {
    pub closed spec fn wf(&self) -> bool {
        &&& dejitter_wf(self@)
        &&& self.next_sequence <= u64::MAX + 1
    }

    /// An empty buffer of `buffer_size` entries, expecting sequence 0 next.
    pub fn new(buffer_size: usize) -> (r: Self)
        ensures
            r.wf(),
            r@ == (DeJitterView { buffer: Seq::empty(), buffer_size: buffer_size as nat, next_sequence: 0 }),
    {
        let r = RxDeJitter { buffer: Vec::new(), buffer_size, next_sequence: 0 };
        assert(r@.buffer =~= Seq::<EnvelopeView>::empty());
        r
    }

    /// The sequence number expected next.
    pub fn next_sequence(&self) -> (r: u128)
        ensures
            r == self@.next_sequence,
    {
        self.next_sequence
    }

    /// Takes one arrival and returns what it releases, in sequence order:
    /// see `add_spec`.
    pub fn add(&mut self, envelope: Envelope) -> (r: Vec<Envelope>)
        requires
            old(self).wf(),
        ensures
            final(self).wf(),
            (final(self)@, out_view(r@)) == add_spec(old(self)@, envelope@),
    {
        let ghost s0 = self@;
        let ghost e = envelope@;
        let q = envelope.metadata.sequence_number;
        let mut out: Vec<Envelope> = Vec::new();
        assert(out_view(out@) =~= Seq::<EnvelopeView>::empty());
        if (q as u128) < self.next_sequence {
            return out;
        }
        let mut pos: usize = 0;
        while pos < self.buffer.len() && self.buffer[pos].metadata.sequence_number < q
            invariant
                self@ == s0,
                pos <= self@.buffer.len(),
                forall|i: int| 0 <= i < pos ==> seq_of(#[trigger] self@.buffer[i]) < q,
            decreases self@.buffer.len() - pos,
        {
            pos = pos + 1;
        }
        proof {
            let buf = s0.buffer;
            lemma_insert_pos(buf, q as int);
            let p = insert_pos(buf, q as int);
            if (pos as int) < p {
                assert(seq_of(buf[pos as int]) < q);
            }
            if (pos as int) > p {
                assert(seq_of(buf[p]) >= q);
            }
            assert(pos == p);
            if holds_seq(buf, q as int) {
                let i = choose|i: int| 0 <= i < buf.len() && seq_of(#[trigger] buf[i]) == q;
                if i > pos {
                    assert(seq_of(buf[pos as int]) < seq_of(buf[i]));
                }
                assert(i == pos);
            }
        }
        if pos < self.buffer.len() && self.buffer[pos].metadata.sequence_number == q {
            proof {
                assert(seq_of(s0.buffer[pos as int]) == q);
            }
            return out;
        }
        self.buffer.insert(pos, envelope);
        proof {
            let b1 = sorted_insert(s0.buffer, e);
            assert(self@.buffer =~= b1);
            assert forall|i: int, j: int| 0 <= i < j < b1.len() implies seq_of(#[trigger] b1[i])
                < seq_of(#[trigger] b1[j]) by {
                if j < pos {
                } else if j == pos {
                } else if i < pos {
                    assert(b1[j] == s0.buffer[j - 1]);
                } else if i == pos {
                    assert(b1[j] == s0.buffer[j - 1]);
                    assert(seq_of(s0.buffer[pos as int]) != q);
                    if j - 1 > pos {
                        assert(seq_of(s0.buffer[pos as int]) < seq_of(s0.buffer[j - 1]));
                    }
                } else {
                    assert(b1[i] == s0.buffer[i - 1] && b1[j] == s0.buffer[j - 1]);
                }
            }
            assert forall|i: int| 0 <= i < b1.len() implies seq_of(#[trigger] b1[i]) >= s0.next_sequence by {
                if i < pos {
                } else if i > pos {
                    assert(b1[i] == s0.buffer[i - 1]);
                }
            }
        }
        let ghost b1 = self@.buffer;
        if self.buffer.len() > self.buffer_size {
            let dropped = self.buffer.remove(0);
            self.next_sequence = (dropped.metadata.sequence_number as u128) + 1;
            proof {
                assert(self@.buffer =~= b1.drop_first());
                assert forall|i: int| 0 <= i < self@.buffer.len() implies seq_of(#[trigger] self@.buffer[i])
                    >= self@.next_sequence by {
                    assert(self@.buffer[i] == b1[i + 1]);
                    assert(seq_of(b1[0]) < seq_of(b1[i + 1]));
                }
                assert forall|i: int, j: int| 0 <= i < j < self@.buffer.len() implies seq_of(
                    #[trigger] self@.buffer[i],
                ) < seq_of(#[trigger] self@.buffer[j]) by {
                    assert(self@.buffer[i] == b1[i + 1] && self@.buffer[j] == b1[j + 1]);
                }
            }
            self.emit(&mut out);
            proof {
                lemma_emit_run(b1.drop_first(), seq_of(b1[0]) + 1);
            }
        } else {
            self.emit(&mut out);
            proof {
                lemma_emit_run(b1, s0.next_sequence);
            }
        }
        out
    }

    /// Takes a batch of arrivals in order and returns everything they
    /// release, in order: `feed` of the batch.
    pub fn add_all(&mut self, envelopes: Vec<Envelope>) -> (r: Vec<Envelope>)
        requires
            old(self).wf(),
        ensures
            final(self).wf(),
            (final(self)@, out_view(r@)) == feed(old(self)@, out_view(envelopes@)),
    {
        let ghost es = out_view(envelopes@);
        let mut rest = envelopes;
        let mut out: Vec<Envelope> = Vec::new();
        let ghost mut k: int = 0;
        assert(es.subrange(0, 0) =~= Seq::<EnvelopeView>::empty());
        assert(out_view(out@) =~= Seq::<EnvelopeView>::empty());
        while rest.len() > 0
            invariant
                self.wf(),
                0 <= k <= es.len(),
                rest@.len() == es.len() - k,
                forall|i: int| 0 <= i < rest@.len() ==> (#[trigger] rest@[i])@ == es[i + k],
                (self@, out_view(out@)) == feed(old(self)@, es.subrange(0, k)),
            decreases rest@.len(),
        {
            let ghost prev = rest@;
            let e = rest.remove(0);
            proof {
                assert(e@ == es[k]);
                assert forall|i: int| 0 <= i < rest@.len() implies (#[trigger] rest@[i])@ == es[i + k + 1] by {
                    assert(rest@[i] == prev[i + 1]);
                }
                assert(es.subrange(0, k + 1).drop_last() =~= es.subrange(0, k));
                assert(es.subrange(0, k + 1).last() == es[k]);
            }
            let ghost ov = out_view(out@);
            let released = self.add(e);
            let ghost rv = out_view(released@);
            let mut released = released;
            out.append(&mut released);
            proof {
                assert(out_view(out@) =~= ov + rv);
                k = k + 1;
            }
        }
        assert(es.subrange(0, k) =~= es);
        out
    }

    /// Emits the in-order run at the head of the buffer.
    fn emit(&mut self, out: &mut Vec<Envelope>)
        requires
            strictly_sorted(old(self)@.buffer),
            forall|i: int|
                0 <= i < old(self)@.buffer.len() ==> seq_of(#[trigger] old(self)@.buffer[i]) >= old(
                    self,
                )@.next_sequence,
            old(self).next_sequence <= u64::MAX + 1,
        ensures
            ({
                let (em, rest, n) = emit_run(old(self)@.buffer, old(self)@.next_sequence);
                &&& final(self)@ == DeJitterView { buffer: rest, next_sequence: n, ..old(self)@ }
                &&& out_view(final(out)@) == out_view(old(out)@) + em
            }),
            final(self).next_sequence <= u64::MAX + 1,
    {
        proof {
            lemma_emit_run(self@.buffer, self@.next_sequence);
        }
        let ghost b0 = self@.buffer;
        let ghost n0 = self@.next_sequence;
        let ghost o0 = out_view(out@);
        while self.buffer.len() > 0 && self.buffer[0].metadata.sequence_number as u128 == self.next_sequence
            invariant
                self.buffer_size == old(self).buffer_size,
                strictly_sorted(self@.buffer),
                forall|i: int| 0 <= i < self@.buffer.len() ==> seq_of(#[trigger] self@.buffer[i]) >= self@.next_sequence,
                self.next_sequence <= u64::MAX + 1,
                emit_run(self@.buffer, self@.next_sequence).1 == emit_run(b0, n0).1,
                emit_run(self@.buffer, self@.next_sequence).2 == emit_run(b0, n0).2,
                o0 + emit_run(b0, n0).0 == out_view(out@) + emit_run(self@.buffer, self@.next_sequence).0,
            decreases self@.buffer.len(),
        {
            let ghost b = self@.buffer;
            let ghost nx = self@.next_sequence;
            proof {
                lemma_emit_run(b, nx);
                let t = b.drop_first();
                assert forall|i: int, j: int| 0 <= i < j < t.len() implies seq_of(#[trigger] t[i])
                    < seq_of(#[trigger] t[j]) by {
                    assert(t[i] == b[i + 1] && t[j] == b[j + 1]);
                }
                assert forall|i: int| 0 <= i < t.len() implies seq_of(#[trigger] t[i]) >= nx + 1 by {
                    assert(t[i] == b[i + 1]);
                    assert(seq_of(b[0]) < seq_of(b[i + 1]));
                }
            }
            let ghost ob = out_view(out@);
            let e = self.buffer.remove(0);
            out.push(e);
            self.next_sequence = self.next_sequence + 1;
            proof {
                assert(self@.buffer =~= b.drop_first());
                let (em, rest, n) = emit_run(b.drop_first(), nx + 1);
                assert(out_view(out@) =~= ob.push(b[0]));
                assert(emit_run(b, nx).0 =~= seq![b[0]] + em);
                assert(ob + (seq![b[0]] + em) =~= ob.push(b[0]) + em);
            }
        }
        proof {
            assert(emit_run(self@.buffer, self@.next_sequence).0 =~= Seq::<EnvelopeView>::empty());
            assert(out_view(out@) + Seq::<EnvelopeView>::empty() =~= out_view(out@));
        }
    }
}

/// The state and the released envelopes after feeding `es` in turn.
pub open spec fn feed(s: DeJitterView, es: Seq<EnvelopeView>) -> (DeJitterView, Seq<EnvelopeView>)
    decreases es.len(),
{
    if es.len() == 0 {
        (s, Seq::empty())
    } else {
        let (s1, o1) = feed(s, es.drop_last());
        let (s2, o2) = add_spec(s1, es.last());
        (s2, o1 + o2)
    }
}

pub open spec fn fresh_dejitter(size: nat) -> DeJitterView {
    DeJitterView { buffer: Seq::empty(), buffer_size: size, next_sequence: 0 }
}

proof fn lemma_sorted_span(buf: Seq<EnvelopeView>, lo: int, hi: int)
    requires
        strictly_sorted(buf),
        forall|i: int| 0 <= i < buf.len() ==> lo <= seq_of(#[trigger] buf[i]) < hi,
    ensures
        buf.len() == 0 || buf.len() <= hi - lo,
    decreases buf.len(),
{
    if buf.len() > 0 {
        let t = buf.drop_first();
        assert forall|i: int, j: int| 0 <= i < j < t.len() implies seq_of(#[trigger] t[i]) < seq_of(
            #[trigger] t[j],
        ) by {
            assert(t[i] == buf[i + 1] && t[j] == buf[j + 1]);
        }
        assert forall|i: int| 0 <= i < t.len() implies lo + 1 <= seq_of(#[trigger] t[i]) < hi by {
            assert(t[i] == buf[i + 1]);
            assert(seq_of(buf[0]) < seq_of(buf[i + 1]));
        }
        lemma_sorted_span(t, lo + 1, hi);
        assert(lo <= seq_of(buf[0]) < hi);
    }
}

proof fn lemma_feed_invariant(es: Seq<EnvelopeView>, size: nat, n: nat, k: nat)
    requires
        k <= es.len(),
        n <= size,
        forall|j: int| 0 <= j < es.len() ==> seq_of(#[trigger] es[j]) < n,
    ensures
        ({
            let (s, out) = feed(fresh_dejitter(size), es.subrange(0, k as int));
            &&& dejitter_wf(s)
            &&& s.buffer_size == size
            &&& out.len() == s.next_sequence
            &&& forall|i: int| 0 <= i < out.len() ==> seq_of(#[trigger] out[i]) == i
            &&& s.next_sequence <= n
            &&& forall|i: int| 0 <= i < s.buffer.len() ==> seq_of(#[trigger] s.buffer[i]) < n
            &&& forall|j: int|
                0 <= j < k ==> seq_of(#[trigger] es[j]) < s.next_sequence || holds_seq(
                    s.buffer,
                    seq_of(es[j]),
                )
        }),
    decreases k,
{
    let pre = es.subrange(0, k as int);
    if k == 0 {
        assert(pre =~= Seq::<EnvelopeView>::empty());
    } else {
        lemma_feed_invariant(es, size, n, (k - 1) as nat);
        assert(pre.drop_last() =~= es.subrange(0, k - 1));
        assert(pre.last() == es[k - 1]);
        let (s1, o1) = feed(fresh_dejitter(size), es.subrange(0, k - 1));
        let e = es[k - 1];
        let q = seq_of(e);
        if q < s1.next_sequence || holds_seq(s1.buffer, q) {
            assert(o1 + Seq::<EnvelopeView>::empty() =~= o1);
        } else {
            let b1 = sorted_insert(s1.buffer, e);
            lemma_insert_pos(s1.buffer, q);
            let p = insert_pos(s1.buffer, q);
            assert forall|i: int, j: int| 0 <= i < j < b1.len() implies seq_of(#[trigger] b1[i])
                < seq_of(#[trigger] b1[j]) by {
                if j < p {
                } else if j == p {
                } else if i < p {
                    assert(b1[j] == s1.buffer[j - 1]);
                } else if i == p {
                    assert(b1[j] == s1.buffer[j - 1]);
                    if seq_of(s1.buffer[j - 1]) == q {
                        assert(holds_seq(s1.buffer, q));
                    }
                } else {
                    assert(b1[i] == s1.buffer[i - 1] && b1[j] == s1.buffer[j - 1]);
                }
            }
            assert forall|i: int| 0 <= i < b1.len() implies s1.next_sequence <= seq_of(#[trigger] b1[i])
                < n by {
                if i < p {
                    assert(b1[i] == s1.buffer[i]);
                } else if i > p {
                    assert(b1[i] == s1.buffer[i - 1]);
                }
            }
            lemma_sorted_span(b1, s1.next_sequence, n as int);
            assert(b1.len() <= size);
            lemma_emit_run(b1, s1.next_sequence);
            let (em, rest, n1) = emit_run(b1, s1.next_sequence);
            assert forall|i: int| 0 <= i < rest.len() implies n1 + 1 <= seq_of(#[trigger] rest[i]) < n by {
                assert(rest[i] == b1[em.len() + i]);
            }
            lemma_sorted_span(rest, n1 + 1, n as int);
            assert(rest.len() <= size);
            let s2 = DeJitterView { buffer: rest, next_sequence: n1, ..s1 };
            assert(feed(fresh_dejitter(size), pre) == (s2, o1 + em));
            assert forall|i: int| 0 <= i < (o1 + em).len() implies seq_of(#[trigger] (o1 + em)[i]) == i by {
                if i >= o1.len() {
                    assert((o1 + em)[i] == em[i - o1.len()]);
                }
            }
            if em.len() > 0 {
                assert(seq_of(b1[em.len() - 1]) < n);
                assert(b1[em.len() - 1] == em[em.len() - 1]);
            }
            assert forall|i: int| 0 <= i < rest.len() implies seq_of(#[trigger] rest[i]) > n1 by {}
            assert forall|j: int| 0 <= j < k implies seq_of(#[trigger] es[j]) < n1 || holds_seq(
                rest,
                seq_of(es[j]),
            ) by {
                let x = seq_of(es[j]);
                if x >= n1 {
                    let w = if j == k - 1 {
                        p
                    } else {
                        let i0 = choose|i0: int| 0 <= i0 < s1.buffer.len() && seq_of(#[trigger] s1.buffer[i0]) == x;
                        if i0 < p {
                            i0
                        } else {
                            i0 + 1
                        }
                    };
                    if j < k - 1 {
                        let i0 = choose|i0: int| 0 <= i0 < s1.buffer.len() && seq_of(#[trigger] s1.buffer[i0]) == x;
                        if i0 < p {
                            assert(b1[i0] == s1.buffer[i0]);
                        } else {
                            assert(b1[i0 + 1] == s1.buffer[i0]);
                        }
                    }
                    assert(seq_of(b1[w]) == x);
                    if w < em.len() {
                        assert(b1[w] == em[w]);
                    } else {
                        assert(b1[w] == rest[w - em.len()]);
                    }
                }
            }
        }
    }
}

/// Reordering: feeding a fresh de-jitter (buffer size at least `n`)
/// envelopes whose sequence numbers are exactly `0..n`, in any order and
/// with any duplicates, releases `n` envelopes carrying `0, 1, ..., n - 1`
/// in that order.
pub proof fn lemma_dejitter_restores_order(es: Seq<EnvelopeView>, size: nat, n: nat)
    requires
        n <= size,
        forall|j: int| 0 <= j < es.len() ==> seq_of(#[trigger] es[j]) < n,
        forall|v: int| 0 <= v < n ==> #[trigger] holds_seq(es, v),
    ensures
        ({
            let out = feed(fresh_dejitter(size), es).1;
            &&& out.len() == n
            &&& forall|i: int| 0 <= i < n ==> seq_of(#[trigger] out[i]) == i
        }),
{
    lemma_feed_invariant(es, size, n, es.len());
    assert(es.subrange(0, es.len() as int) =~= es);
    let (s, out) = feed(fresh_dejitter(size), es);
    if s.next_sequence < n {
        let v = s.next_sequence;
        assert(holds_seq(es, v));
        let j = choose|j: int| 0 <= j < es.len() && seq_of(#[trigger] es[j]) == v;
        assert(holds_seq(s.buffer, v));
        let i = choose|i: int| 0 <= i < s.buffer.len() && seq_of(#[trigger] s.buffer[i]) == v;
        assert(seq_of(s.buffer[i]) > v);
    }
}

pub open spec fn out_view(v: Seq<Envelope>) -> Seq<EnvelopeView> {
    v.map_values(|e: Envelope| e@)
}

} // verus!
