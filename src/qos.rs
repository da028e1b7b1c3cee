//! QoS: strict-priority queues, each rate-limited by a token bucket.

use vstd::prelude::*;
use std::collections::VecDeque;
use crate::clock::now_micros;
use crate::envelope::{Envelope, EnvelopeView, Priority};
use crate::error::AriaResult;

verus! {

/// Micro-tokens per token. A rate of `R` tokens per second adds exactly `R`
/// micro-tokens per microsecond.
pub const TOKEN_SCALE: u128 = 1_000_000;

/// Rate limit and queue bound of one priority class.
#[derive(Debug, Clone, Copy, PartialEq, Eq, Structural)]
pub struct QoSPolicy {
    /// Tokens added per second.
    pub max_rate_per_sec: u64,
    /// Bucket capacity, in tokens.
    pub burst_size: u64,
    pub max_queue_depth: usize,
}

pub struct BucketView {
    /// In tokens.
    pub capacity: nat,
    /// In micro-tokens.
    pub tokens: nat,
    /// Tokens per second.
    pub rate: nat,
    /// Microseconds since the epoch.
    pub last_refill: int,
}

/// The bucket brought up to `now`: tokens accrue at the rate, up to the
/// capacity. An instant not after the last refill changes nothing.
pub open spec fn refill_spec(b: BucketView, now: int) -> BucketView {
    if now > b.last_refill {
        let t = b.tokens + (now - b.last_refill) * b.rate;
        BucketView {
            tokens: if t < b.capacity * TOKEN_SCALE {
                t as nat
            } else {
                (b.capacity * TOKEN_SCALE) as nat
            },
            last_refill: now,
            ..b
        }
    } else {
        b
    }
}

/// Refill at `now`, then take one token if `want` and one is there; the flag
/// says whether one was taken.
pub open spec fn step_spec(b: BucketView, now: int, want: bool) -> (BucketView, bool) {
    let r = refill_spec(b, now);
    if want && r.tokens >= TOKEN_SCALE {
        (BucketView { tokens: (r.tokens - TOKEN_SCALE) as nat, ..r }, true)
    } else {
        (r, false)
    }
}

/// The bucket after a run of steps, and how many tokens were taken.
pub open spec fn run_spec(b: BucketView, steps: Seq<(int, bool)>) -> (BucketView, nat)
    decreases steps.len(),
{
    if steps.len() == 0 {
        (b, 0)
    } else {
        let (b1, n) = run_spec(b, steps.drop_last());
        let (b2, ok) = step_spec(b1, steps.last().0, steps.last().1);
        (b2, n + if ok {
            1nat
        } else {
            0nat
        })
    }
}

pub open spec fn bucket_wf(b: BucketView) -> bool {
    b.tokens <= b.capacity * TOKEN_SCALE
}

proof fn lemma_run_invariant(b: BucketView, steps: Seq<(int, bool)>, w0: int, dt: nat)
    requires
        bucket_wf(b),
        b.last_refill <= w0,
        forall|i: int| 0 <= i < steps.len() ==> w0 <= (#[trigger] steps[i]).0 <= w0 + dt,
    ensures
        ({
            let (b2, n) = run_spec(b, steps);
            let span = if b2.last_refill > w0 {
                b2.last_refill - w0
            } else {
                0
            };
            &&& bucket_wf(b2)
            &&& b2.capacity == b.capacity && b2.rate == b.rate
            &&& b2.last_refill <= w0 + dt
            &&& b2.last_refill < w0 ==> n == 0
            &&& b2.tokens + n * TOKEN_SCALE <= b.capacity * TOKEN_SCALE + b.rate * span
        }),
    decreases steps.len(),
{
    if steps.len() > 0 {
        let prefix = steps.drop_last();
        assert forall|i: int| 0 <= i < prefix.len() implies w0 <= (#[trigger] prefix[i]).0 <= w0
            + dt by {
            assert(prefix[i] == steps[i]);
        }
        lemma_run_invariant(b, prefix, w0, dt);
        let (b1, n) = run_spec(b, prefix);
        let t = steps.last().0;
        assert(w0 <= t <= w0 + dt) by {
            assert(steps.last() == steps[steps.len() - 1]);
        }
        let r = refill_spec(b1, t);
        let cap = b.capacity * TOKEN_SCALE;
        let rate = b.rate;
        let span1 = if b1.last_refill > w0 {
            b1.last_refill - w0
        } else {
            0
        };
        if t > b1.last_refill {
            let span2 = t - w0;
            if b1.last_refill >= w0 {
                assert(b1.tokens + (t - b1.last_refill) * rate + rate * span1 == b1.tokens + rate
                    * span2) by (nonlinear_arith)
                    requires
                        span1 == b1.last_refill - w0,
                        span2 == t - w0,
                ;
            } else {
                assert(rate * span2 >= 0) by (nonlinear_arith)
                    requires
                        span2 >= 0,
                ;
            }
            assert(r.tokens + n * TOKEN_SCALE <= cap + rate * span2);
        }
    }
}

/// Rate bound: over any window `[w0, w0 + dt]` that starts no earlier than
/// the bucket's last refill, a bucket of capacity `C` tokens and rate `R`
/// tokens per second grants at most `C + R * dt` tokens (with `dt` in
/// microseconds and tokens counted in micro-tokens, `C * SCALE + R * dt`).
pub proof fn lemma_bucket_rate_bound(b: BucketView, steps: Seq<(int, bool)>, w0: int, dt: nat)
    requires
        bucket_wf(b),
        b.last_refill <= w0,
        forall|i: int| 0 <= i < steps.len() ==> w0 <= (#[trigger] steps[i]).0 <= w0 + dt,
    ensures
        run_spec(b, steps).1 * TOKEN_SCALE <= b.capacity * TOKEN_SCALE + b.rate * dt,
{
    lemma_run_invariant(b, steps, w0, dt);
    let (b2, n) = run_spec(b, steps);
    let span = if b2.last_refill > w0 {
        b2.last_refill - w0
    } else {
        0
    };
    assert(b.rate * span <= b.rate * dt) by (nonlinear_arith)
        requires
            0 <= span <= dt,
    ;
}

/// A token bucket in micro-tokens.
pub struct TokenBucket {
    capacity: u64,
    tokens: u128,
    refill_rate: u64,
    last_refill: i64,
}

impl View for TokenBucket {
    type V = BucketView;

    closed spec fn view(&self) -> BucketView {
        BucketView {
            capacity: self.capacity as nat,
            tokens: self.tokens as nat,
            rate: self.refill_rate as nat,
            last_refill: self.last_refill as int,
        }
    }
}

impl TokenBucket {
    /// A full bucket of `capacity` tokens refilling at `refill_rate` tokens
    /// per second, last refilled at `now`.
    pub fn new(capacity: u64, refill_rate: u64, now: i64) -> (r: Self)
        ensures
            r@ == (BucketView {
                capacity: capacity as nat,
                tokens: (capacity * TOKEN_SCALE) as nat,
                rate: refill_rate as nat,
                last_refill: now as int,
            }),
    {
        TokenBucket {
            capacity,
            tokens: (capacity as u128) * TOKEN_SCALE,
            refill_rate,
            last_refill: now,
        }
    }

    pub closed spec fn wf(&self) -> bool {
        bucket_wf(self@)
    }

    pub fn refill(&mut self, now: i64)
        requires
            old(self).wf(),
        ensures
            final(self).wf(),
            final(self)@ == refill_spec(old(self)@, now as int),
    {
        if now > self.last_refill {
            let elapsed: u128 = ((now as i128) - (self.last_refill as i128)) as u128;
            let cap: u128 = (self.capacity as u128) * TOKEN_SCALE;
            assert(elapsed * (self.refill_rate as u128) <= 0xFFFF_FFFF_FFFF_FFFF_FFFF_FFFF_FFFF_FFFFu128)
                by (nonlinear_arith)
                requires
                    elapsed <= 0xFFFF_FFFF_FFFF_FFFFu128,
                    self.refill_rate <= 0xFFFF_FFFF_FFFF_FFFFu64,
            ;
            let gain: u128 = elapsed * (self.refill_rate as u128);
            if gain >= cap - self.tokens {
                self.tokens = cap;
            } else {
                self.tokens = self.tokens + gain;
            }
            self.last_refill = now;
        }
    }

    /// Refills at `now`, then takes one token if one is there.
    pub fn try_consume(&mut self, now: i64) -> (r: bool)
        requires
            old(self).wf(),
        ensures
            final(self).wf(),
            (final(self)@, r) == step_spec(old(self)@, now as int, true),
    {
        self.refill(now);
        if self.tokens >= TOKEN_SCALE {
            self.tokens = self.tokens - TOKEN_SCALE;
            true
        } else {
            false
        }
    }

    pub fn has_token(&self) -> (r: bool)
        ensures
            r == (self@.tokens >= TOKEN_SCALE),
    {
        self.tokens >= TOKEN_SCALE
    }
}

pub struct QueueView {
    pub items: Seq<EnvelopeView>,
    pub bucket: BucketView,
    pub max_depth: nat,
}

struct PriorityQueue {
    queue: VecDeque<Envelope>,
    token_bucket: TokenBucket,
    max_depth: usize,
}

impl View for PriorityQueue {
    type V = QueueView;

    closed spec fn view(&self) -> QueueView {
        QueueView {
            items: self.queue@.map_values(|e: Envelope| e@),
            bucket: self.token_bucket@,
            max_depth: self.max_depth as nat,
        }
    }
}

/// The queue after `e` arrives: at the bound, the oldest entry leaves first.
pub open spec fn enqueue_spec(q: QueueView, e: EnvelopeView) -> QueueView {
    QueueView {
        items: if q.items.len() >= q.max_depth && q.items.len() > 0 {
            q.items.drop_first()
        } else {
            q.items
        }.push(e),
        ..q
    }
}

/// A queue that may send at `now`: not empty, with a token once refilled.
pub open spec fn eligible(q: QueueView, now: int) -> bool {
    q.items.len() > 0 && refill_spec(q.bucket, now).tokens >= TOKEN_SCALE
}

/// The highest-priority queue that may send, by rank, if any.
pub open spec fn chosen_queue(qs: Seq<QueueView>, now: int) -> Option<nat> {
    if eligible(qs[0], now) {
        Some(0)
    } else if eligible(qs[1], now) {
        Some(1)
    } else if eligible(qs[2], now) {
        Some(2)
    } else if eligible(qs[3], now) {
        Some(3)
    } else {
        None
    }
}

/// The queues after a dequeue at `now`: every bucket refilled; the chosen
/// queue, if any, loses its head and one token.
pub open spec fn dequeue_spec(qs: Seq<QueueView>, now: int) -> Seq<QueueView> {
    Seq::new(
        4,
        |p: int|
            {
                let q = qs[p];
                let b = refill_spec(q.bucket, now);
                if chosen_queue(qs, now) == Some(p as nat) {
                    QueueView {
                        items: q.items.drop_first(),
                        bucket: BucketView { tokens: (b.tokens - TOKEN_SCALE) as nat, ..b },
                        ..q
                    }
                } else {
                    QueueView { bucket: b, ..q }
                }
            },
    )
}

/// The queues after `e` arrives at the queue of its priority.
pub open spec fn with_arrival(qs: Seq<QueueView>, e: EnvelopeView) -> Seq<QueueView> {
    Seq::new(
        4,
        |p: int|
            if p == e.priority.rank() {
                enqueue_spec(qs[p], e)
            } else {
                qs[p]
            },
    )
}

/// Every class empty under the default policy, its bucket full as of `now`.
pub open spec fn default_queues(qs: Seq<QueueView>, now: i64) -> bool {
    forall|p: int|
        0 <= p < 4 ==> (#[trigger] qs[p]) == (QueueView {
            items: Seq::empty(),
            bucket: BucketView {
                capacity: DEFAULT_BURST_SIZE as nat,
                tokens: (DEFAULT_BURST_SIZE * TOKEN_SCALE) as nat,
                rate: DEFAULT_MAX_RATE_PER_SEC as nat,
                last_refill: now as int,
            },
            max_depth: DEFAULT_MAX_QUEUE_DEPTH as nat,
        })
}

/// Four strict-priority queues, P0 first, each behind its own token bucket.
pub struct QoSShaper {
    p0: PriorityQueue,
    p1: PriorityQueue,
    p2: PriorityQueue,
    p3: PriorityQueue,
    policies: Vec<(String, QoSPolicy)>,
}

pub const DEFAULT_MAX_RATE_PER_SEC: u64 = 1000;

pub const DEFAULT_BURST_SIZE: u64 = 100;

pub const DEFAULT_MAX_QUEUE_DEPTH: usize = 1000;

fn new_queue(policy: QoSPolicy, now: i64) -> (r: PriorityQueue)
    ensures
        r@.items == Seq::<EnvelopeView>::empty(),
        r@.max_depth == policy.max_queue_depth,
        r@.bucket == (BucketView {
            capacity: policy.burst_size as nat,
            tokens: (policy.burst_size * TOKEN_SCALE) as nat,
            rate: policy.max_rate_per_sec as nat,
            last_refill: now as int,
        }),
        r.token_bucket.wf(),
{
    let q = PriorityQueue {
        queue: VecDeque::new(),
        token_bucket: TokenBucket::new(policy.burst_size, policy.max_rate_per_sec, now),
        max_depth: policy.max_queue_depth,
    };
    assert(q@.items =~= Seq::<EnvelopeView>::empty());
    q
}

impl PriorityQueue {
    fn push(&mut self, envelope: Envelope)
        ensures
            final(self)@ == enqueue_spec(old(self)@, envelope@),
            final(self).token_bucket == old(self).token_bucket,
    {
        let ghost e = envelope@;
        if self.queue.len() >= self.max_depth && self.queue.len() > 0 {
            let _ = self.queue.pop_front();
        }
        self.queue.push_back(envelope);
        assert(self@.items =~= enqueue_spec(old(self)@, e).items);
    }

    fn pop(&mut self) -> (r: Option<Envelope>)
        ensures
            final(self).token_bucket == old(self).token_bucket,
            final(self).max_depth == old(self).max_depth,
            old(self)@.items.len() > 0 ==> (r matches Some(e) && e@ == old(self)@.items[0]
                && final(self)@.items == old(self)@.items.drop_first()),
            old(self)@.items.len() == 0 ==> r is None && final(self)@.items == old(self)@.items,
    {
        let r = self.queue.pop_front();
        assert(old(self)@.items.len() > 0 ==> self@.items =~= old(self)@.items.drop_first());
        assert(old(self)@.items.len() == 0 ==> self@.items =~= old(self)@.items);
        r
    }
}

impl QoSShaper {
    pub closed spec fn queues(&self) -> Seq<QueueView> {
        seq![self.p0@, self.p1@, self.p2@, self.p3@]
    }

    pub closed spec fn wf(&self) -> bool {
        &&& self.p0.token_bucket.wf()
        &&& self.p1.token_bucket.wf()
        &&& self.p2.token_bucket.wf()
        &&& self.p3.token_bucket.wf()
    }

    /// The default policy for every class, buckets full as of the current
    /// wall-clock instant.
    pub fn new() -> (r: Self)
        ensures
            r.wf(),
            exists|now: i64| #[trigger] default_queues(r.queues(), now),
    {
        let now = now_micros();
        let r = Self::new_at(now);
        assert(default_queues(r.queues(), now));
        r
    }

    /// The default policy (1000 tokens per second, bursts of 100, depth 1000)
    /// for every class, buckets full as of `now`.
    pub fn new_at(now: i64) -> (r: Self)
        ensures
            r.wf(),
            forall|p: int|
                0 <= p < 4 ==> (#[trigger] r.queues()[p]) == (QueueView {
                    items: Seq::empty(),
                    bucket: BucketView {
                        capacity: DEFAULT_BURST_SIZE as nat,
                        tokens: (DEFAULT_BURST_SIZE * TOKEN_SCALE) as nat,
                        rate: DEFAULT_MAX_RATE_PER_SEC as nat,
                        last_refill: now as int,
                    },
                    max_depth: DEFAULT_MAX_QUEUE_DEPTH as nat,
                }),
    {
        let policy = QoSPolicy {
            max_rate_per_sec: DEFAULT_MAX_RATE_PER_SEC,
            burst_size: DEFAULT_BURST_SIZE,
            max_queue_depth: DEFAULT_MAX_QUEUE_DEPTH,
        };
        let r = QoSShaper {
            p0: new_queue(policy, now),
            p1: new_queue(policy, now),
            p2: new_queue(policy, now),
            p3: new_queue(policy, now),
            policies: Vec::new(),
        };
        assert(r.queues()[0] == r.p0@);
        assert(r.queues()[1] == r.p1@);
        assert(r.queues()[2] == r.p2@);
        assert(r.queues()[3] == r.p3@);
        r
    }

    /// Replaces the bucket and bound of one class; its bucket starts full at `now`.
    pub fn set_priority_policy(&mut self, priority: Priority, policy: QoSPolicy, now: i64)
        requires
            old(self).wf(),
        ensures
            final(self).wf(),
            forall|p: int|
                0 <= p < 4 ==> #[trigger] final(self).queues()[p] == if p == priority.rank() {
                    QueueView {
                        bucket: BucketView {
                            capacity: policy.burst_size as nat,
                            tokens: (policy.burst_size * TOKEN_SCALE) as nat,
                            rate: policy.max_rate_per_sec as nat,
                            last_refill: now as int,
                        },
                        max_depth: policy.max_queue_depth as nat,
                        ..old(self).queues()[p]
                    }
                } else {
                    old(self).queues()[p]
                },
    {
        let bucket = TokenBucket::new(policy.burst_size, policy.max_rate_per_sec, now);
        match priority {
            Priority::P0 => {
                self.p0.token_bucket = bucket;
                self.p0.max_depth = policy.max_queue_depth;
            },
            Priority::P1 => {
                self.p1.token_bucket = bucket;
                self.p1.max_depth = policy.max_queue_depth;
            },
            Priority::P2 => {
                self.p2.token_bucket = bucket;
                self.p2.max_depth = policy.max_queue_depth;
            },
            Priority::P3 => {
                self.p3.token_bucket = bucket;
                self.p3.max_depth = policy.max_queue_depth;
            },
        }
        assert(self.queues()[0] == self.p0@);
        assert(self.queues()[1] == self.p1@);
        assert(self.queues()[2] == self.p2@);
        assert(self.queues()[3] == self.p3@);
    }

    /// Appends `envelope` to the queue of its priority; at the bound the
    /// oldest entry of that queue is dropped first.
    pub fn enqueue(&mut self, envelope: Envelope) -> (r: AriaResult<()>)
        requires
            old(self).wf(),
        ensures
            r is Ok,
            final(self).wf(),
            forall|p: int|
                0 <= p < 4 ==> #[trigger] final(self).queues()[p] == if p == envelope@.priority.rank() {
                    enqueue_spec(old(self).queues()[p], envelope@)
                } else {
                    old(self).queues()[p]
                },
    {
        match envelope.priority {
            Priority::P0 => self.p0.push(envelope),
            Priority::P1 => self.p1.push(envelope),
            Priority::P2 => self.p2.push(envelope),
            Priority::P3 => self.p3.push(envelope),
        }
        assert(self.queues()[0] == self.p0@);
        assert(self.queues()[1] == self.p1@);
        assert(self.queues()[2] == self.p2@);
        assert(self.queues()[3] == self.p3@);
        Ok(())
    }

    /// Number of envelopes waiting at `priority`.
    pub fn queue_len(&self, priority: Priority) -> (r: usize)
        ensures
            r == self.queues()[priority.rank() as int].items.len(),
    {
        match priority {
            Priority::P0 => self.p0.queue.len(),
            Priority::P1 => self.p1.queue.len(),
            Priority::P2 => self.p2.queue.len(),
            Priority::P3 => self.p3.queue.len(),
        }
    }

    /// Whether envelopes wait at `priority`.
    pub fn can_send(&self, priority: Priority) -> (r: bool)
        ensures
            r == (self.queues()[priority.rank() as int].items.len() > 0),
    {
        self.queue_len(priority) > 0
    }

    /// `dequeue_at` at the current wall-clock instant.
    pub fn dequeue(&mut self) -> (r: Option<Envelope>)
        requires
            old(self).wf(),
        ensures
            final(self).wf(),
            exists|now: i64|
                #[trigger] dequeue_spec(old(self).queues(), now as int) == final(self).queues() && match chosen_queue(
                    old(self).queues(),
                    now as int,
                ) {
                    Some(p) => r matches Some(e) && e@ == old(self).queues()[p as int].items[0],
                    None => r is None,
                },
    {
        let now = now_micros();
        let r = self.dequeue_at(now);
        assert(dequeue_spec(old(self).queues(), now as int) == self.queues());
        r
    }

    /// Refills every bucket at `now`; then, P0 first, takes the head of the
    /// first non-empty queue whose bucket holds a token, and one token.
    /// Returns nothing where no class qualifies.
    pub fn dequeue_at(&mut self, now: i64) -> (r: Option<Envelope>)
        requires
            old(self).wf(),
        ensures
            final(self).wf(),
            final(self).queues() == dequeue_spec(old(self).queues(), now as int),
            match chosen_queue(old(self).queues(), now as int) {
                Some(p) => r matches Some(e) && e@ == old(self).queues()[p as int].items[0],
                None => r is None,
            },
    {
        let ghost qs = self.queues();
        assert(qs[0] == self.p0@ && qs[1] == self.p1@ && qs[2] == self.p2@ && qs[3] == self.p3@);
        self.p0.token_bucket.refill(now);
        self.p1.token_bucket.refill(now);
        self.p2.token_bucket.refill(now);
        self.p3.token_bucket.refill(now);
        let r = if self.p0.queue.len() > 0 && self.p0.token_bucket.has_token() {
            let _ = self.p0.token_bucket.try_consume(now);
            self.p0.pop()
        } else if self.p1.queue.len() > 0 && self.p1.token_bucket.has_token() {
            let _ = self.p1.token_bucket.try_consume(now);
            self.p1.pop()
        } else if self.p2.queue.len() > 0 && self.p2.token_bucket.has_token() {
            let _ = self.p2.token_bucket.try_consume(now);
            self.p2.pop()
        } else if self.p3.queue.len() > 0 && self.p3.token_bucket.has_token() {
            let _ = self.p3.token_bucket.try_consume(now);
            self.p3.pop()
        } else {
            None
        };
        assert(self.queues() =~= dequeue_spec(qs, now as int));
        r
    }

    /// Dequeues at `now` until no class qualifies: everything the shaper
    /// lets out at this instant, in the order single dequeues give it.
    pub fn drain_at(&mut self, now: i64) -> (r: Vec<Envelope>)
        requires
            old(self).wf(),
        ensures
            final(self).wf(),
            r@.map_values(|e: Envelope| e@) == drain_spec(
                old(self).queues(),
                now as int,
                total_items(old(self).queues()),
            ),
    {
        let ghost orig = self.queues();
        let mut out: Vec<Envelope> = Vec::new();
        let mut more = true;
        while more
            invariant
                self.wf(),
                !more ==> drain_spec(self.queues(), now as int, total_items(self.queues()))
                    == Seq::<EnvelopeView>::empty(),
                out@.map_values(|e: Envelope| e@) + drain_spec(
                    self.queues(),
                    now as int,
                    total_items(self.queues()),
                ) == drain_spec(orig, now as int, total_items(orig)),
            decreases total_items(self.queues()) + if more {
                1nat
            } else {
                0nat
            },
        {
            let ghost q = self.queues();
            let ghost ov = out@.map_values(|e: Envelope| e@);
            match self.dequeue_at(now) {
                Some(e) => {
                    out.push(e);
                    proof {
                        let p = chosen_queue(q, now as int)->0;
                        lemma_dequeue_total(q, now as int);
                        let t = total_items(q);
                        assert(drain_spec(q, now as int, t) == seq![q[p as int].items[0]] + drain_spec(
                            self.queues(),
                            now as int,
                            (t - 1) as nat,
                        ));
                        assert(out@.map_values(|e: Envelope| e@) =~= ov.push(q[p as int].items[0]));
                        assert(ov + (seq![q[p as int].items[0]] + drain_spec(self.queues(), now as int, (t - 1) as nat))
                            =~= ov.push(q[p as int].items[0]) + drain_spec(self.queues(), now as int, (t - 1) as nat));
                    }
                },
                None => {
                    proof {
                        lemma_dequeue_total(q, now as int);
                        lemma_none_stays_none(q, now as int);
                        assert(drain_spec(q, now as int, total_items(q)) =~= Seq::<EnvelopeView>::empty());
                        assert(drain_spec(self.queues(), now as int, total_items(self.queues()))
                            =~= Seq::<EnvelopeView>::empty());
                        assert(ov + Seq::<EnvelopeView>::empty() =~= ov);
                    }
                    more = false;
                },
            }
        }
        proof {
            assert(out@.map_values(|e: Envelope| e@) + Seq::<EnvelopeView>::empty() =~= out@.map_values(
                |e: Envelope| e@,
            ));
        }
        out
    }

    /// Enqueues `envelope`, then dequeues at `now`: what the shaper lets out
    /// at this instant, if anything (not necessarily `envelope`).
    pub fn shape_at(&mut self, envelope: Envelope, now: i64) -> (r: AriaResult<Option<Envelope>>)
        requires
            old(self).wf(),
        ensures
            final(self).wf(),
            ({
                let q1 = with_arrival(old(self).queues(), envelope@);
                &&& final(self).queues() == dequeue_spec(q1, now as int)
                &&& r matches Ok(o) && match chosen_queue(q1, now as int) {
                    Some(p) => o matches Some(e) && e@ == q1[p as int].items[0],
                    None => o is None,
                }
            }),
    {
        let ghost e = envelope@;
        let _ = self.enqueue(envelope);
        assert(self.queues() =~= with_arrival(old(self).queues(), e));
        Ok(self.dequeue_at(now))
    }

    /// `shape_at` at the current wall-clock instant.
    pub fn shape(&mut self, envelope: Envelope) -> (r: AriaResult<Option<Envelope>>)
        requires
            old(self).wf(),
        ensures
            final(self).wf(),
            exists|now: i64|
                #[trigger] dequeue_spec(with_arrival(old(self).queues(), envelope@), now as int)
                    == final(self).queues() && (r matches Ok(o) && match chosen_queue(
                    with_arrival(old(self).queues(), envelope@),
                    now as int,
                ) {
                    Some(p) => o matches Some(e) && e@ == with_arrival(old(self).queues(), envelope@)[p as int].items[0],
                    None => o is None,
                }),
    {
        let now = now_micros();
        let ghost q1 = with_arrival(old(self).queues(), envelope@);
        let r = self.shape_at(envelope, now);
        assert(dequeue_spec(q1, now as int) == self.queues());
        r
    }

    /// Records a per-topic policy; it overrides any earlier one for the topic.
    pub fn set_policy(&mut self, topic: &str, policy: QoSPolicy)
        ensures
            final(self).wf() == old(self).wf(),
            final(self).queues() == old(self).queues(),
            final(self).policy_for(topic@) == Some(policy),
    {
        self.policies.push((topic.to_owned(), policy));
    }

    /// The policy last recorded for `topic`, if any.
    pub closed spec fn policy_for(&self, topic: Seq<char>) -> Option<QoSPolicy> {
        latest_policy(self.policies@, topic)
    }
}

spec fn latest_policy(ps: Seq<(String, QoSPolicy)>, topic: Seq<char>) -> Option<QoSPolicy>
    decreases ps.len(),
{
    if ps.len() == 0 {
        None
    } else if ps.last().0@ == topic {
        Some(ps.last().1)
    } else {
        latest_policy(ps.drop_last(), topic)
    }
}

/// Strict priority, FIFO within a class: where every bucket holds a token
/// at `now`, a dequeue takes the head (the oldest entry) of the
/// highest-priority non-empty queue, and no queue of higher priority is
/// non-empty.
pub proof fn lemma_priority_order(qs: Seq<QueueView>, now: int)
    requires
        qs.len() == 4,
        forall|p: int| 0 <= p < 4 ==> refill_spec((#[trigger] qs[p]).bucket, now).tokens >= TOKEN_SCALE,
        exists|p: int| 0 <= p < 4 && (#[trigger] qs[p]).items.len() > 0,
    ensures
        chosen_queue(qs, now) matches Some(c) && qs[c as int].items.len() > 0 && forall|p: int|
            0 <= p < c ==> (#[trigger] qs[p]).items.len() == 0,
        chosen_queue(qs, now) matches Some(c) && dequeue_spec(qs, now)[c as int].items
            == qs[c as int].items.drop_first(),
{
    assert(refill_spec(qs[0].bucket, now).tokens >= TOKEN_SCALE);
    assert(refill_spec(qs[1].bucket, now).tokens >= TOKEN_SCALE);
    assert(refill_spec(qs[2].bucket, now).tokens >= TOKEN_SCALE);
    assert(refill_spec(qs[3].bucket, now).tokens >= TOKEN_SCALE);
}

/// What `n` dequeues in a row at instant `now` return, in order.
pub open spec fn drain_spec(qs: Seq<QueueView>, now: int, n: nat) -> Seq<EnvelopeView>
    decreases n,
{
    if n == 0 {
        Seq::empty()
    } else {
        match chosen_queue(qs, now) {
            Some(p) => seq![qs[p as int].items[0]] + drain_spec(dequeue_spec(qs, now), now, (n - 1) as nat),
            None => Seq::empty(),
        }
    }
}

pub open spec fn total_items(qs: Seq<QueueView>) -> nat {
    qs[0].items.len() + qs[1].items.len() + qs[2].items.len() + qs[3].items.len()
}

pub open spec fn all_items(qs: Seq<QueueView>) -> Seq<EnvelopeView> {
    qs[0].items + qs[1].items + qs[2].items + qs[3].items
}

proof fn lemma_refill_twice(b: BucketView, now: int)
    ensures
        refill_spec(refill_spec(b, now), now) == refill_spec(b, now),
{
}

/// Priority order over a whole drain: where every bucket holds, at `now`,
/// a token for each envelope waiting behind it, dequeuing everything at
/// `now` returns all of P0's queue, then P1's, P2's and P3's, each oldest
/// first.
pub proof fn lemma_drain_order(qs: Seq<QueueView>, now: int)
    requires
        qs.len() == 4,
        forall|p: int|
            0 <= p < 4 ==> refill_spec((#[trigger] qs[p]).bucket, now).tokens >= qs[p].items.len()
                * TOKEN_SCALE,
    ensures
        drain_spec(qs, now, total_items(qs)) == all_items(qs),
    decreases total_items(qs),
{
    let n = total_items(qs);
    if n == 0 {
        assert(all_items(qs) =~= Seq::<EnvelopeView>::empty());
    } else {
        let c: int = if qs[0].items.len() > 0 {
            0
        } else if qs[1].items.len() > 0 {
            1
        } else if qs[2].items.len() > 0 {
            2
        } else {
            3
        };
        assert(refill_spec(qs[c].bucket, now).tokens >= qs[c].items.len() * TOKEN_SCALE);
        assert(qs[c].items.len() * TOKEN_SCALE >= TOKEN_SCALE) by (nonlinear_arith)
            requires
                qs[c].items.len() >= 1,
        ;
        assert(chosen_queue(qs, now) == Some(c as nat));
        let next = dequeue_spec(qs, now);
        assert forall|p: int| 0 <= p < 4 implies refill_spec((#[trigger] next[p]).bucket, now).tokens
            >= next[p].items.len() * TOKEN_SCALE by {
            lemma_refill_twice(qs[p].bucket, now);
            let r = refill_spec(qs[p].bucket, now);
            assert(r.last_refill >= now || r == qs[p].bucket);
            if p == c {
                assert(next[p].items.len() == qs[p].items.len() - 1);
                assert((qs[p].items.len() - 1) * TOKEN_SCALE == qs[p].items.len() * TOKEN_SCALE
                    - TOKEN_SCALE) by (nonlinear_arith);
            }
        }
        assert(total_items(next) == n - 1);
        lemma_drain_order(next, now);
        assert(qs[c].items =~= seq![qs[c].items[0]] + next[c].items);
        assert(all_items(qs) =~= seq![qs[c].items[0]] + all_items(next));
    }
}

proof fn lemma_dequeue_total(qs: Seq<QueueView>, now: int)
    requires
        qs.len() == 4,
    ensures
        chosen_queue(qs, now) is Some ==> total_items(dequeue_spec(qs, now)) + 1 == total_items(qs),
        chosen_queue(qs, now) is None ==> total_items(dequeue_spec(qs, now)) == total_items(qs),
        forall|p: int|
            0 <= p < 4 && chosen_queue(qs, now) != Some(p as nat) ==> (#[trigger] dequeue_spec(qs, now)[p]).items
                == qs[p].items,
{
    let d = dequeue_spec(qs, now);
    assert(d[0].items.len() + d[1].items.len() + d[2].items.len() + d[3].items.len() == total_items(d));
}

proof fn lemma_none_stays_none(qs: Seq<QueueView>, now: int)
    requires
        qs.len() == 4,
        chosen_queue(qs, now) is None,
    ensures
        chosen_queue(dequeue_spec(qs, now), now) is None,
{
    lemma_refill_twice(qs[0].bucket, now);
    lemma_refill_twice(qs[1].bucket, now);
    lemma_refill_twice(qs[2].bucket, now);
    lemma_refill_twice(qs[3].bucket, now);
    lemma_dequeue_total(qs, now);
}

} // verus!
