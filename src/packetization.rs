//! Fragmentation to an MTU, and reassembly of fragments.

use vstd::prelude::*;
use crate::bytes::{append_bytes, copy_range};
use crate::clock::{fresh_id, now_micros};
use crate::envelope::{Envelope, EnvelopeMetadataView, EnvelopeView, FragmentInfo};
use crate::error::{AriaError, AriaResult};

verus! {

pub const DEFAULT_MTU: usize = 1400;

/// Number of fragments of a payload of `len` bytes: `ceil(len / mtu)`.
pub open spec fn fragment_count(len: nat, mtu: nat) -> nat
    recommends
        mtu > 0,
{
    len / mtu + if len % mtu == 0 {
        0nat
    } else {
        1nat
    }
}

/// Payload of fragment `i`: the bytes `[i * mtu, min((i + 1) * mtu, len))`.
pub open spec fn fragment_payload(p: Seq<u8>, mtu: nat, i: nat) -> Seq<u8> {
    let start = i * mtu;
    let end = if (i + 1) * mtu < p.len() {
        (i + 1) * mtu
    } else {
        p.len()
    };
    p.subrange(start as int, end as int)
}

/// `f` is fragment `i` of `n` that `e` splits into at this MTU.
pub open spec fn is_fragment_of(f: EnvelopeView, e: EnvelopeView, mtu: nat, i: nat, n: nat) -> bool {
    &&& f.timestamp == e.timestamp
    &&& f.schema_id == e.schema_id
    &&& f.priority == e.priority
    &&& f.topic == e.topic
    &&& f.payload == fragment_payload(e.payload, mtu, i)
    &&& f.metadata == (EnvelopeMetadataView {
        fragment_info: Some(
            FragmentInfo {
                fragment_id: i as u32,
                total_fragments: n as u32,
                fragment_offset: (i * mtu) as u64,
                correlation_key: e.id,
            },
        ),
        ..e.metadata
    })
}

proof fn lemma_fragment_bounds(len: nat, mtu: nat, i: nat)
    requires
        mtu > 0,
        i < fragment_count(len, mtu),
    ensures
        i * mtu < len,
{
    let q = len / mtu;
    let r = len % mtu;
    vstd::arithmetic::div_mod::lemma_fundamental_div_mod(len as int, mtu as int);
    assert(len == mtu * q + r);
    if r == 0 {
        assert(i * mtu + mtu <= q * mtu) by (nonlinear_arith)
            requires
                i + 1 <= q,
        ;
    } else {
        assert(i * mtu <= q * mtu) by (nonlinear_arith)
            requires
                i <= q,
        ;
    }
}

proof fn lemma_fragment_count(len: nat, mtu: nat)
    requires
        0 < mtu < len,
    ensures
        2 <= fragment_count(len, mtu) <= len,
{
    let q = len / mtu;
    let r = len % mtu;
    vstd::arithmetic::div_mod::lemma_fundamental_div_mod(len as int, mtu as int);
    assert(len == mtu * q + r);
    assert(r < mtu);
    assert(q >= 1) by (nonlinear_arith)
        requires
            len == mtu * q + r,
            r < mtu,
            mtu < len,
    ;
    assert(q >= 2 || r > 0) by (nonlinear_arith)
        requires
            len == mtu * q + r,
            q >= 1,
            mtu < len,
    ;
    assert(q <= mtu * q) by (nonlinear_arith)
        requires
            mtu > 0,
            q >= 1,
    ;
}

/// Splits envelopes whose payload exceeds the MTU.
pub struct Packetizer {
    mtu: usize,
}

impl Packetizer {
    pub fn new(mtu: usize) -> (r: Self)
        requires
            mtu > 0,
        ensures
            r.mtu() == mtu,
    {
        Packetizer { mtu }
    }

    pub closed spec fn mtu(&self) -> nat {
        self.mtu as nat
    }

    pub fn get_mtu(&self) -> (r: usize)
        ensures
            r as nat == self.mtu(),
    {
        self.mtu
    }

    /// Splits `envelope` into `ceil(len / mtu)` fragments, each a copy of it
    /// with a slice of the payload, a fresh id, and `fragment_info` naming the
    /// origin's id as correlation key. A payload within the MTU passes whole.
    /// Fails with `InvalidState` where the envelope is already a fragment or
    /// the count does not fit 32 bits.
    pub fn fragment(&self, envelope: Envelope) -> (r: AriaResult<Vec<Envelope>>)
        requires
            self.mtu() > 0,
        ensures
            envelope@.payload.len() <= self.mtu() ==> (r matches Ok(v) && v@.len() == 1
                && v@[0]@ == envelope@),
            envelope@.payload.len() > self.mtu() ==> {
                let n = fragment_count(envelope@.payload.len(), self.mtu());
                if envelope@.metadata.fragment_info is Some || n > u32::MAX {
                    r matches Err(e) && e is InvalidState
                } else {
                    r matches Ok(v) && v@.len() == n && forall|i: int|
                        0 <= i < n ==> is_fragment_of(
                            #[trigger] v@[i]@,
                            envelope@,
                            self.mtu(),
                            i as nat,
                            n,
                        )
                }
            },
    {
        let len = envelope.payload.len();
        let mtu = self.mtu;
        if len <= mtu {
            let mut v: Vec<Envelope> = Vec::new();
            v.push(envelope);
            return Ok(v);
        }
        proof {
            lemma_fragment_count(len as nat, mtu as nat);
        }
        let n: usize = len / mtu + if len % mtu == 0 {
            0
        } else {
            1
        };
        if envelope.metadata.fragment_info.is_some() || n > u32::MAX as usize {
            return Err(AriaError::InvalidState("envelope cannot be fragmented".to_string()));
        }
        let mut fragments: Vec<Envelope> = Vec::new();
        let mut i: usize = 0;
        while i < n
            invariant
                n == fragment_count(len as nat, mtu as nat),
                n <= u32::MAX,
                len == envelope@.payload.len(),
                mtu == self.mtu(),
                mtu > 0,
                i <= n,
                fragments@.len() == i,
                forall|j: int|
                    0 <= j < i ==> is_fragment_of(
                        #[trigger] fragments@[j]@,
                        envelope@,
                        mtu as nat,
                        j as nat,
                        n as nat,
                    ),
            decreases n - i,
        {
            proof {
                lemma_fragment_bounds(len as nat, mtu as nat, i as nat);
            }
            let start: usize = i * mtu;
            let end: usize = if len - start > mtu {
                start + mtu
            } else {
                len
            };
            assert(end == if (i + 1) * mtu < len {
                (i + 1) * mtu
            } else {
                len as int
            }) by (nonlinear_arith)
                requires
                    start == i * mtu,
                    end == if len - start > mtu {
                        start + mtu
                    } else {
                        len as int
                    },
            ;
            let part = copy_range(envelope.payload.as_slice(), start, end);
            let mut f = envelope.with_payload(part);
            f.id = fresh_id();
            f.metadata.fragment_info = Some(
                FragmentInfo {
                    fragment_id: i as u32,
                    total_fragments: n as u32,
                    fragment_offset: start as u64,
                    correlation_key: envelope.id,
                },
            );
            fragments.push(f);
            i = i + 1;
        }
        Ok(fragments)
    }
}

/// What a reassembly buffer holds for one correlation key.
pub struct BufferView {
    pub key: u128,
    /// One slot per fragment id.
    pub parts: Seq<Option<Seq<u8>>>,
    /// The first fragment that arrived.
    pub template: EnvelopeView,
    pub last_update: i64,
}

pub struct DefragmenterView {
    pub buffers: Seq<BufferView>,
    pub timeout: u64,
    /// Buffers dropped on expiry so far (saturating).
    pub losses: u64,
}

/// The buffer held for `key`, if any.
pub open spec fn lookup(bufs: Seq<BufferView>, key: u128) -> Option<BufferView> {
    if exists|i: int| 0 <= i < bufs.len() && (#[trigger] bufs[i]).key == key {
        Some(bufs[choose|i: int| 0 <= i < bufs.len() && (#[trigger] bufs[i]).key == key])
    } else {
        None
    }
}

pub open spec fn keys_unique(bufs: Seq<BufferView>) -> bool {
    forall|i: int, j: int|
        0 <= i < bufs.len() && 0 <= j < bufs.len() && i != j ==> (#[trigger] bufs[i]).key
            != (#[trigger] bufs[j]).key
}

/// An empty buffer for the origin that `env`'s fragment info names.
pub open spec fn fresh_buffer(env: EnvelopeView, info: FragmentInfo) -> BufferView {
    BufferView {
        key: info.correlation_key,
        parts: Seq::new(info.total_fragments as nat, |i: int| None),
        template: env,
        last_update: 0,
    }
}

pub open spec fn with_part(b: BufferView, id: nat, payload: Seq<u8>, now: i64) -> BufferView {
    BufferView { parts: b.parts.update(id as int, Some(payload)), last_update: now, ..b }
}

pub open spec fn is_complete(b: BufferView) -> bool {
    forall|i: int| 0 <= i < b.parts.len() ==> (#[trigger] b.parts[i]) is Some
}

/// The parts in fragment order, concatenated; an absent part counts as empty.
pub open spec fn concat_parts(parts: Seq<Option<Seq<u8>>>) -> Seq<u8>
    decreases parts.len(),
{
    if parts.len() == 0 {
        Seq::empty()
    } else {
        concat_parts(parts.drop_last()) + match parts.last() {
            Some(p) => p,
            None => Seq::empty(),
        }
    }
}

/// The envelope that a complete buffer reassembles to: the template, with
/// the origin's id, the concatenated payload and no fragment info.
pub open spec fn assembled(b: BufferView) -> EnvelopeView {
    EnvelopeView {
        id: b.key,
        payload: concat_parts(b.parts),
        metadata: EnvelopeMetadataView { fragment_info: None, ..b.template.metadata },
        ..b.template
    }
}

/// The buffer that `info` is stored into, given what is held for its key:
/// that buffer, or a fresh one; `None` where the fragment is rejected (zero
/// total, id out of range, or a total that differs from the held buffer's).
pub open spec fn target_for(held: Option<BufferView>, env: EnvelopeView, info: FragmentInfo) -> Option<
    BufferView,
> {
    if info.total_fragments == 0 || info.fragment_id >= info.total_fragments {
        None
    } else {
        match held {
            Some(b) => if b.parts.len() == info.total_fragments as nat {
                Some(b)
            } else {
                None
            },
            None => Some(fresh_buffer(env, info)),
        }
    }
}

pub open spec fn target_buffer(bufs: Seq<BufferView>, env: EnvelopeView, info: FragmentInfo) -> Option<
    BufferView,
> {
    target_for(lookup(bufs, info.correlation_key), env, info)
}

/// One fragment's arrival as seen by its own key: what is held for the key
/// afterwards, and what is released.
pub open spec fn key_step(held: Option<BufferView>, env: EnvelopeView, now: i64) -> (
    Option<BufferView>,
    Option<EnvelopeView>,
) {
    match env.metadata.fragment_info {
        None => (held, Some(env)),
        Some(info) => match target_for(held, env, info) {
            None => (held, None),
            Some(b0) => {
                let b = with_part(b0, info.fragment_id as nat, env.payload, now);
                if is_complete(b) {
                    (None, Some(assembled(b)))
                } else {
                    (Some(b), None)
                }
            },
        },
    }
}

/// `after` is `before` swept at `now`: exactly the live buffers remain.
pub open spec fn swept(before: DefragmenterView, after: DefragmenterView, now: i64) -> bool {
    forall|k: u128|
        #![trigger lookup(after.buffers, k)]
        lookup(after.buffers, k) == match lookup(before.buffers, k) {
            Some(b) => if is_live(b, now, before.timeout) {
                Some(b)
            } else {
                None
            },
            None => None,
        }
}

/// `b` is kept: fewer than `timeout` microseconds passed since its last update.
pub open spec fn is_live(b: BufferView, now: i64, timeout: u64) -> bool {
    now - b.last_update < timeout
}

struct FragmentBuffer {
    correlation_key: u128,
    parts: Vec<Option<Vec<u8>>>,
    original_envelope: Envelope,
    last_update: i64,
}

spec fn part_view(o: Option<Vec<u8>>) -> Option<Seq<u8>> {
    match o {
        Some(v) => Some(v@),
        None => None,
    }
}

impl View for FragmentBuffer {
    type V = BufferView;

    closed spec fn view(&self) -> BufferView {
        BufferView {
            key: self.correlation_key,
            parts: self.parts@.map_values(|o: Option<Vec<u8>>| part_view(o)),
            template: self.original_envelope@,
            last_update: self.last_update,
        }
    }
}

/// Groups fragments by correlation key and reassembles complete sets.
pub struct Defragmenter {
    buffers: Vec<FragmentBuffer>,
    timeout: u64,
    losses: u64,
}

proof fn lemma_lookup_at(bufs: Seq<BufferView>, i: int)
    requires
        keys_unique(bufs),
        0 <= i < bufs.len(),
    ensures
        lookup(bufs, bufs[i].key) == Some(bufs[i]),
{
    let k = bufs[i].key;
    assert(exists|j: int| 0 <= j < bufs.len() && (#[trigger] bufs[j]).key == k);
    let c = choose|j: int| 0 <= j < bufs.len() && (#[trigger] bufs[j]).key == k;
    assert(c == i);
}

proof fn lemma_lookup_absent(bufs: Seq<BufferView>, key: u128)
    requires
        forall|i: int| 0 <= i < bufs.len() ==> (#[trigger] bufs[i]).key != key,
    ensures
        lookup(bufs, key) is None,
{
}

/// Every key other than the one at `j` is looked up alike in `bufs` and in
/// `bufs` without index `j`, with `b` appended or not.
proof fn lemma_lookup_frame(
    bufs: Seq<BufferView>,
    j: int,
    b: Option<BufferView>,
    out: Seq<BufferView>,
    key: u128,
)
    requires
        keys_unique(bufs),
        0 <= j < bufs.len(),
        bufs[j].key == key,
        b is Some ==> b->0.key == key,
        out == match b {
            Some(x) => bufs.remove(j).push(x),
            None => bufs.remove(j),
        },
    ensures
        keys_unique(out),
        forall|k: u128| k != key ==> lookup(out, k) == lookup(bufs, k),
        b is Some ==> lookup(out, key) == b,
        b is None ==> lookup(out, key) is None,
{
    let rest = bufs.remove(j);
    assert forall|i: int| 0 <= i < rest.len() implies (#[trigger] rest[i]).key != key by {
        if i < j {
            assert(rest[i] == bufs[i]);
        } else {
            assert(rest[i] == bufs[i + 1]);
        }
    }
    assert forall|i: int, l: int|
        0 <= i < out.len() && 0 <= l < out.len() && i != l implies (#[trigger] out[i]).key
        != (#[trigger] out[l]).key by {
        if i < rest.len() && l < rest.len() {
            let ii = if i < j {
                i
            } else {
                i + 1
            };
            let ll = if l < j {
                l
            } else {
                l + 1
            };
            assert(out[i] == bufs[ii]);
            assert(out[l] == bufs[ll]);
        } else if i < rest.len() {
            assert(out[i] == rest[i]);
        } else {
            assert(out[l] == rest[l]);
        }
    }
    assert forall|k: u128| k != key implies lookup(out, k) == lookup(bufs, k) by {
        if exists|i: int| 0 <= i < bufs.len() && (#[trigger] bufs[i]).key == k {
            let i = choose|i: int| 0 <= i < bufs.len() && (#[trigger] bufs[i]).key == k;
            lemma_lookup_at(bufs, i);
            assert(i != j);
            let oi = if i < j {
                i
            } else {
                i - 1
            };
            assert(out[oi] == bufs[i]);
            lemma_lookup_at(out, oi);
        } else {
            assert forall|i: int| 0 <= i < out.len() implies (#[trigger] out[i]).key != k by {
                if i < rest.len() {
                    if i < j {
                        assert(out[i] == bufs[i]);
                    } else {
                        assert(out[i] == bufs[i + 1]);
                    }
                }
            }
            lemma_lookup_absent(out, k);
        }
    }
    match b {
        Some(x) => {
            lemma_lookup_at(out, rest.len() as int);
        },
        None => {
            lemma_lookup_absent(out, key);
        },
    }
}

proof fn lemma_lookup_push(bufs: Seq<BufferView>, x: BufferView)
    requires
        keys_unique(bufs),
        forall|i: int| 0 <= i < bufs.len() ==> (#[trigger] bufs[i]).key != x.key,
    ensures
        keys_unique(bufs.push(x)),
        lookup(bufs.push(x), x.key) == Some(x),
        forall|k: u128| k != x.key ==> lookup(bufs.push(x), k) == lookup(bufs, k),
{
    let out = bufs.push(x);
    assert forall|i: int, l: int|
        0 <= i < out.len() && 0 <= l < out.len() && i != l implies (#[trigger] out[i]).key
        != (#[trigger] out[l]).key by {
        if i < bufs.len() && l < bufs.len() {
            assert(out[i] == bufs[i] && out[l] == bufs[l]);
        } else if i < bufs.len() {
            assert(out[i] == bufs[i]);
        } else {
            assert(out[l] == bufs[l]);
        }
    }
    lemma_lookup_at(out, bufs.len() as int);
    assert forall|k: u128| k != x.key implies lookup(out, k) == lookup(bufs, k) by {
        if exists|i: int| 0 <= i < bufs.len() && (#[trigger] bufs[i]).key == k {
            let i = choose|i: int| 0 <= i < bufs.len() && (#[trigger] bufs[i]).key == k;
            lemma_lookup_at(bufs, i);
            assert(out[i] == bufs[i]);
            lemma_lookup_at(out, i);
        } else {
            assert forall|i: int| 0 <= i < out.len() implies (#[trigger] out[i]).key != k by {
                if i < bufs.len() {
                    assert(out[i] == bufs[i]);
                }
            }
            lemma_lookup_absent(out, k);
        }
    }
}

impl View for Defragmenter {
    type V = DefragmenterView;

    closed spec fn view(&self) -> DefragmenterView {
        DefragmenterView {
            buffers: self.buffers@.map_values(|b: FragmentBuffer| b@),
            timeout: self.timeout,
            losses: self.losses,
        }
    }
}

impl Defragmenter {
    /// Buffers are well formed: keys unique, one slot per fragment.
    pub closed spec fn wf(&self) -> bool {
        &&& keys_unique(self@.buffers)
        &&& forall|i: int|
            0 <= i < self.buffers@.len() ==> {
                &&& 0 < (#[trigger] self.buffers@[i]).parts@.len() <= u32::MAX
            }
    }

    /// A defragmenter that drops buffers idle for `timeout` microseconds.
    pub fn new(timeout: u64) -> (r: Self)
        ensures
            r.wf(),
            r@.buffers.len() == 0,
            r@.timeout == timeout,
            r@.losses == 0,
    {
        Defragmenter { buffers: Vec::new(), timeout, losses: 0 }
    }

    /// Buffers dropped on expiry so far.
    pub fn losses(&self) -> (r: u64)
        ensures
            r == self@.losses,
    {
        self.losses
    }

    /// Number of origins with fragments pending.
    pub fn pending(&self) -> (r: usize)
        ensures
            r == self@.buffers.len(),
    {
        self.buffers.len()
    }

    /// `add_fragment_at` at the current wall-clock instant.
    pub fn add_fragment(&mut self, envelope: Envelope) -> (r: Option<Envelope>)
        requires
            old(self).wf(),
        ensures
            final(self).wf(),
            final(self)@.timeout == old(self)@.timeout,
            envelope@.metadata.fragment_info is None ==> (r matches Some(e) && e@ == envelope@
                && final(self)@ == old(self)@),
            envelope@.metadata.fragment_info matches Some(info) ==> exists|now: i64|
                (#[trigger] key_step(lookup(old(self)@.buffers, info.correlation_key), envelope@, now))
                    == (lookup(final(self)@.buffers, info.correlation_key), match r {
                    Some(e) => Some(e@),
                    None => None,
                }),
            envelope@.metadata.fragment_info matches Some(info) ==> forall|k: u128|
                k != info.correlation_key ==> lookup(final(self)@.buffers, k) == lookup(
                    old(self)@.buffers,
                    k,
                ),
    {
        let now = now_micros();
        let ghost env = envelope@;
        let r = self.add_fragment_at(envelope, now);
        proof {
            if let Some(info) = env.metadata.fragment_info {
                let k0 = info.correlation_key;
                assert(key_step(lookup(old(self)@.buffers, k0), env, now) == (lookup(self@.buffers, k0), match r {
                    Some(e) => Some(e@),
                    None => None,
                }));
            }
        }
        r
    }

    /// `gc_expired_at` at the current wall-clock instant.
    pub fn gc_expired(&mut self)
        requires
            old(self).wf(),
        ensures
            final(self).wf(),
            final(self)@.timeout == old(self)@.timeout,
            exists|now: i64| #[trigger] swept(old(self)@, final(self)@, now),
            final(self)@.losses == if old(self)@.losses + (old(self)@.buffers.len() - final(self)@.buffers.len())
                <= u64::MAX {
                old(self)@.losses + (old(self)@.buffers.len() - final(self)@.buffers.len())
            } else {
                u64::MAX as int
            },
    {
        let now = now_micros();
        self.gc_expired_at(now);
        assert(swept(old(self)@, self@, now));
    }

    /// Drops every buffer not updated within the last `timeout`
    /// microseconds before `now`, counting each as a loss; the others stay
    /// as they are.
    pub fn gc_expired_at(&mut self, now: i64)
        requires
            old(self).wf(),
        ensures
            final(self).wf(),
            final(self)@.timeout == old(self)@.timeout,
            final(self)@.losses == if old(self)@.losses + (old(self)@.buffers.len() - final(self)@.buffers.len())
                <= u64::MAX {
                old(self)@.losses + (old(self)@.buffers.len() - final(self)@.buffers.len())
            } else {
                u64::MAX as int
            },
            swept(old(self)@, final(self)@, now),
    {
        let ghost orig = self@.buffers;
        let ghost timeout = self.timeout;
        let ghost losses0 = self.losses;
        let mut rest: Vec<FragmentBuffer> = Vec::new();
        core::mem::swap(&mut self.buffers, &mut rest);
        let ghost mut k: int = 0;
        let ghost mut idx: Seq<int> = Seq::empty();
        while rest.len() > 0
            invariant
                self.timeout == timeout,
                self.losses == if losses0 + (k - idx.len()) <= u64::MAX {
                    losses0 + (k - idx.len())
                } else {
                    u64::MAX as int
                },
                keys_unique(orig),
                0 <= k <= orig.len(),
                rest@.len() == orig.len() - k,
                forall|i: int| 0 <= i < rest@.len() ==> (#[trigger] rest@[i])@ == orig[i + k],
                forall|i: int|
                    0 <= i < rest@.len() ==> 0 < (#[trigger] rest@[i]).parts@.len() <= u32::MAX,
                forall|i: int|
                    0 <= i < self.buffers@.len() ==> 0 < (#[trigger] self.buffers@[i]).parts@.len()
                        <= u32::MAX,
                idx.len() == self@.buffers.len(),
                forall|i: int|
                    0 <= i < idx.len() ==> 0 <= #[trigger] idx[i] < k && orig[idx[i]]
                        == self@.buffers[i] && is_live(orig[idx[i]], now, timeout),
                forall|a: int, c: int| 0 <= a < c < idx.len() ==> idx[a] < idx[c],
                forall|j: int|
                    0 <= j < k && is_live(#[trigger] orig[j], now, timeout) ==> exists|i: int|
                        0 <= i < idx.len() && idx[i] == j,
            decreases rest@.len(),
        {
            let ghost prev = rest@;
            let b = rest.remove(0);
            proof {
                assert(b@ == orig[k]);
                assert forall|i: int| 0 <= i < rest@.len() implies (#[trigger] rest@[i])@ == orig[i
                    + k + 1] by {
                    assert(rest@[i] == prev[i + 1]);
                }
            }
            let live = (now as i128) - (b.last_update as i128) < (self.timeout as i128);
            if live {
                let ghost before = self@.buffers;
                self.buffers.push(b);
                proof {
                    assert(self@.buffers == before.push(orig[k]));
                    let old_idx = idx;
                    idx = idx.push(k);
                    assert forall|j: int|
                        0 <= j < k + 1 && is_live(#[trigger] orig[j], now, timeout) implies exists|i: int|
                        0 <= i < idx.len() && idx[i] == j by {
                        if j < k {
                            let i = choose|i: int| 0 <= i < old_idx.len() && old_idx[i] == j;
                            assert(idx[i] == j);
                        } else {
                            assert(idx[old_idx.len() as int] == j);
                        }
                    }
                }
            } else {
                if self.losses < u64::MAX {
                    self.losses = self.losses + 1;
                }
            }
            proof {
                k = k + 1;
            }
        }
        proof {
            assert forall|a: int, c: int|
                0 <= a < self@.buffers.len() && 0 <= c < self@.buffers.len() && a != c implies (
                #[trigger] self@.buffers[a]).key != (#[trigger] self@.buffers[c]).key by {
                assert(idx[a] != idx[c]);
            }
            assert forall|key: u128|
                #![trigger lookup(self@.buffers, key)]
                lookup(self@.buffers, key) == match lookup(orig, key) {
                    Some(b) => if is_live(b, now, timeout) {
                        Some(b)
                    } else {
                        None
                    },
                    None => None,
                } by {
                if exists|j: int| 0 <= j < orig.len() && (#[trigger] orig[j]).key == key {
                    let j = choose|j: int| 0 <= j < orig.len() && (#[trigger] orig[j]).key == key;
                    lemma_lookup_at(orig, j);
                    if is_live(orig[j], now, timeout) {
                        let i = choose|i: int| 0 <= i < idx.len() && idx[i] == j;
                        lemma_lookup_at(self@.buffers, i);
                    } else {
                        assert forall|i: int| 0 <= i < self@.buffers.len() implies (
                        #[trigger] self@.buffers[i]).key != key by {
                            assert(idx[i] != j);
                        }
                        lemma_lookup_absent(self@.buffers, key);
                    }
                } else {
                    assert forall|i: int| 0 <= i < self@.buffers.len() implies (
                    #[trigger] self@.buffers[i]).key != key by {
                        assert(orig[idx[i]] == self@.buffers[i]);
                    }
                    lemma_lookup_absent(self@.buffers, key);
                }
            }
        }
    }

    /// Takes one arrival at instant `now`. A non-fragment passes through. A
    /// fragment is stored by its id into the buffer of its correlation key
    /// (a duplicate overwrites); once every slot is filled the buffer leaves
    /// and the reassembled envelope is returned.
    pub fn add_fragment_at(&mut self, envelope: Envelope, now: i64) -> (r: Option<Envelope>)
        requires
            old(self).wf(),
        ensures
            final(self).wf(),
            final(self)@.timeout == old(self)@.timeout,
            match envelope@.metadata.fragment_info {
                None => r matches Some(e) && e@ == envelope@ && final(self)@ == old(self)@,
                Some(info) => match target_buffer(old(self)@.buffers, envelope@, info) {
                    None => r is None && final(self)@ == old(self)@,
                    Some(b0) => {
                        let b = with_part(b0, info.fragment_id as nat, envelope@.payload, now);
                        &&& (lookup(final(self)@.buffers, info.correlation_key), match r {
                            Some(e) => Some(e@),
                            None => None,
                        }) == key_step(lookup(old(self)@.buffers, info.correlation_key), envelope@, now)
                        &&& forall|k: u128|
                            k != info.correlation_key ==> lookup(final(self)@.buffers, k)
                                == lookup(old(self)@.buffers, k)
                        &&& if is_complete(b) {
                            &&& r matches Some(e) && e@ == assembled(b)
                            &&& lookup(final(self)@.buffers, info.correlation_key) is None
                        } else {
                            &&& r is None
                            &&& lookup(final(self)@.buffers, info.correlation_key) == Some(b)
                        }
                    },
                },
            },
    {
        let info = match envelope.metadata.fragment_info {
            Some(info) => info,
            None => return Some(envelope),
        };
        if info.total_fragments == 0 || info.fragment_id >= info.total_fragments {
            return None;
        }
        let key = info.correlation_key;
        let ghost old_bufs = self@.buffers;
        let mut found: Option<usize> = None;
        let mut i: usize = 0;
        while i < self.buffers.len() && found.is_none()
            invariant
                self@.buffers == old_bufs,
                i <= self.buffers@.len(),
                forall|j: int| 0 <= j < i ==> (#[trigger] self.buffers@[j]).correlation_key != key,
                found matches Some(j) ==> j < self.buffers@.len() && self.buffers@[j as int].correlation_key
                    == key,
            decreases self.buffers@.len() - i + if found is None {
                1int
            } else {
                0
            },
        {
            if self.buffers[i].correlation_key == key {
                found = Some(i);
            } else {
                i = i + 1;
            }
        }
        let mut buf = match found {
            Some(j) => {
                proof {
                    assert(old_bufs[j as int] == self.buffers@[j as int]@);
                    lemma_lookup_at(old_bufs, j as int);
                }
                if self.buffers[j].parts.len() != info.total_fragments as usize {
                    return None;
                }
                self.buffers.remove(j)
            },
            None => {
                proof {
                    assert forall|j: int| 0 <= j < old_bufs.len() implies (#[trigger] old_bufs[j]).key
                        != key by {
                        assert(old_bufs[j] == self.buffers@[j]@);
                    }
                    lemma_lookup_absent(old_bufs, key);
                }
                let mut parts: Vec<Option<Vec<u8>>> = Vec::new();
                let mut c: usize = 0;
                while c < info.total_fragments as usize
                    invariant
                        c <= info.total_fragments,
                        parts@.len() == c,
                        forall|l: int| 0 <= l < c ==> (#[trigger] parts@[l]) is None,
                    decreases info.total_fragments - c,
                {
                    parts.push(None);
                    c = c + 1;
                }
                let b = FragmentBuffer {
                    correlation_key: key,
                    parts,
                    original_envelope: envelope.duplicate(),
                    last_update: 0,
                };
                assert(b@.parts =~= fresh_buffer(envelope@, info).parts);
                b
            },
        };
        let ghost b0 = buf@;
        proof {
            assert(target_buffer(old_bufs, envelope@, info) == Some(b0));
            if let Some(j) = found {
                assert(self@.buffers =~= old_bufs.remove(j as int));
            }
        }
        let id = info.fragment_id as usize;
        let payload = envelope.payload;
        buf.parts.set(id, Some(payload));
        buf.last_update = now;
        let ghost b = with_part(b0, info.fragment_id as nat, payload@, now);
        assert(buf@.parts =~= b.parts);
        assert(buf@ == b);
        let mut complete = true;
        let mut c: usize = 0;
        while c < buf.parts.len()
            invariant
                buf@ == b,
                c <= buf.parts@.len(),
                complete <==> forall|l: int| 0 <= l < c ==> (#[trigger] b.parts[l]) is Some,
            decreases buf.parts@.len() - c,
        {
            if buf.parts[c].is_none() {
                complete = false;
            }
            proof {
                assert(b.parts[c as int] == part_view(buf.parts@[c as int]));
            }
            c = c + 1;
        }
        if complete {
            let mut out: Vec<u8> = Vec::new();
            let mut c: usize = 0;
            while c < buf.parts.len()
                invariant
                    buf@ == b,
                    is_complete(b),
                    c <= buf.parts@.len(),
                    out@ == concat_parts(b.parts.subrange(0, c as int)),
                decreases buf.parts@.len() - c,
            {
                proof {
                    assert(b.parts[c as int] == part_view(buf.parts@[c as int]));
                    assert(b.parts.subrange(0, c + 1).drop_last() =~= b.parts.subrange(0, c as int));
                }
                match &buf.parts[c] {
                    Some(p) => append_bytes(&mut out, p.as_slice()),
                    None => {},
                }
                c = c + 1;
            }
            assert(b.parts.subrange(0, b.parts.len() as int) =~= b.parts);
            let mut done = buf.original_envelope.with_payload(out);
            done.id = key;
            done.metadata.fragment_info = None;
            proof {
                match found {
                    Some(j) => lemma_lookup_frame(old_bufs, j as int, None, self@.buffers, key),
                    None => lemma_lookup_absent(old_bufs, key),
                }
            }
            Some(done)
        } else {
            self.buffers.push(buf);
            proof {
                match found {
                    Some(j) => {
                        assert(self@.buffers =~= old_bufs.remove(j as int).push(b));
                        lemma_lookup_frame(old_bufs, j as int, Some(b), self@.buffers, key);
                    },
                    None => {
                        assert(self@.buffers =~= old_bufs.push(b));
                        lemma_lookup_push(old_bufs, b);
                    },
                }
            }
            None
        }
    }
}

/// Arrivals for one key fed in turn through `key_step`, each at its own
/// instant: what is held afterwards, and what each arrival released.
pub open spec fn key_run(held: Option<BufferView>, arrivals: Seq<(EnvelopeView, i64)>) -> (
    Option<BufferView>,
    Seq<Option<EnvelopeView>>,
)
    decreases arrivals.len(),
{
    if arrivals.len() == 0 {
        (held, Seq::empty())
    } else {
        let (h1, o1) = key_run(held, arrivals.drop_last());
        let (h2, o2) = key_step(h1, arrivals.last().0, arrivals.last().1);
        (h2, o1.push(o2))
    }
}

/// Fragment `i` arrives somewhere in `order`.
pub open spec fn arrives(order: Seq<(int, i64)>, i: int) -> bool {
    exists|t: int| 0 <= t < order.len() && (#[trigger] order[t]).0 == i
}

/// Every fragment id below `n` arrives in `order`.
pub open spec fn covers(order: Seq<(int, i64)>, n: nat) -> bool {
    forall|i: int| 0 <= i < n ==> #[trigger] arrives(order, i)
}

proof fn lemma_concat_fragments(p: Seq<u8>, mtu: nat, c: nat)
    requires
        mtu > 0,
        c <= fragment_count(p.len(), mtu),
    ensures
        concat_parts(
            Seq::new(fragment_count(p.len(), mtu), |i: int| Some(fragment_payload(p, mtu, i as nat))).subrange(
                0,
                c as int,
            ),
        ) == p.subrange(0, if c * mtu < p.len() { (c * mtu) as int } else { p.len() as int }),
    decreases c,
{
    let n = fragment_count(p.len(), mtu);
    let all = Seq::new(n, |i: int| Some(fragment_payload(p, mtu, i as nat)));
    if c == 0 {
        assert(all.subrange(0, 0) =~= Seq::<Option<Seq<u8>>>::empty());
        assert(p.subrange(0, 0) =~= Seq::<u8>::empty());
    } else {
        let i = (c - 1) as nat;
        lemma_concat_fragments(p, mtu, i);
        lemma_fragment_bounds(p.len(), mtu, i);
        assert(all.subrange(0, c as int).drop_last() =~= all.subrange(0, i as int));
        assert(all.subrange(0, c as int).last() == Some(fragment_payload(p, mtu, i)));
        assert(c * mtu == i * mtu + mtu) by (nonlinear_arith)
            requires
                i == c - 1,
        ;
        let end = if c * mtu < p.len() { (c * mtu) as int } else { p.len() as int };
        assert(p.subrange(0, (i * mtu) as int) + p.subrange((i * mtu) as int, end) =~= p.subrange(0, end));
    }
}

proof fn lemma_count_covers(len: nat, mtu: nat)
    requires
        mtu > 0,
    ensures
        fragment_count(len, mtu) * mtu >= len,
{
    let q = len / mtu;
    let r = len % mtu;
    vstd::arithmetic::div_mod::lemma_fundamental_div_mod(len as int, mtu as int);
    if r == 0 {
        assert(q * mtu == mtu * q) by (nonlinear_arith);
    } else {
        assert((q + 1) * mtu == mtu * q + mtu) by (nonlinear_arith);
    }
}

/// Fragmentation round trip: the fragments of an envelope (payload over the
/// MTU and at most ten times it), fed for their key in any order and with
/// any duplicates, release nothing until the last of them has arrived; that
/// arrival releases the original envelope, with its id, its payload and no
/// fragment info, and the key's buffer is gone.
pub proof fn lemma_fragment_round_trip(
    e: EnvelopeView,
    mtu: nat,
    frags: Seq<EnvelopeView>,
    order: Seq<(int, i64)>,
)
    requires
        mtu > 0,
        mtu < e.payload.len() <= 10 * mtu,
        e.metadata.fragment_info is None,
        frags.len() == fragment_count(e.payload.len(), mtu),
        forall|i: int|
            0 <= i < frags.len() ==> is_fragment_of(#[trigger] frags[i], e, mtu, i as nat, frags.len()),
        forall|t: int| 0 <= t < order.len() ==> 0 <= (#[trigger] order[t]).0 < frags.len(),
        covers(order, frags.len()),
        !covers(order.drop_last(), frags.len()),
    ensures
        ({
            let run = key_run(None, order.map_values(|x: (int, i64)| (frags[x.0], x.1)));
            &&& run.0 is None
            &&& run.1.len() == order.len()
            &&& run.1.last() == Some(e)
            &&& forall|t: int| 0 <= t < order.len() - 1 ==> (#[trigger] run.1[t]) is None
        }),
{
    let n = frags.len();
    lemma_fragment_count(e.payload.len(), mtu);
    assert(n <= 10) by {
        lemma_count_covers(e.payload.len(), mtu);
        if n > 10 {
            lemma_fragment_bounds(e.payload.len(), mtu, 10);
            assert(10 * mtu < e.payload.len());
        }
    }
    let arr = order.map_values(|x: (int, i64)| (frags[x.0], x.1));
    assert(order.len() > 0) by {
        if order.len() == 0 {
            assert(arrives(order, 0));
        }
    }
    lemma_run_prefix(e, mtu, frags, order, (order.len() - 1) as nat);
    let pre = order.subrange(0, order.len() - 1);
    assert(pre =~= order.drop_last());
    let (h1, o1) = key_run(None, arr.subrange(0, order.len() - 1));
    assert(arr.drop_last() =~= arr.subrange(0, order.len() - 1));
    let last = order.last();
    let j = last.0;
    assert(arr.last() == (frags[j], last.1));
    let f = frags[j];
    let info = f.metadata.fragment_info->0;
    assert(is_fragment_of(frags[j], e, mtu, j as nat, n));
    let b0 = match h1 {
        Some(b) => b,
        None => fresh_buffer(f, info),
    };
    let b = with_part(b0, j as nat, f.payload, last.1);
    assert forall|i: int| 0 <= i < n implies #[trigger] b.parts[i] == Some(fragment_payload(e.payload, mtu, i as nat)) by {
        if i != j {
            assert(arrives(order, i));
            let t = choose|t: int| 0 <= t < order.len() && (#[trigger] order[t]).0 == i;
            if t == order.len() - 1 {
                assert(order[t] == last);
            } else {
                assert(pre[t] == order[t]);
                assert(arrives(pre, i));
            }
        }
    }
    let all = Seq::new(n, |i: int| Some(fragment_payload(e.payload, mtu, i as nat)));
    assert(b.parts =~= all);
    lemma_concat_fragments(e.payload, mtu, n);
    lemma_count_covers(e.payload.len(), mtu);
    assert(all.subrange(0, n as int) =~= all);
    assert(e.payload.subrange(0, e.payload.len() as int) =~= e.payload);
    let out = assembled(b);
    assert(out.metadata == e.metadata);
    assert(out == e);
}

proof fn lemma_run_prefix(e: EnvelopeView, mtu: nat, frags: Seq<EnvelopeView>, order: Seq<(int, i64)>, k: nat)
    requires
        mtu > 0,
        mtu < e.payload.len(),
        e.metadata.fragment_info is None,
        frags.len() == fragment_count(e.payload.len(), mtu),
        2 <= frags.len() <= 10,
        forall|i: int|
            0 <= i < frags.len() ==> is_fragment_of(#[trigger] frags[i], e, mtu, i as nat, frags.len()),
        forall|t: int| 0 <= t < order.len() ==> 0 <= (#[trigger] order[t]).0 < frags.len(),
        k < order.len(),
        !covers(order.subrange(0, k as int), frags.len()),
    ensures
        ({
            let arr = order.map_values(|x: (int, i64)| (frags[x.0], x.1));
            let (h, o) = key_run(None, arr.subrange(0, k as int));
            let pre = order.subrange(0, k as int);
            &&& o.len() == k
            &&& forall|t: int| 0 <= t < k ==> (#[trigger] o[t]) is None
            &&& k == 0 ==> h is None
            &&& k > 0 ==> (h matches Some(b) && b.key == e.id && b.parts.len() == frags.len()
                && b.template == frags[order[0].0] && forall|i: int|
                0 <= i < frags.len() ==> #[trigger] b.parts[i] == if arrives(pre, i) {
                    Some(fragment_payload(e.payload, mtu, i as nat))
                } else {
                    None::<Seq<u8>>
                })
        }),
    decreases k,
{
    let n = frags.len();
    let arr = order.map_values(|x: (int, i64)| (frags[x.0], x.1));
    let pre = order.subrange(0, k as int);
    if k == 0 {
        assert(arr.subrange(0, 0) =~= Seq::<(EnvelopeView, i64)>::empty());
    } else {
        let pk = order.subrange(0, k - 1);
        assert(!covers(pk, n)) by {
            let i = choose|i: int| 0 <= i < n && !#[trigger] arrives(pre, i);
            if arrives(pk, i) {
                let t = choose|t: int| 0 <= t < pk.len() && (#[trigger] pk[t]).0 == i;
                assert(pre[t] == pk[t]);
            }
        }
        lemma_run_prefix(e, mtu, frags, order, (k - 1) as nat);
        let sub = arr.subrange(0, k as int);
        assert(sub.drop_last() =~= arr.subrange(0, k - 1));
        let x = order[k - 1];
        let j = x.0;
        assert(sub.last() == (frags[j], x.1));
        let f = frags[j];
        assert(is_fragment_of(frags[j], e, mtu, j as nat, n));
        let info = f.metadata.fragment_info->0;
        let (h1, o1) = key_run(None, arr.subrange(0, k - 1));
        let b0 = match h1 {
            Some(b) => b,
            None => fresh_buffer(f, info),
        };
        assert(target_for(h1, f, info) == Some(b0));
        let b = with_part(b0, j as nat, f.payload, x.1);
        assert forall|i: int| 0 <= i < n implies #[trigger] b.parts[i] == if arrives(pre, i) {
            Some(fragment_payload(e.payload, mtu, i as nat))
        } else {
            None::<Seq<u8>>
        } by {
            if i == j {
                assert(pre[k - 1] == x);
            } else {
                if arrives(pre, i) {
                    let t = choose|t: int| 0 <= t < pre.len() && (#[trigger] pre[t]).0 == i;
                    assert(t != k - 1);
                    assert(pk[t] == pre[t]);
                    assert(arrives(pk, i));
                }
                if arrives(pk, i) {
                    let t = choose|t: int| 0 <= t < pk.len() && (#[trigger] pk[t]).0 == i;
                    assert(pre[t] == pk[t]);
                }
            }
        }
        assert(!is_complete(b)) by {
            let i = choose|i: int| 0 <= i < n && !#[trigger] arrives(pre, i);
            assert(b.parts[i] is None);
        }
        if k == 1 {
            assert(order[0] == x);
        }
    }
}

} // verus!
