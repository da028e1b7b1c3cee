//! Forward error correction: Reed-Solomon over GF(2^8) with `k` data and
//! `m` parity shards.

use vstd::prelude::*;
use crate::envelope::{Envelope, EnvelopeMetadataView, EnvelopeView, FecInfo};
use crate::error::{AriaError, AriaResult};
use reed_solomon_erasure::galois_8::ReedSolomon;

verus! {

#[verifier::external_type_specification]
#[verifier::external_body]
pub struct ExRsError(reed_solomon_erasure::Error);

/// The `m` parity shards that the Reed-Solomon code over GF(2^8) with `k`
/// data shards computes for `data`.
pub uninterp spec fn rs_parity(k: nat, m: nat, data: Seq<Seq<u8>>) -> Seq<Seq<u8>>;

pub open spec fn shards_view(v: Seq<Vec<u8>>) -> Seq<Seq<u8>> {
    v.map_values(|s: Vec<u8>| s@)
}

pub open spec fn slot_view(o: Option<Vec<u8>>) -> Option<Seq<u8>> {
    match o {
        Some(s) => Some(s@),
        None => None,
    }
}

pub open spec fn holes_view(v: Seq<Option<Vec<u8>>>) -> Seq<Option<Seq<u8>>> {
    v.map_values(|o: Option<Vec<u8>>| slot_view(o))
}

fn copy_slot(o: &Option<Vec<u8>>) -> (r: Option<Vec<u8>>)
    ensures
        slot_view(r) == slot_view(*o),
{
    match o {
        Some(v) => Some(vstd::slice::slice_to_vec(v.as_slice())),
        None => None,
    }
}

/// `k`, `m` are parameters that the code accepts.
pub open spec fn valid_params(k: nat, m: nat) -> bool {
    1 <= k && 1 <= m && k + m <= 256
}

/// Data shards of one common, non-zero length.
pub open spec fn uniform_shards(data: Seq<Seq<u8>>) -> bool {
    &&& data.len() > 0
    &&& data[0].len() > 0
    &&& forall|i: int| 0 <= i < data.len() ==> (#[trigger] data[i]).len() == data[0].len()
}

/// The `k + m` shards of the code word for `data`.
pub open spec fn codeword(k: nat, m: nat, data: Seq<Seq<u8>>) -> Seq<Seq<u8>> {
    data + rs_parity(k, m, data)
}

/// Number of shards present.
pub open spec fn present_count(frags: Seq<Option<Seq<u8>>>) -> nat
    decreases frags.len(),
{
    if frags.len() == 0 {
        0
    } else {
        present_count(frags.drop_last()) + if frags.last() is Some {
            1nat
        } else {
            0nat
        }
    }
}

/// Every present shard of `frags` is the shard of the code word for `data`
/// at its position.
pub open spec fn agrees_with(frags: Seq<Option<Seq<u8>>>, k: nat, m: nat, data: Seq<Seq<u8>>) -> bool {
    &&& data.len() == k
    &&& uniform_shards(data)
    &&& frags.len() == k + m
    &&& forall|i: int|
        0 <= i < frags.len() && (#[trigger] frags[i]) is Some ==> frags[i]->0 == codeword(
            k,
            m,
            data,
        )[i]
}

/// Length of each shard for `len` bytes split `k` ways: `ceil(len / k)`.
pub open spec fn shard_len(len: nat, k: nat) -> nat {
    len / k + if len % k == 0 {
        0nat
    } else {
        1nat
    }
}

/// `data` zero-padded to `k` shards of `shard_len` bytes each.
pub open spec fn split_padded(data: Seq<u8>, k: nat) -> Seq<Seq<u8>> {
    let sz = shard_len(data.len(), k);
    Seq::new(
        k,
        |i: int|
            Seq::new(
                sz,
                |j: int|
                    if i * sz + j < data.len() {
                        data[i * sz + j]
                    } else {
                        0u8
                    },
            ),
    )
}

/// `data` zero-padded to `n` bytes.
pub open spec fn padded(data: Seq<u8>, n: nat) -> Seq<u8> {
    Seq::new(
        n,
        |p: int|
            if p < data.len() {
                data[p]
            } else {
                0u8
            },
    )
}

/// Relies on `ReedSolomon::<galois_8::Field>::new` and `ReedSolomon::encode`:
/// with valid parameters and `k + m` shards of one non-zero length, `encode`
/// succeeds, keeps the `k` data shards and overwrites the `m` parity slots
/// with the parity of the data.
#[verifier::external_body]
fn rs_encode(k: usize, m: usize, shards: &mut Vec<Vec<u8>>) -> (r: Result<(), reed_solomon_erasure::Error>)
    requires
        valid_params(k as nat, m as nat),
        old(shards)@.len() == k + m,
        uniform_shards(shards_view(old(shards)@)),
    ensures
        r is Ok,
        final(shards)@.len() == k + m,
        forall|i: int| 0 <= i < k + m ==> (#[trigger] final(shards)@[i])@.len() == old(shards)@[i]@.len(),
        shards_view(final(shards)@).subrange(0, k as int) == shards_view(old(shards)@).subrange(
            0,
            k as int,
        ),
        shards_view(final(shards)@).subrange(k as int, (k + m) as int) == rs_parity(
            k as nat,
            m as nat,
            shards_view(old(shards)@).subrange(0, k as int),
        ),
{
    let rs = ReedSolomon::new(k, m)?;
    rs.encode(shards)
}

/// Relies on `ReedSolomon::<galois_8::Field>::new` and `ReedSolomon::reconstruct`:
/// on error nothing is touched; fewer than `k` present shards is an error;
/// on success every slot is filled; and where the present shards agree with
/// the code word of some data, at least `k` of them, the slots end up
/// holding that code word (any `k` shards of a Reed-Solomon code word
/// determine it).
#[verifier::external_body]
fn rs_reconstruct(k: usize, m: usize, shards: &mut Vec<Option<Vec<u8>>>) -> (r: Result<
    (),
    reed_solomon_erasure::Error,
>)
    requires
        valid_params(k as nat, m as nat),
        old(shards)@.len() == k + m,
    ensures
        final(shards)@.len() == k + m,
        r is Err ==> holes_view(final(shards)@) == holes_view(old(shards)@),
        present_count(holes_view(old(shards)@)) < k ==> r is Err,
        r is Ok ==> forall|i: int| 0 <= i < k + m ==> (#[trigger] final(shards)@[i]) is Some,
        forall|data: Seq<Seq<u8>>|
            #[trigger] agrees_with(holes_view(old(shards)@), k as nat, m as nat, data) && present_count(
                holes_view(old(shards)@),
            ) >= k ==> r is Ok && holes_view(final(shards)@) == codeword(k as nat, m as nat, data).map_values(
                |s: Seq<u8>| Some(s),
            ),
{
    let rs = ReedSolomon::new(k, m)?;
    rs.reconstruct(shards.as_mut_slice())
}

/// Block erasure code: `k` data shards, `m` parity shards.
pub trait IFEC {
    /// Splits `data` into `k` zero-padded shards of `ceil(len / k)` bytes and
    /// appends `m` parity shards. Fails with `FecEncode` on parameters the
    /// code rejects or on empty data.
    fn encode(&self, data: &[u8], k: usize, m: usize) -> (r: AriaResult<Vec<Vec<u8>>>)
        ensures
            r is Ok <==> valid_params(k as nat, m as nat) && data@.len() > 0,
            r matches Err(e) ==> e is FecEncode,
            r matches Ok(s) ==> s@.len() == k + m,
            r matches Ok(s) ==> forall|i: int|
                0 <= i < k + m ==> (#[trigger] s@[i])@.len() == shard_len(data@.len(), k as nat),
            r matches Ok(s) ==> shards_view(s@) == codeword(
                k as nat,
                m as nat,
                split_padded(data@, k as nat),
            ),
    ;

    /// Rebuilds the padded data, the `k` data shards concatenated, from
    /// `k + m` slots with holes. Fails with `FecUnrecoverable` where fewer
    /// than `k` shards are present, and with `Fec` on bad parameters.
    fn decode(&self, fragments: &[Option<Vec<u8>>], k: usize, m: usize) -> (r: AriaResult<Vec<u8>>)
        ensures
            !(valid_params(k as nat, m as nat) && fragments@.len() == k + m) ==> (r matches Err(e)
                && e is Fec),
            valid_params(k as nat, m as nat) && fragments@.len() == k + m && present_count(
                holes_view(fragments@),
            ) < k ==> (r matches Err(e) && e is FecUnrecoverable),
            forall|data: Seq<Seq<u8>>|
                #[trigger] agrees_with(holes_view(fragments@), k as nat, m as nat, data) && valid_params(
                    k as nat,
                    m as nat,
                ) && present_count(holes_view(fragments@)) >= k ==> (r matches Ok(v) && v@
                    == data.flatten()),
    ;
}

/// Reed-Solomon FEC over GF(2^8).
pub struct ReedSolomonFec;

fn count_present(frags: &[Option<Vec<u8>>]) -> (r: usize)
    ensures
        r == present_count(holes_view(frags@)),
{
    let mut n: usize = 0;
    let mut i: usize = 0;
    while i < frags.len()
        invariant
            i <= frags@.len(),
            n == present_count(holes_view(frags@).subrange(0, i as int)),
            n <= i,
        decreases frags@.len() - i,
    {
        proof {
            assert(holes_view(frags@).subrange(0, i + 1).drop_last() =~= holes_view(frags@).subrange(
                0,
                i as int,
            ));
        }
        if frags[i].is_some() {
            n = n + 1;
        }
        i = i + 1;
    }
    assert(holes_view(frags@).subrange(0, frags@.len() as int) =~= holes_view(frags@));
    n
}

proof fn lemma_shard_len(len: nat, k: nat)
    requires
        k >= 1,
        len >= 1,
    ensures
        1 <= shard_len(len, k) <= len,
        len <= k * shard_len(len, k),
{
    let q = len / k;
    let r = len % k;
    vstd::arithmetic::div_mod::lemma_fundamental_div_mod(len as int, k as int);
    assert(len == k * q + r);
    assert(q <= len) by (nonlinear_arith)
        requires
            len == k * q + r,
            k >= 1,
            r >= 0,
    ;
    if r > 0 {
        assert(q < len) by (nonlinear_arith)
            requires
                len == k * q + r,
                k >= 1,
                r > 0,
        ;
        assert(len <= k * (q + 1)) by (nonlinear_arith)
            requires
                len == k * q + r,
                r < k,
        ;
    } else {
        assert(q >= 1) by (nonlinear_arith)
            requires
                len == k * q,
                len >= 1,
        ;
    }
}

impl IFEC for ReedSolomonFec {
    fn encode(&self, data: &[u8], k: usize, m: usize) -> (r: AriaResult<Vec<Vec<u8>>>) {
        if k == 0 || m == 0 || k > 256 || m > 256 || k + m > 256 || data.len() == 0 {
            return Err(AriaError::FecEncode);
        }
        let len = data.len();
        proof {
            lemma_shard_len(len as nat, k as nat);
        }
        let sz: usize = len / k + if len % k == 0 {
            0
        } else {
            1
        };
        let ghost split = split_padded(data@, k as nat);
        let mut shards: Vec<Vec<u8>> = Vec::new();
        let mut i: usize = 0;
        while i < k
            invariant
                i <= k <= 256,
                sz == shard_len(len as nat, k as nat),
                1 <= sz <= len,
                len == data@.len(),
                split == split_padded(data@, k as nat),
                shards@.len() == i,
                forall|a: int| 0 <= a < i ==> (#[trigger] shards@[a])@ == split[a],
            decreases k - i,
        {
            let mut shard: Vec<u8> = Vec::new();
            let mut j: usize = 0;
            while j < sz
                invariant
                    i < k <= 256,
                    j <= sz,
                    sz == shard_len(len as nat, k as nat),
                    1 <= sz <= len,
                    len == data@.len(),
                    split == split_padded(data@, k as nat),
                    shard@ == split[i as int].subrange(0, j as int),
                decreases sz - j,
            {
                assert((i as int) * (sz as int) + (j as int) <= 257 * 0xFFFF_FFFF_FFFF_FFFFint)
                    by (nonlinear_arith)
                    requires
                        i < 256,
                        j <= sz,
                        sz <= 0xFFFF_FFFF_FFFF_FFFFint,
                ;
                let pos: u128 = (i as u128) * (sz as u128) + (j as u128);
                assert(pos == i * sz + j) by (nonlinear_arith)
                    requires
                        pos == (i as u128) * (sz as u128) + (j as u128),
                        i < 256,
                        sz <= len,
                ;
                let b: u8 = if pos < len as u128 {
                    data[pos as usize]
                } else {
                    0
                };
                shard.push(b);
                j = j + 1;
                assert(shard@ =~= split[i as int].subrange(0, j as int));
            }
            assert(shard@ =~= split[i as int]);
            shards.push(shard);
            i = i + 1;
        }
        let mut p: usize = 0;
        while p < m
            invariant
                k + m <= 256,
                1 <= sz,
                sz == shard_len(len as nat, k as nat),
                split == split_padded(data@, k as nat),
                p <= m,
                shards@.len() == k + p,
                forall|a: int| 0 <= a < k ==> (#[trigger] shards@[a])@ == split[a],
                forall|a: int| k <= a < k + p ==> (#[trigger] shards@[a])@.len() == sz,
            decreases m - p,
        {
            shards.push(vec![0u8; sz]);
            p = p + 1;
        }
        proof {
            let sv = shards_view(shards@);
            assert forall|a: int| 0 <= a < sv.len() implies (#[trigger] sv[a]).len() == sv[0].len() by {
                if a < k {
                    assert(sv[a] == split[a]);
                }
            }
            assert(sv.subrange(0, k as int) =~= split);
        }
        let ghost before = shards_view(shards@);
        match rs_encode(k, m, &mut shards) {
            Ok(()) => {
                proof {
                    let sv = shards_view(shards@);
                    assert(sv =~= sv.subrange(0, k as int) + sv.subrange(k as int, (k + m) as int));
                }
                Ok(shards)
            },
            Err(_) => Err(AriaError::FecEncode),
        }
    }

    fn decode(&self, fragments: &[Option<Vec<u8>>], k: usize, m: usize) -> (r: AriaResult<Vec<u8>>) {
        if k == 0 || m == 0 || k > 256 || m > 256 || k + m > 256 || fragments.len() != k + m {
            return Err(AriaError::Fec("invalid FEC parameters".to_string()));
        }
        if count_present(fragments) < k {
            return Err(AriaError::FecUnrecoverable);
        }
        let mut slots: Vec<Option<Vec<u8>>> = Vec::new();
        let mut i: usize = 0;
        while i < fragments.len()
            invariant
                i <= fragments@.len(),
                slots@.len() == i,
                forall|a: int| 0 <= a < i ==> slot_view(#[trigger] slots@[a]) == slot_view(fragments@[a]),
            decreases fragments@.len() - i,
        {
            let s = copy_slot(&fragments[i]);
            slots.push(s);
            i = i + 1;
        }
        assert(holes_view(slots@) =~= holes_view(fragments@));
        match rs_reconstruct(k, m, &mut slots) {
            Err(_) => Err(AriaError::Fec("reconstruction failed".to_string())),
            Ok(()) => {
                let ghost hv = holes_view(slots@);
                let mut out: Vec<u8> = Vec::new();
                let mut c: usize = 0;
                while c < k
                    invariant
                        c <= k <= slots@.len(),
                        hv == holes_view(slots@),
                        forall|a: int| 0 <= a < slots@.len() ==> (#[trigger] slots@[a]) is Some,
                        out@ == hv.subrange(0, c as int).map_values(|o: Option<Seq<u8>>| o->0).flatten_alt(),
                    decreases k - c,
                {
                    proof {
                        let f = |o: Option<Seq<u8>>| o->0;
                        assert(hv.subrange(0, c + 1).map_values(f).drop_last() =~= hv.subrange(
                            0,
                            c as int,
                        ).map_values(f));
                    }
                    match &slots[c] {
                        Some(v) => append_shard(&mut out, v),
                        None => {},
                    }
                    c = c + 1;
                }
                proof {
                    let f = |o: Option<Seq<u8>>| o->0;
                    let d = hv.subrange(0, k as int).map_values(f);
                    d.lemma_flatten_and_flatten_alt_are_equivalent();
                    assert forall|data: Seq<Seq<u8>>|
                        #[trigger] agrees_with(holes_view(fragments@), k as nat, m as nat, data)
                            && present_count(holes_view(fragments@)) >= k implies out@ == data.flatten() by {
                        assert(hv == codeword(k as nat, m as nat, data).map_values(
                            |s: Seq<u8>| Some(s),
                        ));
                        assert(d =~= data);
                    }
                }
                Ok(out)
            },
        }
    }
}

impl ReedSolomonFec {
    /// `decode`, then the first `original_len` bytes: the data before
    /// padding. A length beyond the decoded bytes is `Fec`.
    pub fn decode_exact(&self, fragments: &[Option<Vec<u8>>], k: usize, m: usize, original_len: usize) -> (r:
        AriaResult<Vec<u8>>)
        ensures
            !(valid_params(k as nat, m as nat) && fragments@.len() == k + m) ==> (r matches Err(e)
                && e is Fec),
            valid_params(k as nat, m as nat) && fragments@.len() == k + m && present_count(
                holes_view(fragments@),
            ) < k ==> (r matches Err(e) && e is FecUnrecoverable),
            forall|data: Seq<Seq<u8>>|
                #[trigger] agrees_with(holes_view(fragments@), k as nat, m as nat, data) && valid_params(
                    k as nat,
                    m as nat,
                ) && present_count(holes_view(fragments@)) >= k ==> if original_len <= data.flatten().len() {
                    r matches Ok(v) && v@ == data.flatten().subrange(0, original_len as int)
                } else {
                    r matches Err(e) && e is Fec
                },
    {
        let padded = self.decode(fragments, k, m)?;
        if original_len > padded.len() {
            return Err(AriaError::Fec("original length beyond the block".to_string()));
        }
        Ok(crate::bytes::copy_range(padded.as_slice(), 0, original_len))
    }

    /// Splits `envelope`'s payload into `k + m` shard envelopes, in shard
    /// order; each is a copy of the envelope with one shard as payload and
    /// `fec_info` naming `(k, m, block_id)` and the payload's length. An
    /// envelope that already carries FEC info is refused with `InvalidState`.
    pub fn encode_envelope(&self, envelope: &Envelope, k: usize, m: usize, block_id: u32) -> (r: AriaResult<
        Vec<Envelope>,
    >)
        ensures
            envelope@.metadata.fec_info is Some ==> (r matches Err(e) && e is InvalidState),
            envelope@.metadata.fec_info is None ==> (r is Ok <==> valid_params(k as nat, m as nat)
                && 0 < envelope@.payload.len() <= u64::MAX),
            r matches Ok(v) ==> v@.len() == k + m && forall|i: int|
                0 <= i < k + m ==> (#[trigger] v@[i])@ == (EnvelopeView {
                    payload: codeword(k as nat, m as nat, split_padded(envelope@.payload, k as nat))[i],
                    metadata: EnvelopeMetadataView {
                        fec_info: Some(
                            FecInfo {
                                k: k as u32,
                                m: m as u32,
                                block_id,
                                original_len: envelope@.payload.len() as u64,
                            },
                        ),
                        ..envelope@.metadata
                    },
                    ..envelope@
                }),
    {
        if envelope.metadata.fec_info.is_some() {
            return Err(AriaError::InvalidState("envelope already carries FEC info".to_string()));
        }
        if envelope.payload.len() as u128 > u64::MAX as u128 {
            return Err(AriaError::FecEncode);
        }
        let shards = self.encode(envelope.payload.as_slice(), k, m)?;
        let info = FecInfo { k: k as u32, m: m as u32, block_id, original_len: envelope.payload.len() as u64 };
        let ghost cw = codeword(k as nat, m as nat, split_padded(envelope@.payload, k as nat));
        let mut out: Vec<Envelope> = Vec::new();
        let mut i: usize = 0;
        while i < shards.len()
            invariant
                valid_params(k as nat, m as nat),
                shards@.len() == k + m,
                shards_view(shards@) == cw,
                info == (FecInfo {
                    k: k as u32,
                    m: m as u32,
                    block_id,
                    original_len: envelope@.payload.len() as u64,
                }),
                envelope@.metadata.fec_info is None,
                envelope@.payload.len() <= u64::MAX,
                i <= shards@.len(),
                out@.len() == i,
                forall|j: int|
                    0 <= j < i ==> (#[trigger] out@[j])@ == (EnvelopeView {
                        payload: cw[j],
                        metadata: EnvelopeMetadataView { fec_info: Some(info), ..envelope@.metadata },
                        ..envelope@
                    }),
            decreases shards@.len() - i,
        {
            let mut shard_env = envelope.with_payload(vstd::slice::slice_to_vec(shards[i].as_slice()));
            shard_env.metadata.fec_info = Some(info);
            assert(cw[i as int] == shards@[i as int]@);
            out.push(shard_env);
            i = i + 1;
        }
        Ok(out)
    }
}

/// The payloads of shard envelopes, with their holes.
pub open spec fn shard_payloads(shards: Seq<Option<Envelope>>) -> Seq<Option<Seq<u8>>> {
    shards.map_values(
        |o: Option<Envelope>|
            match o {
                Some(e) => Some(e@.payload),
                None => None,
            },
    )
}

/// Index of the first present shard, if any.
pub open spec fn first_present(shards: Seq<Option<Envelope>>) -> Option<int>
    decreases shards.len(),
{
    if shards.len() == 0 {
        None
    } else if shards[0] is Some {
        Some(0)
    } else {
        match first_present(shards.drop_first()) {
            Some(i) => Some(i + 1),
            None => None,
        }
    }
}

/// Every present shard carries `info`.
pub open spec fn same_block(shards: Seq<Option<Envelope>>, info: FecInfo) -> bool {
    forall|i: int|
        0 <= i < shards.len() && (#[trigger] shards[i]) is Some ==> shards[i]->0@.metadata.fec_info == Some(
            info,
        )
}

proof fn lemma_first_present(shards: Seq<Option<Envelope>>)
    ensures
        match first_present(shards) {
            Some(i) => 0 <= i < shards.len() && shards[i] is Some && forall|j: int|
                0 <= j < i ==> (#[trigger] shards[j]) is None,
            None => forall|j: int| 0 <= j < shards.len() ==> (#[trigger] shards[j]) is None,
        },
    decreases shards.len(),
{
    if shards.len() > 0 {
        let t = shards.drop_first();
        lemma_first_present(t);
        assert forall|j: int| 0 < j < shards.len() implies shards[j] == t[j - 1] by {}
    }
}

impl ReedSolomonFec {
    /// Rebuilds the envelope that `shards` (the slots of one block, with
    /// holes) came from: the first present shard's envelope with the
    /// decoded payload, cut to the recorded length, and no FEC info. No
    /// shard at all, or too few, is `FecUnrecoverable`; shards that disagree
    /// on their FEC info, or carry none, are `Fec`.
    pub fn decode_envelope(&self, shards: &[Option<Envelope>]) -> (r: AriaResult<Envelope>)
        ensures
            first_present(shards@) is None ==> (r matches Err(e) && e is FecUnrecoverable),
            first_present(shards@) matches Some(t) ==> {
                let head = shards@[t]->0@;
                match head.metadata.fec_info {
                    None => r matches Err(e) && e is Fec,
                    Some(info) => {
                        &&& !same_block(shards@, info) ==> (r matches Err(e) && e is Fec)
                        &&& same_block(shards@, info) && valid_params(info.k as nat, info.m as nat)
                            && shards@.len() == info.k + info.m && present_count(shard_payloads(shards@))
                            < info.k ==> (r matches Err(e) && e is FecUnrecoverable)
                        &&& forall|data: Seq<Seq<u8>>|
                            #[trigger] agrees_with(shard_payloads(shards@), info.k as nat, info.m as nat, data)
                                && same_block(shards@, info) && valid_params(info.k as nat, info.m as nat)
                                && present_count(shard_payloads(shards@)) >= info.k && info.original_len
                                <= data.flatten().len() ==> (r matches Ok(o) && o@ == EnvelopeView {
                                payload: data.flatten().subrange(0, info.original_len as int),
                                metadata: EnvelopeMetadataView { fec_info: None, ..head.metadata },
                                ..head
                            })
                    },
                }
            },
    {
        proof {
            lemma_first_present(shards@);
        }
        let mut t: usize = 0;
        while t < shards.len() && shards[t].is_none()
            invariant
                t <= shards@.len(),
                forall|j: int| 0 <= j < t ==> (#[trigger] shards@[j]) is None,
            decreases shards@.len() - t,
        {
            t = t + 1;
        }
        if t == shards.len() {
            return Err(AriaError::FecUnrecoverable);
        }
        assert(first_present(shards@) == Some(t as int));
        let head = match &shards[t] {
            Some(e) => e,
            None => return Err(AriaError::FecUnrecoverable),
        };
        let info = match head.metadata.fec_info {
            Some(info) => info,
            None => return Err(AriaError::Fec("shard without FEC info".to_string())),
        };
        let mut payloads: Vec<Option<Vec<u8>>> = Vec::new();
        let mut i: usize = 0;
        while i < shards.len()
            invariant
                first_present(shards@) == Some(t as int),
                t < shards@.len(),
                shards@[t as int] matches Some(h) && h@ == head@,
                head@.metadata.fec_info == Some(info),
                i <= shards@.len(),
                payloads@.len() == i,
                forall|j: int| 0 <= j < i ==> (#[trigger] shards@[j]) is Some ==> shards@[j]->0@.metadata.fec_info == Some(info),
                forall|j: int| 0 <= j < i ==> slot_view(#[trigger] payloads@[j]) == shard_payloads(shards@)[j],
            decreases shards@.len() - i,
        {
            match &shards[i] {
                Some(e) => {
                    if e.metadata.fec_info != Some(info) {
                        proof {
                            assert(!same_block(shards@, info));
                        }
                        return Err(AriaError::Fec("shards of different blocks".to_string()));
                    }
                    payloads.push(Some(vstd::slice::slice_to_vec(e.payload.as_slice())));
                },
                None => payloads.push(None),
            }
            i = i + 1;
        }
        assert(holes_view(payloads@) =~= shard_payloads(shards@));
        assert(same_block(shards@, info));
        let k = info.k as usize;
        let m = info.m as usize;
        let padded = self.decode(payloads.as_slice(), k, m)?;
        if (info.original_len as u128) > (padded.len() as u128) {
            return Err(AriaError::Fec("original length beyond the block".to_string()));
        }
        let body = crate::bytes::copy_range(padded.as_slice(), 0, info.original_len as usize);
        let mut out = head.with_payload(body);
        out.metadata.fec_info = None;
        Ok(out)
    }
}

fn append_shard(out: &mut Vec<u8>, v: &Vec<u8>)
    ensures
        final(out)@ == old(out)@ + v@,
{
    crate::bytes::append_bytes(out, v.as_slice());
}

/// `k` shards of one length, concatenated, are the shards' bytes in order.
proof fn lemma_flatten_split(data: Seq<u8>, k: nat, c: nat)
    requires
        k >= 1,
        data.len() >= 1,
        c <= k,
    ensures
        split_padded(data, k).subrange(0, c as int).flatten_alt() == padded(
            data,
            c * shard_len(data.len(), k),
        ),
    decreases c,
{
    let sz = shard_len(data.len(), k);
    let s = split_padded(data, k).subrange(0, c as int);
    if c == 0 {
        assert(s =~= Seq::<Seq<u8>>::empty());
        assert(c * sz == 0) by (nonlinear_arith)
            requires
                c == 0,
        ;
        assert(padded(data, 0) =~= Seq::<u8>::empty());
    } else {
        let i: int = c - 1;
        lemma_flatten_split(data, k, i as nat);
        assert(s.drop_last() =~= split_padded(data, k).subrange(0, i));
        let prev = padded(data, (i * sz) as nat);
        let last = split_padded(data, k)[i];
        assert(s.last() == last);
        assert(last.len() == sz);
        assert(s.flatten_alt() == prev + last);
        assert(c * sz == i * sz + sz) by (nonlinear_arith)
            requires
                i == c - 1,
        ;
        assert(i * sz >= 0) by (nonlinear_arith)
            requires
                i >= 0,
        ;
        assert forall|p: int| 0 <= p < c * sz implies #[trigger] (prev + last)[p] == padded(
            data,
            c * sz,
        )[p] by {
            if p >= i * sz {
                let j = p - i * sz;
                assert(last[j] == (if i * sz + j < data.len() {
                    data[i * sz + j]
                } else {
                    0u8
                }));
            }
        }
        assert(prev + last =~= padded(data, c * sz));
    }
}

/// Tolerance: for valid `(k, m)` and any pattern of holes that leaves at
/// least `k` shards, the surviving shards of an encoding agree with the code
/// word of the padded data, so `decode` returns exactly the padded data,
/// whose first `len` bytes are the original.
pub proof fn lemma_fec_tolerance(data: Seq<u8>, k: nat, m: nat, survivors: Seq<bool>)
    requires
        valid_params(k, m),
        data.len() > 0,
        survivors.len() == k + m,
        present_count(
            Seq::new(
                k + m,
                |i: int|
                    if survivors[i] {
                        Some(codeword(k, m, split_padded(data, k))[i])
                    } else {
                        None
                    },
            ),
        ) >= k,
    ensures
        ({
            let d = split_padded(data, k);
            let frags = Seq::new(
                k + m,
                |i: int|
                    if survivors[i] {
                        Some(codeword(k, m, d)[i])
                    } else {
                        None
                    },
            );
            &&& agrees_with(frags, k, m, d)
            &&& d.flatten() == padded(data, k * shard_len(data.len(), k))
            &&& d.flatten().subrange(0, data.len() as int) == data
        }),
{
    let d = split_padded(data, k);
    let sz = shard_len(data.len(), k);
    lemma_shard_len(data.len(), k);
    assert(d[0].len() == sz);
    assert(d.subrange(0, k as int) =~= d);
    lemma_flatten_split(data, k, k);
    d.lemma_flatten_and_flatten_alt_are_equivalent();
    assert(d.flatten().subrange(0, data.len() as int) =~= data);
}

} // verus!
