//! The envelope wire layout: a length-prefixed record of the envelope's
//! fields, all integers big-endian, each variable part prefixed with its
//! 4-byte length, and each optional metadata block introduced by a
//! one-byte present flag.

use vstd::prelude::*;
use vstd::utf8::{decode_utf8, encode_utf8, valid_utf8};
use crate::crypto::be_byte;
use crate::envelope::{
    CryptoInfo, CryptoInfoView, Envelope, EnvelopeMetadata, EnvelopeMetadataView, EnvelopeView,
    FecInfo, FragmentInfo, Priority,
};

verus! {

broadcast use vstd::utf8::encode_utf8_valid_utf8, vstd::utf8::encode_utf8_decode_utf8;

pub open spec fn be32(x: u32) -> Seq<u8> {
    seq![((x >> 24u32) & 0xff) as u8, ((x >> 16u32) & 0xff) as u8, ((x >> 8u32) & 0xff) as u8, (x & 0xff) as u8]
}

pub open spec fn be64(x: u64) -> Seq<u8> {
    Seq::new(8, |i: int| be_byte(x, i))
}

pub open spec fn read_be32(s: Seq<u8>) -> u32 {
    ((s[0] as u32) << 24u32) | ((s[1] as u32) << 16u32) | ((s[2] as u32) << 8u32) | (s[3] as u32)
}

pub open spec fn read_be64(s: Seq<u8>) -> u64 {
    ((s[0] as u64) << 56u64) | ((s[1] as u64) << 48u64) | ((s[2] as u64) << 40u64) | ((s[3] as u64)
        << 32u64) | ((s[4] as u64) << 24u64) | ((s[5] as u64) << 16u64) | ((s[6] as u64) << 8u64) | (
    s[7] as u64)
}

/// `b` prefixed with its length.
pub open spec fn lp(b: Seq<u8>) -> Seq<u8> {
    be32(b.len() as u32) + b
}

pub open spec fn id_bytes(id: u128) -> Seq<u8> {
    be64((id >> 64u128) as u64) + be64(id as u64)
}

pub open spec fn fragment_block(f: FragmentInfo) -> Seq<u8> {
    be32(f.fragment_id) + (be32(f.total_fragments) + (be64(f.fragment_offset) + id_bytes(
        f.correlation_key,
    )))
}

pub open spec fn fec_block(f: FecInfo) -> Seq<u8> {
    be32(f.k) + (be32(f.m) + (be32(f.block_id) + be64(f.original_len)))
}

pub open spec fn crypto_block(c: CryptoInfoView) -> Seq<u8> {
    lp(c.signature) + (lp(encode_utf8(c.key_id)) + lp(c.nonce))
}

/// A present flag, then the block with its length where present.
pub open spec fn optional(b: Option<Seq<u8>>) -> Seq<u8> {
    match b {
        Some(x) => seq![1u8] + lp(x),
        None => seq![0u8],
    }
}

pub open spec fn metadata_bytes(m: EnvelopeMetadataView) -> Seq<u8> {
    lp(encode_utf8(m.source_node)) + (be64(m.sequence_number) + (optional(
        match m.fragment_info {
            Some(f) => Some(fragment_block(f)),
            None => None,
        },
    ) + (optional(
        match m.fec_info {
            Some(f) => Some(fec_block(f)),
            None => None,
        },
    ) + (optional(
        match m.crypto_info {
            Some(c) => Some(crypto_block(c)),
            None => None,
        },
    ) + lp(encode_utf8(m.qos_class))))))
}

pub open spec fn priority_byte(p: Priority) -> u8 {
    p.rank() as u8
}

/// The record's body: id, timestamp, schema id, priority, topic, payload,
/// then the metadata block.
pub open spec fn body_bytes(e: EnvelopeView) -> Seq<u8> {
    id_bytes(e.id) + (be64(e.timestamp as u64) + (be32(e.schema_id) + (seq![priority_byte(e.priority)]
        + (lp(encode_utf8(e.topic)) + (lp(e.payload) + metadata_bytes(e.metadata))))))
}

/// The serialised envelope: its body, prefixed with the body's length.
pub open spec fn record_bytes(e: EnvelopeView) -> Seq<u8> {
    lp(body_bytes(e))
}

// ---- the spec parser: each step takes a field off the front ----

pub open spec fn take_n(s: Seq<u8>, n: nat) -> Option<(Seq<u8>, Seq<u8>)> {
    if s.len() >= n {
        Some((s.subrange(0, n as int), s.subrange(n as int, s.len() as int)))
    } else {
        None
    }
}

pub open spec fn take_u8(s: Seq<u8>) -> Option<(u8, Seq<u8>)> {
    if s.len() >= 1 {
        Some((s[0], s.drop_first()))
    } else {
        None
    }
}

pub open spec fn take_be32(s: Seq<u8>) -> Option<(u32, Seq<u8>)> {
    match take_n(s, 4) {
        Some((h, t)) => Some((read_be32(h), t)),
        None => None,
    }
}

pub open spec fn take_be64(s: Seq<u8>) -> Option<(u64, Seq<u8>)> {
    match take_n(s, 8) {
        Some((h, t)) => Some((read_be64(h), t)),
        None => None,
    }
}

pub open spec fn take_lp(s: Seq<u8>) -> Option<(Seq<u8>, Seq<u8>)> {
    match take_be32(s) {
        Some((n, t)) => take_n(t, n as nat),
        None => None,
    }
}

pub open spec fn take_id(s: Seq<u8>) -> Option<(u128, Seq<u8>)> {
    match take_be64(s) {
        Some((hi, t)) => match take_be64(t) {
            Some((lo, t2)) => Some((((hi as u128) << 64u128) | (lo as u128), t2)),
            None => None,
        },
        None => None,
    }
}

pub open spec fn take_str(s: Seq<u8>) -> Option<(Seq<char>, Seq<u8>)> {
    match take_lp(s) {
        Some((b, t)) => if valid_utf8(b) {
            Some((decode_utf8(b), t))
        } else {
            None
        },
        None => None,
    }
}

proof fn lemma_be32(x: u32, rest: Seq<u8>)
    ensures
        take_be32(be32(x) + rest) == Some((x, rest)),
{
    let s = be32(x) + rest;
    assert(s.subrange(0, 4) =~= be32(x));
    assert(s.subrange(4, s.len() as int) =~= rest);
    let b0 = ((x >> 24u32) & 0xff) as u8;
    let b1 = ((x >> 16u32) & 0xff) as u8;
    let b2 = ((x >> 8u32) & 0xff) as u8;
    let b3 = (x & 0xff) as u8;
    assert((((b0 as u32) << 24u32) | ((b1 as u32) << 16u32) | ((b2 as u32) << 8u32) | (b3 as u32)) == x)
        by (bit_vector)
        requires
            b0 == ((x >> 24u32) & 0xff) as u8,
            b1 == ((x >> 16u32) & 0xff) as u8,
            b2 == ((x >> 8u32) & 0xff) as u8,
            b3 == (x & 0xff) as u8,
    ;
}

proof fn lemma_be64(x: u64, rest: Seq<u8>)
    ensures
        take_be64(be64(x) + rest) == Some((x, rest)),
{
    let s = be64(x) + rest;
    assert(s.subrange(0, 8) =~= be64(x));
    assert(s.subrange(8, s.len() as int) =~= rest);
    let h = be64(x);
    let b0 = h[0];
    let b1 = h[1];
    let b2 = h[2];
    let b3 = h[3];
    let b4 = h[4];
    let b5 = h[5];
    let b6 = h[6];
    let b7 = h[7];
    assert(((b0 as u64) << 56u64) | ((b1 as u64) << 48u64) | ((b2 as u64) << 40u64) | ((b3 as u64)
        << 32u64) | ((b4 as u64) << 24u64) | ((b5 as u64) << 16u64) | ((b6 as u64) << 8u64) | (b7 as u64)
        == x) by (bit_vector)
        requires
            b0 == ((x >> 56u64) & 0xff) as u8,
            b1 == ((x >> 48u64) & 0xff) as u8,
            b2 == ((x >> 40u64) & 0xff) as u8,
            b3 == ((x >> 32u64) & 0xff) as u8,
            b4 == ((x >> 24u64) & 0xff) as u8,
            b5 == ((x >> 16u64) & 0xff) as u8,
            b6 == ((x >> 8u64) & 0xff) as u8,
            b7 == ((x >> 0u64) & 0xff) as u8,
    ;
}

proof fn lemma_lp(b: Seq<u8>, rest: Seq<u8>)
    requires
        b.len() <= u32::MAX,
    ensures
        take_lp(lp(b) + rest) == Some((b, rest)),
{
    lemma_be32(b.len() as u32, b + rest);
    assert(lp(b) + rest =~= be32(b.len() as u32) + (b + rest));
    let t = b + rest;
    assert(t.subrange(0, b.len() as int) =~= b);
    assert(t.subrange(b.len() as int, t.len() as int) =~= rest);
}

proof fn lemma_id(id: u128, rest: Seq<u8>)
    ensures
        take_id(id_bytes(id) + rest) == Some((id, rest)),
{
    let hi = (id >> 64u128) as u64;
    let lo = id as u64;
    assert(id_bytes(id) + rest =~= be64(hi) + (be64(lo) + rest));
    lemma_be64(hi, be64(lo) + rest);
    lemma_be64(lo, rest);
    assert((((hi as u128) << 64u128) | (lo as u128)) == id) by (bit_vector)
        requires
            hi == (id >> 64u128) as u64,
            lo == id as u64,
    ;
}

proof fn lemma_str(c: Seq<char>, rest: Seq<u8>)
    requires
        encode_utf8(c).len() <= u32::MAX,
    ensures
        take_str(lp(encode_utf8(c)) + rest) == Some((c, rest)),
{
    lemma_lp(encode_utf8(c), rest);
}

pub open spec fn take_optional(s: Seq<u8>) -> Option<(Option<Seq<u8>>, Seq<u8>)> {
    match take_u8(s) {
        Some((flag, t)) => if flag == 0 {
            Some((None, t))
        } else if flag == 1 {
            match take_lp(t) {
                Some((b, t2)) => Some((Some(b), t2)),
                None => None,
            }
        } else {
            None
        },
        None => None,
    }
}

pub open spec fn parse_fragment(b: Seq<u8>) -> Option<FragmentInfo> {
    match take_be32(b) {
        Some((id, t1)) => match take_be32(t1) {
            Some((total, t2)) => match take_be64(t2) {
                Some((offset, t3)) => match take_id(t3) {
                    Some((key, t4)) => if t4.len() == 0 {
                        Some(
                            FragmentInfo {
                                fragment_id: id,
                                total_fragments: total,
                                fragment_offset: offset,
                                correlation_key: key,
                            },
                        )
                    } else {
                        None
                    },
                    None => None,
                },
                None => None,
            },
            None => None,
        },
        None => None,
    }
}

pub open spec fn parse_fec(b: Seq<u8>) -> Option<FecInfo> {
    match take_be32(b) {
        Some((k, t1)) => match take_be32(t1) {
            Some((m, t2)) => match take_be32(t2) {
                Some((block_id, t3)) => match take_be64(t3) {
                    Some((original_len, t4)) => if t4.len() == 0 {
                        Some(FecInfo { k, m, block_id, original_len })
                    } else {
                        None
                    },
                    None => None,
                },
                None => None,
            },
            None => None,
        },
        None => None,
    }
}

pub open spec fn parse_crypto(b: Seq<u8>) -> Option<CryptoInfoView> {
    match take_lp(b) {
        Some((signature, t1)) => match take_str(t1) {
            Some((key_id, t2)) => match take_lp(t2) {
                Some((nonce, t3)) => if t3.len() == 0 {
                    Some(CryptoInfoView { signature, key_id, nonce })
                } else {
                    None
                },
                None => None,
            },
            None => None,
        },
        None => None,
    }
}

pub open spec fn parse_metadata(s: Seq<u8>) -> Option<EnvelopeMetadataView> {
    match take_str(s) {
        Some((source_node, t1)) => match take_be64(t1) {
            Some((sequence_number, t2)) => match take_optional(t2) {
                Some((fr, t3)) => match take_optional(t3) {
                    Some((fe, t4)) => match take_optional(t4) {
                        Some((cr, t5)) => match take_str(t5) {
                            Some((qos_class, t6)) => {
                                let fragment_info = match fr {
                                    Some(b) => parse_fragment(b),
                                    None => None,
                                };
                                let fec_info = match fe {
                                    Some(b) => parse_fec(b),
                                    None => None,
                                };
                                let crypto_info = match cr {
                                    Some(b) => parse_crypto(b),
                                    None => None,
                                };
                                if t6.len() == 0 && (fr is Some ==> fragment_info is Some) && (fe is Some
                                    ==> fec_info is Some) && (cr is Some ==> crypto_info is Some) {
                                    Some(
                                        EnvelopeMetadataView {
                                            source_node,
                                            sequence_number,
                                            fragment_info,
                                            fec_info,
                                            crypto_info,
                                            qos_class,
                                        },
                                    )
                                } else {
                                    None
                                }
                            },
                            None => None,
                        },
                        None => None,
                    },
                    None => None,
                },
                None => None,
            },
            None => None,
        },
        None => None,
    }
}

pub open spec fn priority_of_byte(b: u8) -> Option<Priority> {
    if b == 0 {
        Some(Priority::P0)
    } else if b == 1 {
        Some(Priority::P1)
    } else if b == 2 {
        Some(Priority::P2)
    } else if b == 3 {
        Some(Priority::P3)
    } else {
        None
    }
}

pub open spec fn parse_body(s: Seq<u8>) -> Option<EnvelopeView> {
    match take_id(s) {
        Some((id, t1)) => match take_be64(t1) {
            Some((ts, t2)) => match take_be32(t2) {
                Some((schema_id, t3)) => match take_u8(t3) {
                    Some((pb, t4)) => match take_str(t4) {
                        Some((topic, t5)) => match take_lp(t5) {
                            Some((payload, t6)) => match (priority_of_byte(pb), parse_metadata(t6)) {
                                (Some(priority), Some(metadata)) => Some(
                                    EnvelopeView {
                                        id,
                                        timestamp: ts as i64,
                                        schema_id,
                                        priority,
                                        topic,
                                        payload,
                                        metadata,
                                    },
                                ),
                                _ => None,
                            },
                            None => None,
                        },
                        None => None,
                    },
                    None => None,
                },
                None => None,
            },
            None => None,
        },
        None => None,
    }
}

/// The envelope at the front of `s`, and what follows it.
pub open spec fn parse_record(s: Seq<u8>) -> Option<(EnvelopeView, Seq<u8>)> {
    match take_lp(s) {
        Some((body, rest)) => match parse_body(body) {
            Some(e) => Some((e, rest)),
            None => None,
        },
        None => None,
    }
}

/// An envelope whose record body fits a 4-byte length.
pub open spec fn fits_record(e: EnvelopeView) -> bool {
    body_bytes(e).len() <= u32::MAX
}

proof fn lemma_optional(b: Option<Seq<u8>>, rest: Seq<u8>)
    requires
        b matches Some(x) ==> x.len() <= u32::MAX,
    ensures
        take_optional(optional(b) + rest) == Some((b, rest)),
{
    match b {
        Some(x) => {
            assert(optional(b) + rest =~= seq![1u8] + (lp(x) + rest));
            assert((optional(b) + rest).drop_first() =~= lp(x) + rest);
            lemma_lp(x, rest);
        },
        None => {
            assert((optional(b) + rest).drop_first() =~= rest);
        },
    }
}

proof fn lemma_metadata(m: EnvelopeMetadataView)
    requires
        metadata_bytes(m).len() <= u32::MAX,
    ensures
        parse_metadata(metadata_bytes(m)) == Some(m),
{
    let fr = match m.fragment_info {
        Some(f) => Some(fragment_block(f)),
        None => None,
    };
    let fe = match m.fec_info {
        Some(f) => Some(fec_block(f)),
        None => None,
    };
    let cr = match m.crypto_info {
        Some(c) => Some(crypto_block(c)),
        None => None,
    };
    let q = lp(encode_utf8(m.qos_class));
    let r5 = optional(cr) + q;
    let r4 = optional(fe) + r5;
    let r3 = optional(fr) + r4;
    let r2 = be64(m.sequence_number) + r3;
    lemma_str(m.source_node, r2);
    lemma_be64(m.sequence_number, r3);
    lemma_optional(fr, r4);
    lemma_optional(fe, r5);
    lemma_optional(cr, q);
    assert(q =~= q + Seq::<u8>::empty());
    lemma_str(m.qos_class, Seq::empty());
    if let Some(f) = m.fragment_info {
        lemma_fragment_block(f);
    }
    if let Some(f) = m.fec_info {
        lemma_fec_block(f);
    }
    if let Some(c) = m.crypto_info {
        lemma_crypto_block(c);
    }
}

proof fn lemma_fragment_block(f: FragmentInfo)
    ensures
        parse_fragment(fragment_block(f)) == Some(f),
{
    lemma_be32(f.fragment_id, be32(f.total_fragments) + (be64(f.fragment_offset) + id_bytes(f.correlation_key)));
    lemma_be32(f.total_fragments, be64(f.fragment_offset) + id_bytes(f.correlation_key));
    lemma_be64(f.fragment_offset, id_bytes(f.correlation_key));
    assert(id_bytes(f.correlation_key) =~= id_bytes(f.correlation_key) + Seq::<u8>::empty());
    lemma_id(f.correlation_key, Seq::empty());
}

proof fn lemma_fec_block(f: FecInfo)
    ensures
        parse_fec(fec_block(f)) == Some(f),
{
    lemma_be32(f.k, be32(f.m) + (be32(f.block_id) + be64(f.original_len)));
    lemma_be32(f.m, be32(f.block_id) + be64(f.original_len));
    lemma_be32(f.block_id, be64(f.original_len));
    assert(be64(f.original_len) =~= be64(f.original_len) + Seq::<u8>::empty());
    lemma_be64(f.original_len, Seq::empty());
}

proof fn lemma_crypto_block(c: CryptoInfoView)
    requires
        crypto_block(c).len() <= u32::MAX,
    ensures
        parse_crypto(crypto_block(c)) == Some(c),
{
    lemma_lp(c.signature, lp(encode_utf8(c.key_id)) + lp(c.nonce));
    lemma_str(c.key_id, lp(c.nonce));
    assert(lp(c.nonce) =~= lp(c.nonce) + Seq::<u8>::empty());
    lemma_lp(c.nonce, Seq::empty());
}

/// Wire round trip: the record of any envelope whose body fits a 4-byte
/// length parses back to that envelope, leaving what follows it.
pub proof fn lemma_record_round_trip(e: EnvelopeView, rest: Seq<u8>)
    requires
        fits_record(e),
    ensures
        parse_record(record_bytes(e) + rest) == Some((e, rest)),
{
    let body = body_bytes(e);
    lemma_lp(body, rest);
    let m = metadata_bytes(e.metadata);
    let t6 = m;
    let t5 = lp(e.payload) + t6;
    let t4 = lp(encode_utf8(e.topic)) + t5;
    let t3 = seq![priority_byte(e.priority)] + t4;
    let t2 = be32(e.schema_id) + t3;
    let t1 = be64(e.timestamp as u64) + t2;
    lemma_id(e.id, t1);
    lemma_be64(e.timestamp as u64, t2);
    lemma_be32(e.schema_id, t3);
    assert(t3.drop_first() =~= t4);
    lemma_str(e.topic, t5);
    lemma_lp(e.payload, t6);
    lemma_metadata(e.metadata);
    let ts = e.timestamp;
    assert(((ts as u64) as i64) == ts) by (bit_vector);
}

#[verifier::external_type_specification]
#[verifier::external_body]
pub struct ExFromUtf8Error(std::string::FromUtf8Error);

/// Relies on `String::from_utf8`: it accepts exactly the valid UTF-8 byte
/// sequences and keeps their characters.
#[verifier::external_body]
fn string_from_utf8(v: Vec<u8>) -> (r: Result<String, std::string::FromUtf8Error>)
    ensures
        r is Ok <==> valid_utf8(v@),
        r matches Ok(s) ==> s@ == decode_utf8(v@),
{
    String::from_utf8(v)
}

// ---- writing ----

fn put_be32(out: &mut Vec<u8>, x: u32)
    ensures
        final(out)@ == old(out)@ + be32(x),
{
    out.push(((x >> 24u32) & 0xff) as u8);
    out.push(((x >> 16u32) & 0xff) as u8);
    out.push(((x >> 8u32) & 0xff) as u8);
    out.push((x & 0xff) as u8);
    assert(out@ =~= old(out)@ + be32(x));
}

fn put_be64(out: &mut Vec<u8>, x: u64)
    ensures
        final(out)@ == old(out)@ + be64(x),
{
    let mut i: u64 = 0;
    while i < 8
        invariant
            i <= 8,
            out@ == old(out)@ + be64(x).subrange(0, i as int),
        decreases 8 - i,
    {
        out.push(((x >> (56 - 8 * i)) & 0xff) as u8);
        i = i + 1;
        assert(out@ =~= old(out)@ + be64(x).subrange(0, i as int));
    }
    assert(be64(x).subrange(0, 8) =~= be64(x));
}

fn put_id(out: &mut Vec<u8>, id: u128)
    ensures
        final(out)@ == old(out)@ + id_bytes(id),
{
    put_be64(out, (id >> 64u128) as u64);
    put_be64(out, id as u64);
    assert(out@ =~= old(out)@ + id_bytes(id));
}

fn put_lp(out: &mut Vec<u8>, b: &[u8])
    requires
        b@.len() <= u32::MAX,
    ensures
        final(out)@ == old(out)@ + lp(b@),
{
    put_be32(out, b.len() as u32);
    crate::bytes::append_bytes(out, b);
    assert(out@ =~= old(out)@ + lp(b@));
}

fn put_str(out: &mut Vec<u8>, s: &String) -> (ok: bool)
    ensures
        ok == (encode_utf8(s@).len() <= u32::MAX),
        ok ==> final(out)@ == old(out)@ + lp(encode_utf8(s@)),
        !ok ==> final(out)@ == old(out)@,
{
    let b = s.as_str().as_bytes();
    if b.len() > u32::MAX as usize {
        return false;
    }
    put_lp(out, b);
    true
}

fn fragment_out(f: &FragmentInfo) -> (r: Vec<u8>)
    ensures
        r@ == fragment_block(*f),
{
    let mut b: Vec<u8> = Vec::new();
    put_be32(&mut b, f.fragment_id);
    put_be32(&mut b, f.total_fragments);
    put_be64(&mut b, f.fragment_offset);
    put_id(&mut b, f.correlation_key);
    assert(b@ =~= fragment_block(*f));
    b
}

fn fec_out(f: &FecInfo) -> (r: Vec<u8>)
    ensures
        r@ == fec_block(*f),
{
    let mut b: Vec<u8> = Vec::new();
    put_be32(&mut b, f.k);
    put_be32(&mut b, f.m);
    put_be32(&mut b, f.block_id);
    put_be64(&mut b, f.original_len);
    assert(b@ =~= fec_block(*f));
    b
}

fn crypto_out(c: &CryptoInfo) -> (r: Option<Vec<u8>>)
    ensures
        r matches Some(b) ==> b@ == crypto_block(c@) && b@.len() <= u32::MAX,
        r is None ==> crypto_block(c@).len() > u32::MAX,
{
    if c.signature.len() > u32::MAX as usize || c.nonce.len() > u32::MAX as usize {
        return None;
    }
    let mut b: Vec<u8> = Vec::new();
    put_lp(&mut b, c.signature.as_slice());
    if !put_str(&mut b, &c.key_id) {
        return None;
    }
    put_lp(&mut b, c.nonce.as_slice());
    assert(b@ =~= crypto_block(c@));
    if b.len() > u32::MAX as usize {
        return None;
    }
    Some(b)
}

fn put_optional(out: &mut Vec<u8>, b: &Option<Vec<u8>>)
    requires
        b matches Some(x) ==> x@.len() <= u32::MAX,
    ensures
        final(out)@ == old(out)@ + optional(
            match b {
                Some(x) => Some(x@),
                None => None,
            },
        ),
{
    match b {
        Some(x) => {
            out.push(1u8);
            put_lp(out, x.as_slice());
        },
        None => out.push(0u8),
    }
    assert(out@ =~= old(out)@ + optional(
        match b {
            Some(x) => Some(x@),
            None => None,
        },
    ));
}

/// The bytes of a metadata block, or `None` where a part exceeds a 4-byte
/// length.
#[verifier::rlimit(80)]
fn metadata_out(m: &EnvelopeMetadata) -> (r: Option<Vec<u8>>)
    ensures
        r matches Some(b) ==> b@ == metadata_bytes(m@),
        r is None ==> metadata_bytes(m@).len() > u32::MAX,
{
    let fr = match &m.fragment_info {
        Some(f) => Some(fragment_out(f)),
        None => None,
    };
    let fe = match &m.fec_info {
        Some(f) => Some(fec_out(f)),
        None => None,
    };
    let cr = match &m.crypto_info {
        Some(c) => match crypto_out(c) {
            Some(b) => Some(b),
            None => return None,
        },
        None => None,
    };
    let mut out: Vec<u8> = Vec::new();
    if !put_str(&mut out, &m.source_node) {
        return None;
    }
    put_be64(&mut out, m.sequence_number);
    put_optional(&mut out, &fr);
    put_optional(&mut out, &fe);
    put_optional(&mut out, &cr);
    if !put_str(&mut out, &m.qos_class) {
        return None;
    }
    proof {
        let f1 = match fr {
            Some(x) => Some(x@),
            None => None,
        };
        let f2 = match fe {
            Some(x) => Some(x@),
            None => None,
        };
        let f3 = match cr {
            Some(x) => Some(x@),
            None => None,
        };
        assert(f1 == match m@.fragment_info {
            Some(f) => Some(fragment_block(f)),
            None => None::<Seq<u8>>,
        });
        assert(f2 == match m@.fec_info {
            Some(f) => Some(fec_block(f)),
            None => None::<Seq<u8>>,
        });
        assert(f3 == match m@.crypto_info {
            Some(c) => Some(crypto_block(c)),
            None => None::<Seq<u8>>,
        });
    }
    assert(out@ =~= metadata_bytes(m@));
    Some(out)
}

/// Serialises `e` as a length-prefixed record; an envelope whose body does
/// not fit a 4-byte length is a `Serialization` error.
pub fn encode_record(e: &Envelope) -> (r: crate::error::AriaResult<Vec<u8>>)
    ensures
        fits_record(e@) ==> (r matches Ok(b) && b@ == record_bytes(e@)),
        !fits_record(e@) ==> (r matches Err(x) && x is Serialization),
{
    let mut body: Vec<u8> = Vec::new();
    put_id(&mut body, e.id);
    put_be64(&mut body, e.timestamp as u64);
    put_be32(&mut body, e.schema_id);
    let p: u8 = match e.priority {
        Priority::P0 => 0,
        Priority::P1 => 1,
        Priority::P2 => 2,
        Priority::P3 => 3,
    };
    body.push(p);
    if !put_str(&mut body, &e.topic) || e.payload.len() > u32::MAX as usize {
        return Err(crate::error::AriaError::Serialization("field too long".to_string()));
    }
    put_lp(&mut body, e.payload.as_slice());
    let m = match metadata_out(&e.metadata) {
        Some(m) => m,
        None => return Err(crate::error::AriaError::Serialization("field too long".to_string())),
    };
    crate::bytes::append_bytes(&mut body, m.as_slice());
    assert(body@ =~= body_bytes(e@));
    if body.len() > u32::MAX as usize {
        return Err(crate::error::AriaError::Serialization("record too long".to_string()));
    }
    let mut out: Vec<u8> = Vec::new();
    put_lp(&mut out, body.as_slice());
    assert(out@ =~= record_bytes(e@));
    Ok(out)
}

// ---- reading: each step takes a field off `buf` at `pos` ----

pub open spec fn at(buf: Seq<u8>, pos: int) -> Seq<u8> {
    buf.subrange(pos, buf.len() as int)
}

fn get_u8(buf: &[u8], pos: usize) -> (r: Option<(u8, usize)>)
    requires
        pos <= buf@.len(),
    ensures
        match take_u8(at(buf@, pos as int)) {
            None => r is None,
            Some((v, t)) => r matches Some((x, np)) && x == v && np <= buf@.len() && at(buf@, np as int)
                == t,
        },
{
    if pos < buf.len() {
        assert(at(buf@, pos + 1) =~= at(buf@, pos as int).drop_first());
        Some((buf[pos], pos + 1))
    } else {
        None
    }
}

fn get_be32(buf: &[u8], pos: usize) -> (r: Option<(u32, usize)>)
    requires
        pos <= buf@.len(),
    ensures
        match take_be32(at(buf@, pos as int)) {
            None => r is None,
            Some((v, t)) => r matches Some((x, np)) && x == v && np <= buf@.len() && at(buf@, np as int)
                == t,
        },
{
    if buf.len() - pos < 4 {
        return None;
    }
    let ghost s = at(buf@, pos as int);
    let x: u32 = ((buf[pos] as u32) << 24u32) | ((buf[pos + 1] as u32) << 16u32) | ((buf[pos + 2] as u32)
        << 8u32) | (buf[pos + 3] as u32);
    assert(s.subrange(0, 4)[0] == buf@[pos as int] && s.subrange(0, 4)[1] == buf@[pos + 1]
        && s.subrange(0, 4)[2] == buf@[pos + 2] && s.subrange(0, 4)[3] == buf@[pos + 3]);
    assert(at(buf@, pos + 4) =~= s.subrange(4, s.len() as int));
    Some((x, pos + 4))
}

fn get_be64(buf: &[u8], pos: usize) -> (r: Option<(u64, usize)>)
    requires
        pos <= buf@.len(),
    ensures
        match take_be64(at(buf@, pos as int)) {
            None => r is None,
            Some((v, t)) => r matches Some((x, np)) && x == v && np <= buf@.len() && at(buf@, np as int)
                == t,
        },
{
    if buf.len() - pos < 8 {
        return None;
    }
    let ghost s = at(buf@, pos as int);
    let ghost h = s.subrange(0, 8);
    assert(forall|i: int| 0 <= i < 8 ==> h[i] == buf@[pos + i]);
    let x: u64 = ((buf[pos] as u64) << 56u64) | ((buf[pos + 1] as u64) << 48u64) | ((buf[pos + 2] as u64)
        << 40u64) | ((buf[pos + 3] as u64) << 32u64) | ((buf[pos + 4] as u64) << 24u64) | ((buf[pos
        + 5] as u64) << 16u64) | ((buf[pos + 6] as u64) << 8u64) | (buf[pos + 7] as u64);
    assert(h[0] == buf@[pos as int]);
    assert(at(buf@, pos + 8) =~= s.subrange(8, s.len() as int));
    Some((x, pos + 8))
}

fn get_id(buf: &[u8], pos: usize) -> (r: Option<(u128, usize)>)
    requires
        pos <= buf@.len(),
    ensures
        match take_id(at(buf@, pos as int)) {
            None => r is None,
            Some((v, t)) => r matches Some((x, np)) && x == v && np <= buf@.len() && at(buf@, np as int)
                == t,
        },
{
    let (hi, at1) = match get_be64(buf, pos) {
        Some(v) => v,
        None => return None,
    };
    let (lo, at2) = match get_be64(buf, at1) {
        Some(v) => v,
        None => return None,
    };
    Some((((hi as u128) << 64u128) | (lo as u128), at2))
}

fn get_lp(buf: &[u8], pos: usize) -> (r: Option<(Vec<u8>, usize)>)
    requires
        pos <= buf@.len(),
    ensures
        match take_lp(at(buf@, pos as int)) {
            None => r is None,
            Some((v, t)) => r matches Some((x, np)) && x@ == v && np <= buf@.len() && at(buf@, np as int)
                == t,
        },
{
    let (n, at1) = match get_be32(buf, pos) {
        Some(v) => v,
        None => return None,
    };
    if ((buf.len() - at1) as u64) < (n as u64) {
        return None;
    }
    let end = at1 + n as usize;
    let ghost s = at(buf@, at1 as int);
    assert(s.subrange(0, n as int) =~= buf@.subrange(at1 as int, end as int));
    assert(at(buf@, end as int) =~= s.subrange(n as int, s.len() as int));
    Some((crate::bytes::copy_range(buf, at1, end), end))
}

fn get_str(buf: &[u8], pos: usize) -> (r: Option<(String, usize)>)
    requires
        pos <= buf@.len(),
    ensures
        match take_str(at(buf@, pos as int)) {
            None => r is None,
            Some((v, t)) => r matches Some((x, np)) && x@ == v && np <= buf@.len() && at(buf@, np as int)
                == t,
        },
{
    let (b, at1) = match get_lp(buf, pos) {
        Some(v) => v,
        None => return None,
    };
    match string_from_utf8(b) {
        Ok(s) => Some((s, at1)),
        Err(_) => None,
    }
}

fn get_optional(buf: &[u8], pos: usize) -> (r: Option<(Option<Vec<u8>>, usize)>)
    requires
        pos <= buf@.len(),
    ensures
        match take_optional(at(buf@, pos as int)) {
            None => r is None,
            Some((v, t)) => r matches Some((x, np)) && (match x {
                Some(b) => v == Some(b@),
                None => v is None,
            }) && np <= buf@.len() && at(buf@, np as int) == t,
        },
{
    let (flag, at1) = match get_u8(buf, pos) {
        Some(v) => v,
        None => return None,
    };
    if flag == 0 {
        Some((None, at1))
    } else if flag == 1 {
        match get_lp(buf, at1) {
            Some((b, at2)) => Some((Some(b), at2)),
            None => None,
        }
    } else {
        None
    }
}

fn fragment_in(b: &[u8]) -> (r: Option<FragmentInfo>)
    ensures
        r == parse_fragment(b@),
{
    assert(at(b@, 0) =~= b@);
    let (fragment_id, at1) = get_be32(b, 0)?;
    let (total_fragments, at2) = get_be32(b, at1)?;
    let (fragment_offset, at3) = get_be64(b, at2)?;
    let (correlation_key, at4) = get_id(b, at3)?;
    if at4 != b.len() {
        return None;
    }
    Some(FragmentInfo { fragment_id, total_fragments, fragment_offset, correlation_key })
}

fn fec_in(b: &[u8]) -> (r: Option<FecInfo>)
    ensures
        r == parse_fec(b@),
{
    assert(at(b@, 0) =~= b@);
    let (k, at1) = get_be32(b, 0)?;
    let (m, at2) = get_be32(b, at1)?;
    let (block_id, at3) = get_be32(b, at2)?;
    let (original_len, at4) = get_be64(b, at3)?;
    if at4 != b.len() {
        return None;
    }
    Some(FecInfo { k, m, block_id, original_len })
}

fn crypto_in(b: &[u8]) -> (r: Option<CryptoInfo>)
    ensures
        match parse_crypto(b@) {
            Some(c) => r matches Some(x) && x@ == c,
            None => r is None,
        },
{
    assert(at(b@, 0) =~= b@);
    let (signature, at1) = get_lp(b, 0)?;
    let (key_id, at2) = get_str(b, at1)?;
    let (nonce, at3) = get_lp(b, at2)?;
    if at3 != b.len() {
        return None;
    }
    Some(CryptoInfo { signature, key_id, nonce })
}

fn metadata_in(b: &[u8]) -> (r: Option<EnvelopeMetadata>)
    ensures
        match parse_metadata(b@) {
            Some(m) => r matches Some(x) && x@ == m,
            None => r is None,
        },
{
    assert(at(b@, 0) =~= b@);
    let (source_node, at1) = get_str(b, 0)?;
    let (sequence_number, at2) = get_be64(b, at1)?;
    let (fr, at3) = get_optional(b, at2)?;
    let (fe, at4) = get_optional(b, at3)?;
    let (cr, at5) = get_optional(b, at4)?;
    let (qos_class, at6) = get_str(b, at5)?;
    if at6 != b.len() {
        return None;
    }
    let fragment_info = match &fr {
        Some(x) => Some(fragment_in(x.as_slice())?),
        None => None,
    };
    let fec_info = match &fe {
        Some(x) => Some(fec_in(x.as_slice())?),
        None => None,
    };
    let crypto_info = match &cr {
        Some(x) => Some(crypto_in(x.as_slice())?),
        None => None,
    };
    Some(EnvelopeMetadata { source_node, sequence_number, fragment_info, fec_info, crypto_info, qos_class })
}

/// Reads one record from the front of `buf`: the envelope and the number of
/// bytes it took. Bytes that are not a record are `CodecMalformed`.
pub fn decode_record(buf: &[u8]) -> (r: crate::error::AriaResult<(Envelope, usize)>)
    ensures
        match parse_record(buf@) {
            Some((e, rest)) => r matches Ok((x, n)) && x@ == e && n <= buf@.len() && at(buf@, n as int)
                == rest,
            None => r matches Err(x) && x is CodecMalformed,
        },
{
    assert(at(buf@, 0) =~= buf@);
    let (body, end) = match get_lp(buf, 0) {
        Some(v) => v,
        None => return Err(crate::error::AriaError::CodecMalformed),
    };
    match envelope_in(body.as_slice()) {
        Some(e) => Ok((e, end)),
        None => Err(crate::error::AriaError::CodecMalformed),
    }
}

fn envelope_in(b: &[u8]) -> (r: Option<Envelope>)
    ensures
        match parse_body(b@) {
            Some(e) => r matches Some(x) && x@ == e,
            None => r is None,
        },
{
    assert(at(b@, 0) =~= b@);
    let (id, at1) = get_id(b, 0)?;
    let (ts, at2) = get_be64(b, at1)?;
    let (schema_id, at3) = get_be32(b, at2)?;
    let (pb, at4) = get_u8(b, at3)?;
    let (topic, at5) = get_str(b, at4)?;
    let (payload, at6) = get_lp(b, at5)?;
    let priority = if pb == 0 {
        Priority::P0
    } else if pb == 1 {
        Priority::P1
    } else if pb == 2 {
        Priority::P2
    } else if pb == 3 {
        Priority::P3
    } else {
        return None;
    };
    let rest = crate::bytes::copy_range(b, at6, b.len());
    assert(rest@ == at(b@, at6 as int));
    let metadata = metadata_in(rest.as_slice())?;
    Some(Envelope { id, timestamp: ts as i64, schema_id, priority, topic, payload, metadata })
}

} // verus!
