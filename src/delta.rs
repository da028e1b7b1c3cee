//! Sequential frame differencing.

use vstd::prelude::*;
use crate::error::{AriaError, AriaResult};

verus! {

/// XOR of `cur` with `reference`, the reference padded with zeros; the
/// result is as long as `cur`.
pub open spec fn xor_with(cur: Seq<u8>, reference: Seq<u8>) -> Seq<u8> {
    Seq::new(
        cur.len(),
        |i: int|
            cur[i] ^ if i < reference.len() {
                reference[i]
            } else {
                0u8
            },
    )
}

/// What a frame is coded as against an optional reference: verbatim where
/// there is none, else its XOR with the reference.
pub open spec fn delta_of(cur: Seq<u8>, reference: Option<Seq<u8>>) -> Seq<u8> {
    match reference {
        Some(p) => xor_with(cur, p),
        None => cur,
    }
}

/// The reference used: the one passed in, else the codec's own last frame.
pub open spec fn chosen_reference(passed: Option<&[u8]>, own: Option<Seq<u8>>) -> Option<Seq<u8>> {
    match passed {
        Some(p) => Some(p@),
        None => own,
    }
}

/// Encodes and decodes frames as differences from a reference frame.
pub trait IDeltaCodec {
    /// The last frame this codec handled, if any.
    spec fn last_frame(&self) -> Option<Seq<u8>>;

    /// Codes `current` against `previous`, or against the last frame where
    /// `previous` is `None`; `current` becomes the last frame.
    fn encode(&mut self, current: &[u8], previous: Option<&[u8]>) -> (r: AriaResult<Vec<u8>>)
        ensures
            r matches Ok(d) && d@ == delta_of(current@, chosen_reference(previous, old(self).last_frame())),
            final(self).last_frame() == Some(current@),
    ;

    /// Rebuilds a frame from `delta` against `previous`, or against the last
    /// frame where `previous` is `None`; the result becomes the last frame.
    fn decode(&mut self, delta: &[u8], previous: Option<&[u8]>) -> (r: AriaResult<Vec<u8>>)
        ensures
            r matches Ok(d) && d@ == delta_of(delta@, chosen_reference(previous, old(self).last_frame()))
                && final(self).last_frame() == Some(d@),
    ;
}

/// Delta codec that XORs each frame with the one before it. `encode` and
/// `decode` carry no flag: the first frame of a stream goes verbatim, and
/// the receiver knows it as the first. `encode_flagged` and
/// `decode_flagged` mark each frame as full or delta in a leading byte.
pub struct SimpleDeltaCodec {
    previous: Option<Vec<u8>>,
}

impl SimpleDeltaCodec {
    pub fn new() -> (r: Self)
        ensures
            r.last_frame() is None,
    {
        SimpleDeltaCodec { previous: None }
    }

    /// Codes `current` against the last frame and prefixes a flag byte:
    /// `FULL_FRAME` where there was none (the frame goes verbatim),
    /// `DELTA_FRAME` otherwise. `current` becomes the last frame.
    pub fn encode_flagged(&mut self, current: &[u8]) -> (r: Vec<u8>)
        ensures
            r@ == seq![
                if old(self).last_frame() is None {
                    FULL_FRAME
                } else {
                    DELTA_FRAME
                },
            ] + delta_of(current@, old(self).last_frame()),
            final(self).last_frame() == Some(current@),
    {
        let flag = if self.previous.is_none() {
            FULL_FRAME
        } else {
            DELTA_FRAME
        };
        let body = code_against(current, None, &self.previous);
        self.previous = Some(vstd::slice::slice_to_vec(current));
        let mut out: Vec<u8> = Vec::new();
        out.push(flag);
        crate::bytes::append_bytes(&mut out, body.as_slice());
        out
    }

    /// Reads a flagged frame: a full frame is taken verbatim and resets the
    /// reference; a delta frame is decoded against the last frame. An empty
    /// input, an unknown flag, or a delta frame with no reference is
    /// `CodecMalformed`, and the codec is left as it was.
    pub fn decode_flagged(&mut self, frame: &[u8]) -> (r: AriaResult<Vec<u8>>)
        ensures
            frame@.len() == 0 ==> (r matches Err(e) && e is CodecMalformed),
            frame@.len() > 0 ==> {
                let body = frame@.drop_first();
                if frame@[0] == FULL_FRAME {
                    r matches Ok(v) && v@ == body
                } else if frame@[0] == DELTA_FRAME && old(self).last_frame() is Some {
                    r matches Ok(v) && v@ == delta_of(body, old(self).last_frame())
                } else {
                    r matches Err(e) && e is CodecMalformed
                }
            },
            r matches Ok(v) ==> final(self).last_frame() == Some(v@),
            r is Err ==> final(self).last_frame() == old(self).last_frame(),
    {
        if frame.len() == 0 {
            return Err(AriaError::CodecMalformed);
        }
        let body = &frame[1..frame.len()];
        assert(body@ =~= frame@.drop_first());
        if frame[0] == FULL_FRAME {
            let v = vstd::slice::slice_to_vec(body);
            self.previous = Some(vstd::slice::slice_to_vec(body));
            Ok(v)
        } else if frame[0] == DELTA_FRAME && self.previous.is_some() {
            let v = code_against(body, None, &self.previous);
            self.previous = Some(v.clone());
            Ok(v)
        } else {
            Err(AriaError::CodecMalformed)
        }
    }
}

pub open spec fn frames_view(v: Seq<Vec<u8>>) -> Seq<Seq<u8>> {
    v.map_values(|f: Vec<u8>| f@)
}

impl SimpleDeltaCodec {
    /// Encodes `frames` in turn against the running reference; the result
    /// is `encode_stream` of them.
    pub fn encode_frames(&mut self, frames: &Vec<Vec<u8>>) -> (r: Vec<Vec<u8>>)
        ensures
            frames_view(r@) == encode_stream(old(self).last_frame(), frames_view(frames@)),
    {
        let ghost fs = frames_view(frames@);
        let ghost n = fs.len() as int;
        let mut out: Vec<Vec<u8>> = Vec::new();
        let mut i: usize = 0;
        assert(fs.subrange(0, n) =~= fs);
        while i < frames.len()
            invariant
                fs == frames_view(frames@),
                n == fs.len(),
                i <= n,
                frames_view(out@) + encode_stream(self.last_frame(), fs.subrange(i as int, n))
                    == encode_stream(old(self).last_frame(), fs),
            decreases n - i,
        {
            let ghost before = frames_view(out@);
            let ghost tail = fs.subrange(i as int, n);
            let ghost last = self.last_frame();
            assert(tail.drop_first() =~= fs.subrange(i + 1, n));
            assert(tail[0] == frames@[i as int]@);
            let d = match self.encode(frames[i].as_slice(), None) {
                Ok(d) => d,
                Err(_) => Vec::new(),
            };
            let ghost dv = d@;
            out.push(d);
            assert(frames_view(out@) =~= before.push(dv));
            assert(encode_stream(last, tail) == seq![dv] + encode_stream(self.last_frame(), fs.subrange(i + 1, n)));
            assert(before + (seq![dv] + encode_stream(self.last_frame(), fs.subrange(i + 1, n))) =~= before.push(dv)
                + encode_stream(self.last_frame(), fs.subrange(i + 1, n)));
            i = i + 1;
        }
        assert(fs.subrange(n, n) =~= Seq::<Seq<u8>>::empty());
        assert(frames_view(out@) + Seq::<Seq<u8>>::empty() =~= frames_view(out@));
        out
    }
}

impl SimpleDeltaCodec {
    /// Decodes `deltas` in turn against the running reference; the result
    /// is `decode_stream` of them.
    pub fn decode_frames(&mut self, deltas: &Vec<Vec<u8>>) -> (r: Vec<Vec<u8>>)
        ensures
            frames_view(r@) == decode_stream(old(self).last_frame(), frames_view(deltas@)),
    {
        let ghost ds = frames_view(deltas@);
        let ghost n = ds.len() as int;
        let mut out: Vec<Vec<u8>> = Vec::new();
        let mut i: usize = 0;
        assert(ds.subrange(0, n) =~= ds);
        while i < deltas.len()
            invariant
                ds == frames_view(deltas@),
                n == ds.len(),
                i <= n,
                frames_view(out@) + decode_stream(self.last_frame(), ds.subrange(i as int, n))
                    == decode_stream(old(self).last_frame(), ds),
            decreases n - i,
        {
            let ghost before = frames_view(out@);
            let ghost tail = ds.subrange(i as int, n);
            let ghost last = self.last_frame();
            assert(tail.drop_first() =~= ds.subrange(i + 1, n));
            assert(tail[0] == deltas@[i as int]@);
            let f = match self.decode(deltas[i].as_slice(), None) {
                Ok(f) => f,
                Err(_) => Vec::new(),
            };
            let ghost fv = f@;
            out.push(f);
            assert(frames_view(out@) =~= before.push(fv));
            assert(decode_stream(last, tail) == seq![fv] + decode_stream(self.last_frame(), ds.subrange(i + 1, n)));
            assert(before + (seq![fv] + decode_stream(self.last_frame(), ds.subrange(i + 1, n))) =~= before.push(fv)
                + decode_stream(self.last_frame(), ds.subrange(i + 1, n)));
            i = i + 1;
        }
        assert(ds.subrange(n, n) =~= Seq::<Seq<u8>>::empty());
        assert(frames_view(out@) + Seq::<Seq<u8>>::empty() =~= frames_view(out@));
        out
    }
}

/// Flag byte of a frame sent verbatim.
pub const FULL_FRAME: u8 = 1;

/// Flag byte of a frame sent as a difference from the last one.
pub const DELTA_FRAME: u8 = 0;

fn xor_bytes(cur: &[u8], reference: &[u8]) -> (r: Vec<u8>)
    ensures
        r@ == xor_with(cur@, reference@),
{
    let mut out: Vec<u8> = Vec::new();
    let mut i: usize = 0;
    while i < cur.len()
        invariant
            i <= cur@.len(),
            out@ == xor_with(cur@, reference@).subrange(0, i as int),
        decreases cur@.len() - i,
    {
        let p: u8 = if i < reference.len() {
            reference[i]
        } else {
            0
        };
        out.push(cur[i] ^ p);
        i = i + 1;
        assert(out@ =~= xor_with(cur@, reference@).subrange(0, i as int));
    }
    assert(out@ =~= xor_with(cur@, reference@));
    out
}

fn code_against(data: &[u8], passed: Option<&[u8]>, own: &Option<Vec<u8>>) -> (r: Vec<u8>)
    ensures
        r@ == delta_of(
            data@,
            chosen_reference(
                passed,
                match own {
                    Some(v) => Some(v@),
                    None => None,
                },
            ),
        ),
{
    match passed {
        Some(p) => xor_bytes(data, p),
        None => match own {
            Some(v) => xor_bytes(data, v.as_slice()),
            None => vstd::slice::slice_to_vec(data),
        },
    }
}

impl IDeltaCodec for SimpleDeltaCodec {
    closed spec fn last_frame(&self) -> Option<Seq<u8>> {
        match self.previous {
            Some(v) => Some(v@),
            None => None,
        }
    }

    fn encode(&mut self, current: &[u8], previous: Option<&[u8]>) -> (r: AriaResult<Vec<u8>>) {
        let out = code_against(current, previous, &self.previous);
        self.previous = Some(vstd::slice::slice_to_vec(current));
        Ok(out)
    }

    fn decode(&mut self, delta: &[u8], previous: Option<&[u8]>) -> (r: AriaResult<Vec<u8>>) {
        let out = code_against(delta, previous, &self.previous);
        self.previous = Some(out.clone());
        Ok(out)
    }
}

/// What an encoder emits for `frames` in turn, starting from `reference`.
pub open spec fn encode_stream(reference: Option<Seq<u8>>, frames: Seq<Seq<u8>>) -> Seq<Seq<u8>>
    decreases frames.len(),
{
    if frames.len() == 0 {
        Seq::empty()
    } else {
        seq![delta_of(frames[0], reference)] + encode_stream(Some(frames[0]), frames.drop_first())
    }
}

/// What a decoder yields for `deltas` in turn, starting from `reference`.
pub open spec fn decode_stream(reference: Option<Seq<u8>>, deltas: Seq<Seq<u8>>) -> Seq<Seq<u8>>
    decreases deltas.len(),
{
    if deltas.len() == 0 {
        Seq::empty()
    } else {
        let d = delta_of(deltas[0], reference);
        seq![d] + decode_stream(Some(d), deltas.drop_first())
    }
}

proof fn lemma_xor_twice(a: u8, b: u8)
    ensures
        (a ^ b) ^ b == a,
{
    assert((a ^ b) ^ b == a) by (bit_vector);
}

/// Decoding a frame's delta against the same reference gives the frame back.
pub proof fn lemma_delta_round_trip(cur: Seq<u8>, reference: Option<Seq<u8>>)
    ensures
        delta_of(delta_of(cur, reference), reference) == cur,
{
    if let Some(p) = reference {
        let d = xor_with(cur, p);
        assert forall|i: int| 0 <= i < cur.len() implies #[trigger] xor_with(d, p)[i] == cur[i] by {
            let q: u8 = if i < p.len() {
                p[i]
            } else {
                0u8
            };
            lemma_xor_twice(cur[i], q);
        }
        assert(xor_with(d, p) =~= cur);
    }
}

/// Feeding an encoder's outputs, in order, to a decoder that starts from the
/// same reference (a fresh one: none) yields the original frames.
pub proof fn lemma_delta_stream_round_trip(reference: Option<Seq<u8>>, frames: Seq<Seq<u8>>)
    ensures
        decode_stream(reference, encode_stream(reference, frames)) == frames,
    decreases frames.len(),
{
    if frames.len() > 0 {
        let enc = encode_stream(reference, frames);
        lemma_delta_round_trip(frames[0], reference);
        assert(enc[0] == delta_of(frames[0], reference));
        assert(enc.drop_first() =~= encode_stream(Some(frames[0]), frames.drop_first()));
        lemma_delta_stream_round_trip(Some(frames[0]), frames.drop_first());
        assert(decode_stream(reference, enc) =~= seq![frames[0]] + frames.drop_first());
        assert(seq![frames[0]] + frames.drop_first() =~= frames);
    }
}

} // verus!
