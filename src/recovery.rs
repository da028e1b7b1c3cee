//! Recovery: residual integrity checks and loss accounting.

use vstd::prelude::*;
use crate::codec::SchemaRegistry;
use crate::envelope::{Envelope, EnvelopeMetadataView};
use crate::error::AriaResult;

verus! {

/// The metadata slots that are present hold consistent values: a fragment
/// id below a non-zero total, FEC parameters the code accepts, a 64-byte
/// signature and a 12-byte nonce.
pub open spec fn metadata_consistent(m: EnvelopeMetadataView) -> bool {
    &&& (m.fragment_info matches Some(f) ==> 0 < f.total_fragments && f.fragment_id < f.total_fragments)
    &&& (m.fec_info matches Some(f) ==> 1 <= f.k && 1 <= f.m && f.k + f.m <= 256)
    &&& (m.crypto_info matches Some(c) ==> c.signature.len() == 64 && c.nonce.len() == 12)
}

/// Tracks the sequence expected next and counts the ones that never came.
pub struct RecoveryManager {
    lost_packets: usize,
    gaps: Vec<(u64, u64)>,
    expected: u64,
}

impl RecoveryManager {
    pub closed spec fn lost(&self) -> nat {
        self.lost_packets as nat
    }

    /// Recorded gaps, each `[start, end)`.
    pub closed spec fn gap_log(&self) -> Seq<(u64, u64)> {
        self.gaps@
    }

    pub closed spec fn expected_seq(&self) -> u64 {
        self.expected
    }

    pub fn new() -> (r: Self)
        ensures
            r.lost() == 0,
            r.gap_log() == Seq::<(u64, u64)>::empty(),
            r.expected_seq() == 0,
    {
        RecoveryManager { lost_packets: 0, gaps: Vec::new(), expected: 0 }
    }

    /// Whether the envelope's metadata is consistent.
    pub fn check_integrity(&self, envelope: &Envelope) -> (r: AriaResult<bool>)
        ensures
            r == Ok::<bool, crate::error::AriaError>(metadata_consistent(envelope@.metadata)),
    {
        let m = &envelope.metadata;
        let frag_ok = match &m.fragment_info {
            Some(f) => 0 < f.total_fragments && f.fragment_id < f.total_fragments,
            None => true,
        };
        let fec_ok = match &m.fec_info {
            Some(f) => 1 <= f.k && 1 <= f.m && f.k <= 256 && f.m <= 256 && f.k + f.m <= 256,
            None => true,
        };
        let crypto_ok = match &m.crypto_info {
            Some(c) => c.signature.len() == 64 && c.nonce.len() == 12,
            None => true,
        };
        Ok(frag_ok && fec_ok && crypto_ok)
    }

    /// Whether the envelope's schema is registered and its metadata is
    /// consistent.
    pub fn check_envelope(&self, envelope: &Envelope, registry: &SchemaRegistry) -> (r: bool)
        ensures
            r == (registry.names().contains_key(envelope@.schema_id) && metadata_consistent(
                envelope@.metadata,
            )),
    {
        let known = registry.contains(envelope.schema_id);
        match self.check_integrity(envelope) {
            Ok(consistent) => known && consistent,
            Err(_) => false,
        }
    }

    /// Records the sequences `[expected_seq, received_seq)` as lost (none
    /// where `received_seq <= expected_seq`). The count saturates. No
    /// placeholder envelopes are produced.
    pub fn conceal_loss(&mut self, expected_seq: u64, received_seq: u64) -> (r: Vec<Envelope>)
        ensures
            r@.len() == 0,
            final(self).expected_seq() == old(self).expected_seq(),
            received_seq > expected_seq ==> {
                &&& final(self).gap_log() == old(self).gap_log().push((expected_seq, received_seq))
                &&& final(self).lost() == if old(self).lost() + (received_seq - expected_seq) <= usize::MAX {
                    old(self).lost() + (received_seq - expected_seq)
                } else {
                    usize::MAX as int
                }
            },
            received_seq <= expected_seq ==> final(self).lost() == old(self).lost()
                && final(self).gap_log() == old(self).gap_log(),
    {
        if received_seq > expected_seq {
            let gap: u64 = received_seq - expected_seq;
            let room: usize = usize::MAX - self.lost_packets;
            if (gap as u128) <= (room as u128) {
                self.lost_packets = self.lost_packets + gap as usize;
            } else {
                self.lost_packets = usize::MAX;
            }
            self.gaps.push((expected_seq, received_seq));
        }
        Vec::new()
    }

    /// Notes the arrival of `seq`: a jump past the expected sequence is
    /// recorded as a gap; the expected sequence moves past `seq`.
    pub fn observe(&mut self, seq: u64) -> (r: Vec<Envelope>)
        ensures
            r@.len() == 0,
            seq > old(self).expected_seq() ==> final(self).gap_log() == old(self).gap_log().push(
                (old(self).expected_seq(), seq),
            ),
            seq <= old(self).expected_seq() ==> final(self).gap_log() == old(self).gap_log()
                && final(self).lost() == old(self).lost(),
            final(self).expected_seq() == if seq >= old(self).expected_seq() {
                if seq == u64::MAX {
                    u64::MAX
                } else {
                    (seq + 1) as u64
                }
            } else {
                old(self).expected_seq()
            },
    {
        let expected = self.expected;
        let out = self.conceal_loss(expected, seq);
        if seq >= expected {
            self.expected = if seq == u64::MAX {
                u64::MAX
            } else {
                seq + 1
            };
        }
        out
    }

    pub fn get_lost_count(&self) -> (r: usize)
        ensures
            r == self.lost(),
    {
        self.lost_packets
    }
}

} // verus!
