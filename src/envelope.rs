//! The envelope: the pipeline's unit of transit, and its metadata.

use vstd::prelude::*;

verus! {

/// Priority class; `P0` is the highest.
#[derive(Debug, Clone, Copy, PartialEq, Eq, Structural, PartialOrd, Ord, Hash)]
pub enum Priority {
    P0,
    P1,
    P2,
    P3,
}

impl Priority {
    /// Rank of the class: 0 for `P0` up to 3 for `P3`.
    pub open spec fn rank(self) -> nat {
        match self {
            Priority::P0 => 0,
            Priority::P1 => 1,
            Priority::P2 => 2,
            Priority::P3 => 3,
        }
    }
}

/// Placement of one fragment within its origin envelope.
#[derive(Debug, Clone, Copy, PartialEq, Eq, Structural)]
pub struct FragmentInfo {
    pub fragment_id: u32,
    pub total_fragments: u32,
    /// Byte offset of this fragment's payload in the origin payload.
    pub fragment_offset: u64,
    /// Id of the origin envelope, shared by all its fragments.
    pub correlation_key: u128,
}

/// Parameters of the FEC block that a shard belongs to.
#[derive(Debug, Clone, Copy, PartialEq, Eq, Structural)]
pub struct FecInfo {
    /// Number of data shards.
    pub k: u32,
    /// Number of parity shards.
    pub m: u32,
    pub block_id: u32,
    /// Length of the block's data before padding.
    pub original_len: u64,
}

#[derive(Debug, Clone)]
pub struct CryptoInfo {
    pub signature: Vec<u8>,
    pub key_id: String,
    pub nonce: Vec<u8>,
}

pub struct CryptoInfoView {
    pub signature: Seq<u8>,
    pub key_id: Seq<char>,
    pub nonce: Seq<u8>,
}

impl View for CryptoInfo {
    type V = CryptoInfoView;

    open spec fn view(&self) -> CryptoInfoView {
        CryptoInfoView { signature: self.signature@, key_id: self.key_id@, nonce: self.nonce@ }
    }
}

impl CryptoInfo {
    pub fn duplicate(&self) -> (r: CryptoInfo)
        ensures
            r@ == self@,
    {
        CryptoInfo {
            signature: self.signature.clone(),
            key_id: self.key_id.clone(),
            nonce: self.nonce.clone(),
        }
    }
}

#[derive(Debug, Clone)]
pub struct EnvelopeMetadata {
    pub source_node: String,
    /// Monotonic per (source node, topic).
    pub sequence_number: u64,
    pub fragment_info: Option<FragmentInfo>,
    pub fec_info: Option<FecInfo>,
    pub crypto_info: Option<CryptoInfo>,
    pub qos_class: String,
}

pub struct EnvelopeMetadataView {
    pub source_node: Seq<char>,
    pub sequence_number: u64,
    pub fragment_info: Option<FragmentInfo>,
    pub fec_info: Option<FecInfo>,
    pub crypto_info: Option<CryptoInfoView>,
    pub qos_class: Seq<char>,
}

impl View for EnvelopeMetadata {
    type V = EnvelopeMetadataView;

    open spec fn view(&self) -> EnvelopeMetadataView {
        EnvelopeMetadataView {
            source_node: self.source_node@,
            sequence_number: self.sequence_number,
            fragment_info: self.fragment_info,
            fec_info: self.fec_info,
            crypto_info: match self.crypto_info {
                Some(c) => Some(c@),
                None => None,
            },
            qos_class: self.qos_class@,
        }
    }
}

impl EnvelopeMetadata {
    pub fn duplicate(&self) -> (r: EnvelopeMetadata)
        ensures
            r@ == self@,
    {
        let crypto_info = match &self.crypto_info {
            Some(c) => Some(c.duplicate()),
            None => None,
        };
        EnvelopeMetadata {
            source_node: self.source_node.clone(),
            sequence_number: self.sequence_number,
            fragment_info: self.fragment_info,
            fec_info: self.fec_info,
            crypto_info,
            qos_class: self.qos_class.clone(),
        }
    }
}

/// A message in transit.
#[derive(Debug, Clone)]
pub struct Envelope {
    /// 128-bit identifier.
    pub id: u128,
    /// Instant of origin, in microseconds since the Unix epoch.
    pub timestamp: i64,
    pub schema_id: u32,
    pub priority: Priority,
    pub topic: String,
    pub payload: Vec<u8>,
    pub metadata: EnvelopeMetadata,
}

pub struct EnvelopeView {
    pub id: u128,
    pub timestamp: i64,
    pub schema_id: u32,
    pub priority: Priority,
    pub topic: Seq<char>,
    pub payload: Seq<u8>,
    pub metadata: EnvelopeMetadataView,
}

impl View for Envelope {
    type V = EnvelopeView;

    open spec fn view(&self) -> EnvelopeView {
        EnvelopeView {
            id: self.id,
            timestamp: self.timestamp,
            schema_id: self.schema_id,
            priority: self.priority,
            topic: self.topic@,
            payload: self.payload@,
            metadata: self.metadata@,
        }
    }
}

impl Envelope {
    pub fn duplicate(&self) -> (r: Envelope)
        ensures
            r@ == self@,
    {
        Envelope {
            id: self.id,
            timestamp: self.timestamp,
            schema_id: self.schema_id,
            priority: self.priority,
            topic: self.topic.clone(),
            payload: self.payload.clone(),
            metadata: self.metadata.duplicate(),
        }
    }

    /// A copy of this envelope that carries `payload` in place of its own.
    pub fn with_payload(&self, payload: Vec<u8>) -> (r: Envelope)
        ensures
            r@ == (EnvelopeView { payload: payload@, ..self@ }),
    {
        Envelope {
            id: self.id,
            timestamp: self.timestamp,
            schema_id: self.schema_id,
            priority: self.priority,
            topic: self.topic.clone(),
            payload,
            metadata: self.metadata.duplicate(),
        }
    }
}

} // verus!
