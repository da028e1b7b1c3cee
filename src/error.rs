//! Error values of the pipeline.

use vstd::prelude::*;

verus! {

/// Every failure that a stage of the pipeline reports.
#[derive(Debug, Clone)]
pub enum AriaError {
    /// Underlying transport I/O.
    Io(String),
    Serialization(String),
    /// A payload that does not follow the codec's layout.
    CodecMalformed,
    /// A `schema_id` that the registry does not hold.
    SchemaUnknown,
    /// Reversible algorithmic failure of a compressor.
    Compression(String),
    Crypto(String),
    CryptoSignatureInvalid,
    CryptoDecryptionFailed,
    CryptoUnknownKey,
    Fec(String),
    /// Invalid FEC parameters or shards that cannot be encoded.
    FecEncode,
    /// Fewer than `k` shards survived.
    FecUnrecoverable,
    Transport(String),
    Model(String),
    Sensor(String),
    Actuator(String),
    Planning(String),
    Safety(String),
    Config(String),
    Timeout,
    NotImplemented(String),
    InvalidState(String),
    Cancelled,
    Unknown(String),
}

pub type AriaResult<T> = Result<T, AriaError>;

} // verus!
