//! Robot-side telemetry pipeline: envelope model, codec, compression,
//! delta coding, forward error correction, fragmentation, authenticated
//! encryption, QoS shaping, channel conditioning, recovery, link health,
//! transport profiles and the envelope wire layout.

pub mod envelope;
pub mod error;
pub mod bytes;
pub mod clock;
pub mod packetization;
pub mod delta;
pub mod fec;
pub mod compression;
pub mod qos;
pub mod ccem;
pub mod crypto;
pub mod codec;
pub mod recovery;
pub mod link_health;
pub mod transport;
pub mod wire;

use vstd::prelude::*;

verus! {

/// Library version.
pub const VERSION: &'static str = "0.1.0";

} // verus!
