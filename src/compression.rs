//! Byte compression: a fast profile (LZ4 blocks) and a high-ratio profile
//! (Zstandard frames), and a framing that names the profile in a header byte.

use vstd::prelude::*;
use crate::error::{AriaError, AriaResult};

verus! {

#[verifier::external_type_specification]
#[verifier::external_body]
pub struct ExIoError(std::io::Error);

/// The size-prefixed LZ4 block that `lz4::block::compress` makes of `data`
/// in fast mode with acceleration `level`.
pub uninterp spec fn lz4_block(level: u32, data: Seq<u8>) -> Seq<u8>;

/// What `lz4::block::decompress` makes of a size-prefixed block, if it accepts it.
pub uninterp spec fn lz4_unblock(src: Seq<u8>) -> Option<Seq<u8>>;

/// The Zstandard frame that `zstd::encode_all` makes of `data` at `level`.
pub uninterp spec fn zstd_frame(level: i32, data: Seq<u8>) -> Seq<u8>;

/// What `zstd::decode_all` makes of `src`, if it accepts it.
pub uninterp spec fn zstd_unframe(src: Seq<u8>) -> Option<Seq<u8>>;

/// Largest input that LZ4 accepts (`LZ4_MAX_INPUT_SIZE`).
pub const LZ4_MAX_INPUT: usize = 0x7E00_0000;

/// Relies on `lz4::block::compress` with `CompressionMode::FAST` and a size
/// prefix: the block for the data, which `lz4::block::decompress` without an
/// explicit size turns back into the data. It fails only on inputs above
/// `LZ4_MAX_INPUT`; the output buffer it allocates always suffices.
#[verifier::external_body]
fn lz4_compress(data: &[u8], level: u32) -> (r: Result<Vec<u8>, std::io::Error>)
    ensures
        data@.len() <= LZ4_MAX_INPUT ==> r is Ok,
        r matches Ok(c) ==> c@ == lz4_block(level, data@) && lz4_unblock(c@) == Some(data@),
{
    lz4::block::compress(data, Some(lz4::block::CompressionMode::FAST(level as i32)), true)
}

/// Relies on `lz4::block::decompress` with the size read from the prefix.
#[verifier::external_body]
fn lz4_decompress(src: &[u8]) -> (r: Result<Vec<u8>, std::io::Error>)
    ensures
        r is Ok <==> lz4_unblock(src@) is Some,
        r matches Ok(v) ==> lz4_unblock(src@) == Some(v@),
{
    lz4::block::decompress(src, None)
}

/// Relies on `zstd::encode_all`: a Zstandard frame of the data, which
/// `zstd::decode_all` turns back into the data. Reading from an in-memory
/// slice and writing to a `Vec` cannot fail, and out-of-range levels are
/// clamped, so it always succeeds.
#[verifier::external_body]
fn zstd_compress(data: &[u8], level: i32) -> (r: Result<Vec<u8>, std::io::Error>)
    ensures
        r is Ok,
        r matches Ok(c) ==> c@ == zstd_frame(level, data@) && zstd_unframe(c@) == Some(data@),
{
    zstd::encode_all(data, level)
}

/// Relies on `zstd::decode_all`.
#[verifier::external_body]
fn zstd_decompress(src: &[u8]) -> (r: Result<Vec<u8>, std::io::Error>)
    ensures
        r is Ok <==> zstd_unframe(src@) is Some,
        r matches Ok(v) ==> zstd_unframe(src@) == Some(v@),
{
    zstd::decode_all(src)
}

/// A symmetric byte compressor.
pub trait ICompressor {
    /// What `compress` makes of `data`.
    spec fn encoded(&self, data: Seq<u8>) -> Seq<u8>;

    /// What `decompress` makes of `src`, if it accepts it.
    spec fn decoded(&self, src: Seq<u8>) -> Option<Seq<u8>>;

    spec fn label(&self) -> Seq<char>;

    /// Inputs on which `compress` is owed success.
    spec fn compressible(&self, data: Seq<u8>) -> bool;

    fn compress(&self, data: &[u8]) -> (r: AriaResult<Vec<u8>>)
        ensures
            self.compressible(data@) ==> r is Ok,
            r matches Ok(c) ==> c@ == self.encoded(data@) && self.decoded(c@) == Some(data@),
            r matches Err(e) ==> e is Compression,
    ;

    fn decompress(&self, data: &[u8]) -> (r: AriaResult<Vec<u8>>)
        ensures
            r is Ok <==> self.decoded(data@) is Some,
            r matches Ok(v) ==> self.decoded(data@) == Some(v@),
            r matches Err(e) ==> e is Compression,
    ;

    fn name(&self) -> (r: &'static str)
        ensures
            r@ == self.label(),
    ;
}

/// The fast profile.
pub struct Lz4Compressor {
    level: u32,
}

impl Lz4Compressor {
    pub fn new(level: u32) -> (r: Self)
        ensures
            r.level() == level,
    {
        Lz4Compressor { level }
    }

    pub closed spec fn level(&self) -> u32 {
        self.level
    }
}

impl ICompressor for Lz4Compressor {
    closed spec fn encoded(&self, data: Seq<u8>) -> Seq<u8> {
        lz4_block(self.level, data)
    }

    open spec fn decoded(&self, src: Seq<u8>) -> Option<Seq<u8>> {
        lz4_unblock(src)
    }

    open spec fn label(&self) -> Seq<char> {
        "LZ4"@
    }

    open spec fn compressible(&self, data: Seq<u8>) -> bool {
        data.len() <= LZ4_MAX_INPUT
    }

    fn compress(&self, data: &[u8]) -> (r: AriaResult<Vec<u8>>) {
        match lz4_compress(data, self.level) {
            Ok(c) => Ok(c),
            Err(_) => Err(AriaError::Compression("LZ4 compression failed".to_string())),
        }
    }

    fn decompress(&self, data: &[u8]) -> (r: AriaResult<Vec<u8>>) {
        match lz4_decompress(data) {
            Ok(v) => Ok(v),
            Err(_) => Err(AriaError::Compression("LZ4 decompression failed".to_string())),
        }
    }

    fn name(&self) -> (r: &'static str) {
        proof {
            reveal_strlit("LZ4");
        }
        "LZ4"
    }
}

/// The high-ratio profile.
pub struct ZstdCompressor {
    level: i32,
}

impl ZstdCompressor {
    pub fn new(level: i32) -> (r: Self)
        ensures
            r.level() == level,
    {
        ZstdCompressor { level }
    }

    pub closed spec fn level(&self) -> i32 {
        self.level
    }
}

impl ICompressor for ZstdCompressor {
    closed spec fn encoded(&self, data: Seq<u8>) -> Seq<u8> {
        zstd_frame(self.level, data)
    }

    open spec fn decoded(&self, src: Seq<u8>) -> Option<Seq<u8>> {
        zstd_unframe(src)
    }

    open spec fn label(&self) -> Seq<char> {
        "Zstd"@
    }

    open spec fn compressible(&self, data: Seq<u8>) -> bool {
        true
    }

    fn compress(&self, data: &[u8]) -> (r: AriaResult<Vec<u8>>) {
        match zstd_compress(data, self.level) {
            Ok(c) => Ok(c),
            Err(_) => Err(AriaError::Compression("Zstd compression failed".to_string())),
        }
    }

    fn decompress(&self, data: &[u8]) -> (r: AriaResult<Vec<u8>>) {
        match zstd_decompress(data) {
            Ok(v) => Ok(v),
            Err(_) => Err(AriaError::Compression("Zstd decompression failed".to_string())),
        }
    }

    fn name(&self) -> (r: &'static str) {
        proof {
            reveal_strlit("Zstd");
        }
        "Zstd"
    }
}

/// Compressor profile, named on the wire by a header byte.
#[derive(Debug, Clone, Copy, PartialEq, Eq, Structural)]
pub enum CompressionProfile {
    /// Throughput first (LZ4).
    Fast,
    /// Size first (Zstandard).
    HighRatio,
}

pub const FAST_PROFILE_TAG: u8 = 0;

pub const HIGH_RATIO_PROFILE_TAG: u8 = 1;

impl CompressionProfile {
    pub open spec fn tag_spec(self) -> u8 {
        match self {
            CompressionProfile::Fast => FAST_PROFILE_TAG,
            CompressionProfile::HighRatio => HIGH_RATIO_PROFILE_TAG,
        }
    }

    pub fn tag(&self) -> (r: u8)
        ensures
            r == self.tag_spec(),
    {
        match self {
            CompressionProfile::Fast => FAST_PROFILE_TAG,
            CompressionProfile::HighRatio => HIGH_RATIO_PROFILE_TAG,
        }
    }
}

/// Compresses with either profile and prefixes the profile's tag, so that
/// the receiver picks the matching decompressor.
pub struct FramedCompressor {
    pub fast: Lz4Compressor,
    pub high_ratio: ZstdCompressor,
}

/// What a framed payload decodes to: the tag picks the profile.
pub open spec fn framed_decoded(c: &FramedCompressor, src: Seq<u8>) -> Option<Seq<u8>> {
    if src.len() == 0 {
        None
    } else if src[0] == FAST_PROFILE_TAG {
        c.fast.decoded(src.drop_first())
    } else if src[0] == HIGH_RATIO_PROFILE_TAG {
        c.high_ratio.decoded(src.drop_first())
    } else {
        None
    }
}

impl FramedCompressor {
    pub fn new(fast_level: u32, high_ratio_level: i32) -> (r: Self)
        ensures
            r.fast.level() == fast_level,
            r.high_ratio.level() == high_ratio_level,
    {
        FramedCompressor {
            fast: Lz4Compressor::new(fast_level),
            high_ratio: ZstdCompressor::new(high_ratio_level),
        }
    }

    /// The profile's tag followed by the profile's compressed bytes.
    pub fn compress(&self, profile: CompressionProfile, data: &[u8]) -> (r: AriaResult<Vec<u8>>)
        ensures
            r matches Ok(c) ==> c@ == seq![profile.tag_spec()] + match profile {
                CompressionProfile::Fast => self.fast.encoded(data@),
                CompressionProfile::HighRatio => self.high_ratio.encoded(data@),
            },
            r matches Ok(c) ==> framed_decoded(self, c@) == Some(data@),
            r matches Err(e) ==> e is Compression,
            profile == CompressionProfile::HighRatio ==> r is Ok,
            profile == CompressionProfile::Fast && data@.len() <= LZ4_MAX_INPUT ==> r is Ok,
    {
        let body = match profile {
            CompressionProfile::Fast => self.fast.compress(data),
            CompressionProfile::HighRatio => self.high_ratio.compress(data),
        };
        match body {
            Ok(b) => {
                let mut out: Vec<u8> = Vec::new();
                out.push(profile.tag());
                crate::bytes::append_bytes(&mut out, b.as_slice());
                assert(out@.drop_first() =~= b@);
                Ok(out)
            },
            Err(e) => Err(e),
        }
    }

    /// Reads the tag and decompresses the rest with that profile. An empty
    /// input or an unknown tag fails with `Compression`.
    pub fn decompress(&self, data: &[u8]) -> (r: AriaResult<Vec<u8>>)
        ensures
            r is Ok <==> framed_decoded(self, data@) is Some,
            r matches Ok(v) ==> framed_decoded(self, data@) == Some(v@),
            r matches Err(e) ==> e is Compression,
    {
        if data.len() == 0 {
            return Err(AriaError::Compression("missing profile tag".to_string()));
        }
        let body = &data[1..data.len()];
        assert(body@ =~= data@.drop_first());
        if data[0] == FAST_PROFILE_TAG {
            self.fast.decompress(body)
        } else if data[0] == HIGH_RATIO_PROFILE_TAG {
            self.high_ratio.decompress(body)
        } else {
            Err(AriaError::Compression("unknown profile tag".to_string()))
        }
    }
}

} // verus!
