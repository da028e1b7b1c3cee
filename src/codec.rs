//! Codec and schema registry: values framed with their schema id.

use vstd::prelude::*;
use std::collections::HashMap;
use crate::error::{AriaError, AriaResult};

verus! {

broadcast use vstd::std_specs::hash::group_hash_axioms;

#[verifier::external_type_specification]
#[verifier::external_body]
pub struct ExBincodeErrorKind(bincode::ErrorKind);

/// The four little-endian bytes of `x`.
pub open spec fn u32_le(x: u32) -> Seq<u8> {
    seq![(x & 0xff) as u8, ((x >> 8u32) & 0xff) as u8, ((x >> 16u32) & 0xff) as u8, ((x >> 24u32) & 0xff) as u8]
}

/// The `u32` whose little-endian bytes are `b[0..4]`.
pub open spec fn read_u32_le(b: Seq<u8>) -> u32
    recommends
        b.len() >= 4,
{
    (b[0] as u32) | ((b[1] as u32) << 8u32) | ((b[2] as u32) << 16u32) | ((b[3] as u32) << 24u32)
}

/// Relies on `bincode::serialize`, whose default configuration writes a
/// `u32` as its four little-endian bytes and cannot fail on one.
#[verifier::external_body]
fn bincode_u32(x: u32) -> (r: Result<Vec<u8>, Box<bincode::ErrorKind>>)
    ensures
        r is Ok,
        r matches Ok(b) ==> b@ == u32_le(x),
{
    bincode::serialize(&x)
}

/// The frame of `value` under `schema_id`: the id's four little-endian
/// bytes, then the value.
pub open spec fn frame_of(schema_id: u32, value: Seq<u8>) -> Seq<u8> {
    u32_le(schema_id) + value
}

/// The schema id and value that a frame holds, if it is long enough.
pub open spec fn parse_frame(bytes: Seq<u8>) -> Option<(u32, Seq<u8>)> {
    if bytes.len() < 4 {
        None
    } else {
        Some((read_u32_le(bytes), bytes.subrange(4, bytes.len() as int)))
    }
}

proof fn lemma_u32_le_round_trip(x: u32)
    ensures
        read_u32_le(u32_le(x)) == x,
{
    let b = u32_le(x);
    let b0 = (x & 0xff) as u8;
    let b1 = ((x >> 8u32) & 0xff) as u8;
    let b2 = ((x >> 16u32) & 0xff) as u8;
    let b3 = ((x >> 24u32) & 0xff) as u8;
    assert(b[0] == b0 && b[1] == b1 && b[2] == b2 && b[3] == b3);
    assert((b0 as u32) | ((b1 as u32) << 8u32) | ((b2 as u32) << 16u32) | ((b3 as u32) << 24u32) == x)
        by (bit_vector)
        requires
            b0 == (x & 0xff) as u8,
            b1 == ((x >> 8u32) & 0xff) as u8,
            b2 == ((x >> 16u32) & 0xff) as u8,
            b3 == ((x >> 24u32) & 0xff) as u8,
    ;
}

/// Codec round trip: the frame of any value parses back to its schema id
/// and the value.
pub proof fn lemma_frame_round_trip(schema_id: u32, value: Seq<u8>)
    ensures
        parse_frame(frame_of(schema_id, value)) == Some((schema_id, value)),
{
    let f = frame_of(schema_id, value);
    lemma_u32_le_round_trip(schema_id);
    assert(f.subrange(0, 4) =~= u32_le(schema_id));
    assert(read_u32_le(f) == read_u32_le(u32_le(schema_id)));
    assert(f.subrange(4, f.len() as int) =~= value);
}

/// Schema ids and their names.
pub struct SchemaRegistry {
    schemas: HashMap<u32, String>,
}

impl SchemaRegistry {
    pub closed spec fn names(&self) -> Map<u32, Seq<char>> {
        self.schemas@.map_values(|s: String| s@)
    }

    pub fn new() -> (r: Self)
        ensures
            r.names() == Map::<u32, Seq<char>>::empty(),
    {
        let r = SchemaRegistry { schemas: HashMap::new() };
        assert(r.names() =~= Map::<u32, Seq<char>>::empty());
        r
    }

    /// Records `name` under `schema_id`, replacing an earlier name.
    pub fn register(&mut self, schema_id: u32, name: String)
        ensures
            final(self).names() == old(self).names().insert(schema_id, name@),
    {
        let ghost n = name@;
        self.schemas.insert(schema_id, name);
        assert(self.names() =~= old(self).names().insert(schema_id, n));
    }

    pub fn get(&self, schema_id: u32) -> (r: Option<&String>)
        ensures
            match r {
                Some(s) => self.names().contains_key(schema_id) && s@ == self.names()[schema_id],
                None => !self.names().contains_key(schema_id),
            },
    {
        self.schemas.get(&schema_id)
    }

    pub fn contains(&self, schema_id: u32) -> (r: bool)
        ensures
            r == self.names().contains_key(schema_id),
    {
        self.get(schema_id).is_some()
    }
}

/// Maps values to bytes and back under a schema id.
pub trait ICodec {
    /// Whether decoding under `schema_id` is possible.
    spec fn knows(&self, schema_id: u32) -> bool;

    /// The frame of `value` under `schema_id`; deterministic.
    fn encode(&self, value: &[u8], schema_id: u32) -> (r: AriaResult<Vec<u8>>)
        ensures
            r matches Ok(b) && b@ == frame_of(schema_id, value@),
    ;

    /// The value that `bytes` frames under `schema_id`. An unknown schema is
    /// `SchemaUnknown`; bytes that are not a frame under `schema_id` are
    /// `CodecMalformed`.
    fn decode(&self, bytes: &[u8], schema_id: u32) -> (r: AriaResult<Vec<u8>>)
        ensures
            !self.knows(schema_id) ==> (r matches Err(e) && e is SchemaUnknown),
            self.knows(schema_id) ==> match parse_frame(bytes@) {
                Some((id, v)) => if id == schema_id {
                    r matches Ok(x) && x@ == v
                } else {
                    r matches Err(e) && e is CodecMalformed
                },
                None => r matches Err(e) && e is CodecMalformed,
            },
    ;
}

/// Codec over a schema registry.
pub struct ProtobufCodec {
    schema_registry: SchemaRegistry,
}

impl ProtobufCodec {
    pub closed spec fn registry(&self) -> Map<u32, Seq<char>> {
        self.schema_registry.names()
    }

    pub fn new() -> (r: Self)
        ensures
            r.registry() == Map::<u32, Seq<char>>::empty(),
    {
        ProtobufCodec { schema_registry: SchemaRegistry::new() }
    }

    pub fn register_schema(&mut self, schema_id: u32, name: String)
        ensures
            final(self).registry() == old(self).registry().insert(schema_id, name@),
    {
        self.schema_registry.register(schema_id, name);
    }
}

impl ICodec for ProtobufCodec {
    open spec fn knows(&self, schema_id: u32) -> bool {
        self.registry().contains_key(schema_id)
    }

    fn encode(&self, value: &[u8], schema_id: u32) -> (r: AriaResult<Vec<u8>>) {
        match bincode_u32(schema_id) {
            Ok(mut out) => {
                crate::bytes::append_bytes(&mut out, value);
                Ok(out)
            },
            Err(_) => Err(AriaError::Serialization("schema id".to_string())),
        }
    }

    fn decode(&self, bytes: &[u8], schema_id: u32) -> (r: AriaResult<Vec<u8>>) {
        if !self.schema_registry.contains(schema_id) {
            return Err(AriaError::SchemaUnknown);
        }
        if bytes.len() < 4 {
            return Err(AriaError::CodecMalformed);
        }
        let id: u32 = (bytes[0] as u32) | ((bytes[1] as u32) << 8u32) | ((bytes[2] as u32) << 16u32)
            | ((bytes[3] as u32) << 24u32);
        if id != schema_id {
            return Err(AriaError::CodecMalformed);
        }
        Ok(crate::bytes::copy_range(bytes, 4, bytes.len()))
    }
}

} // verus!
