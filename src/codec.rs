//! Length-prefixed framing and the packet codec.
//!
//! A frame is an 8-byte little-endian length `L` followed by `L` bytes of
//! payload. A packet's payload is bincode's encoding of its three fields.
use vstd::prelude::*;
use vstd::utf8::encode_utf8;
use vstd::bytes::{
    spec_u64_from_le_bytes, spec_u64_to_le_bytes, u64_from_le_bytes, u64_to_le_bytes,
    lemma_auto_spec_u64_to_from_le_bytes,
};

verus! {

/// Why a frame or packet could not be handled.
#[derive(Clone, Copy, Debug, PartialEq, Eq, Structural)]
pub enum NetworkError {
    /// The packet could not be encoded.
    Serialization,
    /// The bytes are no frame of a packet: too short, a length prefix that
    /// disagrees with the frame, or a payload that does not decode.
    Malformed,
}

/// The frame that carries `payload`.
pub open spec fn frame_of(payload: Seq<u8>) -> Seq<u8> {
    spec_u64_to_le_bytes(payload.len() as u64) + payload
}

/// Whether `bytes` is exactly one frame: a prefix that gives the length of
/// what follows it.
pub open spec fn is_frame(bytes: Seq<u8>) -> bool {
    bytes.len() >= 8 && spec_u64_from_le_bytes(bytes.subrange(0, 8)) == bytes.len() - 8
}

/// The payload of a frame.
pub open spec fn frame_payload(bytes: Seq<u8>) -> Seq<u8> {
    bytes.subrange(8, bytes.len() as int)
}

/// Wraps `payload` in a frame.
pub fn encode_frame(payload: &[u8]) -> (r: Vec<u8>)
    ensures
        r@ == frame_of(payload@),
{
    let mut out = u64_to_le_bytes(payload.len() as u64);
    let ghost prefix = out@;
    let mut i: usize = 0;
    while i < payload.len()
        invariant
            0 <= i <= payload@.len(),
            prefix == spec_u64_to_le_bytes(payload@.len() as u64),
            out@ == prefix + payload@.subrange(0, i as int),
        decreases payload@.len() - i,
    {
        out.push(payload[i]);
        i = i + 1;
        assert(payload@.subrange(0, i as int) == payload@.subrange(0, i - 1 as int).push(payload@[i - 1]));
    }
    assert(payload@.subrange(0, payload@.len() as int) == payload@);
    out
}

/// Takes the payload out of a frame; fails with `Malformed` when `bytes` is
/// not exactly one frame.
pub fn decode_frame(bytes: &[u8]) -> (r: Result<Vec<u8>, NetworkError>)
    ensures
        is_frame(bytes@) ==> (r matches Ok(p) && p@ == frame_payload(bytes@)),
        !is_frame(bytes@) ==> r == Err::<Vec<u8>, NetworkError>(NetworkError::Malformed),
{
    if bytes.len() < 8 {
        return Err(NetworkError::Malformed);
    }
    let mut head: Vec<u8> = Vec::new();
    let mut i: usize = 0;
    while i < 8
        invariant
            0 <= i <= 8,
            bytes@.len() >= 8,
            head@ == bytes@.subrange(0, i as int),
        decreases 8 - i,
    {
        head.push(bytes[i]);
        i = i + 1;
        assert(bytes@.subrange(0, i as int) == bytes@.subrange(0, i - 1 as int).push(bytes@[i - 1]));
    }
    let length = u64_from_le_bytes(head.as_slice());
    if length != (bytes.len() - 8) as u64 {
        return Err(NetworkError::Malformed);
    }
    let mut payload: Vec<u8> = Vec::new();
    let mut j: usize = 8;
    while j < bytes.len()
        invariant
            8 <= j <= bytes@.len(),
            payload@ == bytes@.subrange(8, j as int),
        decreases bytes@.len() - j,
    {
        payload.push(bytes[j]);
        j = j + 1;
        assert(bytes@.subrange(8, j as int) == bytes@.subrange(8, j - 1 as int).push(bytes@[j - 1]));
    }
    Ok(payload)
}

/// bincode's error kind, as its `serialize` and `deserialize` return it.
#[verifier::external_type_specification]
#[verifier::external_body]
pub struct ExBincodeErrorKind(bincode::ErrorKind);

/// bincode's encoding, under its default options (fixed-width little-endian
/// integers), of the three fields of a packet: the kind's UTF-8 length and
/// bytes, the hash, then the data's length and bytes.
pub open spec fn packet_encoding(kind: Seq<char>, schema_hash: u64, data: Seq<u8>) -> Seq<u8> {
    let name = encode_utf8(kind);
    spec_u64_to_le_bytes(name.len() as u64) + name + spec_u64_to_le_bytes(schema_hash) + spec_u64_to_le_bytes(
        data.len() as u64,
    ) + data
}

/// What bincode, under its default options, reads from `bytes` as the three
/// fields of a packet, if they hold one.
pub uninterp spec fn packet_decoding(bytes: Seq<u8>) -> Option<(Seq<char>, u64, Seq<u8>)>;

/// Relies on `bincode::serialize`: a packet is encoded as the tuple of its
/// fields, each in turn: a string and a byte vector as a `u64` length then
/// their bytes, an integer in fixed width. Under the default
/// options (no size limit) into a `Vec`, a string, an integer and a byte
/// vector always encode, and `bincode::deserialize` of the same tuple type
/// reads the fields back from the bytes.
#[verifier::external_body]
fn serialize_packet_fields(kind: &String, schema_hash: u64, data: &Vec<u8>) -> (r: Result<Vec<u8>, Box<bincode::ErrorKind>>)
    ensures
        r is Ok,
        r matches Ok(b) ==> b@ == packet_encoding(kind@, schema_hash, data@),
        r matches Ok(b) ==> packet_decoding(b@) == Some((kind@, schema_hash, data@)),
{
    bincode::serialize(&(kind, schema_hash, data))
}

/// Relies on `bincode::deserialize`: it reads the tuple of a packet's fields
/// from the front of `bytes`, or fails; which depends on the bytes alone.
#[verifier::external_body]
fn deserialize_packet_fields(bytes: &[u8]) -> (r: Result<(String, u64, Vec<u8>), Box<bincode::ErrorKind>>)
    ensures
        r matches Ok(t) ==> packet_decoding(bytes@) == Some((t.0@, t.1, t.2@)),
        r is Err ==> packet_decoding(bytes@) is None,
{
    bincode::deserialize::<(String, u64, Vec<u8>)>(bytes)
}

/// An untyped message: the name of its kind, a hash of that type's schema,
/// and its bincode-encoded body.
#[derive(Clone, Debug)]
pub struct NetworkPacket {
    pub kind: String,
    pub schema_hash: u64,
    pub data: Vec<u8>,
}

/// The codec for connections that carry many message types: each frame
/// holds one [`NetworkPacket`].
pub struct EventworkBincodeCodec;

impl EventworkBincodeCodec {
    /// Frames the encoding of `val`. It always succeeds, and the frame
    /// decodes to `val` again.
    pub fn encode(val: &NetworkPacket) -> (r: Result<Vec<u8>, NetworkError>)
        ensures
            r is Ok,
            r matches Ok(b) ==> b@ == frame_of(packet_encoding(val.kind@, val.schema_hash, val.data@)),
            r matches Ok(b) ==> is_frame(b@) && packet_decoding(frame_payload(b@)) == Some(
                (val.kind@, val.schema_hash, val.data@),
            ),
    {
        match serialize_packet_fields(&val.kind, val.schema_hash, &val.data) {
            Ok(encoded) => {
                proof {
                    assert(encoded@.len() == encoded.len());
                    assert(encoded.len() <= usize::MAX);
                    lemma_frame_round_trip(encoded@);
                }
                Ok(encode_frame(encoded.as_slice()))
            },
            Err(_) => Err(NetworkError::Serialization),
        }
    }

    /// Reads one packet out of one frame.
    pub fn decode(val: &[u8]) -> (r: Result<NetworkPacket, NetworkError>)
        ensures
            (is_frame(val@) && packet_decoding(frame_payload(val@)) is Some) <==> r is Ok,
            r matches Ok(p) ==> packet_decoding(frame_payload(val@)) == Some((p.kind@, p.schema_hash, p.data@)),
            r matches Err(e) ==> e == NetworkError::Malformed,
    {
        let payload = match decode_frame(val) {
            Ok(p) => p,
            Err(e) => return Err(e),
        };
        match deserialize_packet_fields(payload.as_slice()) {
            Ok(fields) => {
                let (kind, schema_hash, data) = fields;
                Ok(NetworkPacket { kind, schema_hash, data })
            },
            Err(_) => Err(NetworkError::Malformed),
        }
    }
}

/// The codec for connections that carry one message type: the packet is
/// built around, and taken off, the message's own encoded bytes.
pub struct EventworkBincodeSingleMsgCodec;

impl EventworkBincodeSingleMsgCodec {
    /// Wraps the encoded message `data` of kind `kind` in a packet and
    /// frames it.
    /// It always succeeds, and decoding the frame gives `data` back.
    pub fn encode(kind: String, schema_hash: u64, data: Vec<u8>) -> (r: Result<Vec<u8>, NetworkError>)
        ensures
            r is Ok,
            r matches Ok(b) ==> b@ == frame_of(packet_encoding(kind@, schema_hash, data@)),
            r matches Ok(b) ==> is_frame(b@) && packet_decoding(frame_payload(b@)) == Some((kind@, schema_hash, data@)),
    {
        let packet = NetworkPacket { kind, schema_hash, data };
        EventworkBincodeCodec::encode(&packet)
    }

    /// The encoded message inside the packet in one frame.
    pub fn decode(val: &[u8]) -> (r: Result<Vec<u8>, NetworkError>)
        ensures
            (is_frame(val@) && packet_decoding(frame_payload(val@)) is Some) <==> r is Ok,
            r matches Ok(d) ==> d@ == packet_decoding(frame_payload(val@))->Some_0.2,
            r matches Err(e) ==> e == NetworkError::Malformed,
    {
        match EventworkBincodeCodec::decode(val) {
            Ok(packet) => Ok(packet.data),
            Err(e) => Err(e),
        }
    }
}

/// Framing loses nothing: the frame of any payload is a frame, and its
/// payload is the one that went in.
pub proof fn lemma_frame_round_trip(payload: Seq<u8>)
    requires
        payload.len() <= u64::MAX,
    ensures
        is_frame(frame_of(payload)),
        frame_payload(frame_of(payload)) == payload,
{
    lemma_auto_spec_u64_to_from_le_bytes();
    let f = frame_of(payload);
    let prefix = spec_u64_to_le_bytes(payload.len() as u64);
    assert(f.subrange(0, 8) == prefix);
    assert(f.subrange(8, f.len() as int) == payload);
}

} // verus!
