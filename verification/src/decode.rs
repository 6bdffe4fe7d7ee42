//! Classification and byte-level decoding of raw account buffers.
//!
//! Every account of the program starts with an 8-byte discriminator.
//! A device record then carries a 32-byte authority, a 4-byte
//! little-endian length prefix, and that many bytes of UTF-8 for the
//! URI. An aggregate record carries a single 8-byte little-endian
//! counter. Which decoder applies is chosen from the buffer length
//! alone: more than 40 bytes is taken for a device record, exactly 16
//! bytes for an aggregate record, anything else is skipped.

use crate::records::{AccountLayout, DecodeError, NetworkStats, NodeDevice, NodeDeviceView};
use vstd::bytes::{
    lemma_auto_spec_u32_to_from_le_bytes, spec_u32_from_le_bytes, spec_u32_to_le_bytes,
    spec_u64_from_le_bytes, u32_from_le_bytes, u32_to_le_bytes, u64_from_le_bytes,
};
use vstd::prelude::*;
use vstd::slice::{slice_subrange, slice_to_vec};
use vstd::utf8::{
    decode_utf8, encode_utf8, encode_utf8_decode_utf8, encode_utf8_valid_utf8, valid_utf8,
};

verus! {

/// Declared byte length of the URI, read from the little-endian prefix
/// that follows the discriminator and the authority.
pub open spec fn spec_uri_len(data: Seq<u8>) -> u32
    recommends
        data.len() >= 44,
{
    spec_u32_from_le_bytes(data.subrange(40, 44))
}

/// The buffer is long enough for the fixed device fields and for the
/// URI length it declares.
pub open spec fn device_frame_ok(data: Seq<u8>) -> bool {
    data.len() >= 44 && 44 + spec_uri_len(data) <= data.len()
}

/// The bytes declared as the URI.
pub open spec fn spec_uri_bytes(data: Seq<u8>) -> Seq<u8>
    recommends
        device_frame_ok(data),
{
    data.subrange(44, 44 + spec_uri_len(data) as int)
}

/// The 32 authority bytes that follow the discriminator.
pub open spec fn spec_authority(data: Seq<u8>) -> Seq<u8>
    recommends
        data.len() >= 40,
{
    data.subrange(8, 40)
}

/// The buffer decodes as a device record: the frame fits and the URI
/// bytes are valid UTF-8.
pub open spec fn device_decode_ok(data: Seq<u8>) -> bool {
    device_frame_ok(data) && valid_utf8(spec_uri_bytes(data))
}

/// The device record a well-formed buffer decodes to.
pub open spec fn spec_device(data: Seq<u8>) -> NodeDeviceView
    recommends
        device_decode_ok(data),
{
    NodeDeviceView { authority: spec_authority(data), uri: decode_utf8(spec_uri_bytes(data)) }
}

/// The buffer decodes as an aggregate record: discriminator plus one
/// 8-byte integer, nothing more.
pub open spec fn aggregate_decode_ok(data: Seq<u8>) -> bool {
    data.len() == 16
}

/// The counter an aggregate buffer carries.
pub open spec fn spec_total_nodes(data: Seq<u8>) -> u64
    recommends
        data.len() >= 16,
{
    spec_u64_from_le_bytes(data.subrange(8, 16))
}

/// Layout chosen for a buffer of the given length. The device rule is
/// checked first; its range does not overlap the aggregate length.
pub open spec fn spec_classify(len: int) -> AccountLayout {
    if len > 40 {
        AccountLayout::DeviceLayout
    } else if len == 16 {
        AccountLayout::AggregateLayout
    } else {
        AccountLayout::Unknown
    }
}

/// Drop the fixed 8-byte discriminator that leads every account of the
/// program.
pub fn skip_anchor_discriminator(data: &[u8]) -> (rest: &[u8])
    requires
        data@.len() >= 8,
    ensures
        rest@ == data@.skip(8),
{
    let rest = slice_subrange(data, 8, data.len());
    assert(rest@ =~= data@.skip(8));
    rest
}

/// Choose the decoder for a raw buffer from its length alone.
pub fn classify_account(data: &[u8]) -> (layout: AccountLayout)
    ensures
        layout == spec_classify(data@.len() as int),
{
    if data.len() > 40 {
        AccountLayout::DeviceLayout
    } else if data.len() == 16 {
        AccountLayout::AggregateLayout
    } else {
        AccountLayout::Unknown
    }
}

/// Relies on `String::from_utf8` (std): it returns `Ok` exactly when
/// the bytes are valid UTF-8, and the returned string's characters are
/// their decoding, as modelled by `vstd::utf8`.
#[verifier::external_body]
fn utf8_to_string(bytes: Vec<u8>) -> (r: Option<String>)
    ensures
        r is Some <==> valid_utf8(bytes@),
        r matches Some(s) ==> s@ == decode_utf8(bytes@),
{
    String::from_utf8(bytes).ok()
}

/// Decode a raw buffer as a device record: discriminator, 32-byte
/// authority, 4-byte little-endian URI length, then that many bytes of
/// UTF-8. Succeeds exactly on buffers that satisfy `device_decode_ok`,
/// and then returns the record `spec_device` describes; each failure
/// names the first rule the buffer breaks.
pub fn deserialize_node_device(data: &[u8]) -> (r: Result<NodeDevice, DecodeError>)
    ensures
        r is Ok <==> device_decode_ok(data@),
        r matches Ok(d) ==> d@ == spec_device(data@) && d.wf(),
        data@.len() < 44 ==> r == Result::<NodeDevice, DecodeError>::Err(DecodeError::Truncated),
        data@.len() >= 44 && !device_frame_ok(data@) ==> r == Result::<
            NodeDevice,
            DecodeError,
        >::Err(DecodeError::UriOverrun),
        device_frame_ok(data@) && !valid_utf8(spec_uri_bytes(data@)) ==> r == Result::<
            NodeDevice,
            DecodeError,
        >::Err(DecodeError::InvalidUtf8),
{
    if data.len() < 44 {
        return Err(DecodeError::Truncated);
    }
    let payload = skip_anchor_discriminator(data);
    let authority = slice_to_vec(slice_subrange(payload, 0, 32));
    assert(authority@ =~= spec_authority(data@));
    let len_bytes = slice_subrange(payload, 32, 36);
    assert(len_bytes@ =~= data@.subrange(40, 44));
    let uri_len = u32_from_le_bytes(len_bytes) as usize;
    if uri_len > payload.len() - 36 {
        assert(!device_frame_ok(data@));
        return Err(DecodeError::UriOverrun);
    }
    assert(device_frame_ok(data@));
    let uri_bytes = slice_to_vec(slice_subrange(payload, 36, 36 + uri_len));
    assert(uri_bytes@ =~= spec_uri_bytes(data@));
    match utf8_to_string(uri_bytes) {
        Some(uri) => Ok(NodeDevice { authority, uri }),
        None => Err(DecodeError::InvalidUtf8),
    }
}

/// Decode a raw buffer as the aggregate record: discriminator, then one
/// 8-byte little-endian counter, and nothing after it. Succeeds exactly
/// on buffers of that shape.
pub fn deserialize_network_stats(data: &[u8]) -> (r: Result<NetworkStats, DecodeError>)
    ensures
        r is Ok <==> aggregate_decode_ok(data@),
        r matches Ok(s) ==> s.total_nodes == spec_total_nodes(data@),
        data@.len() < 16 ==> r == Result::<NetworkStats, DecodeError>::Err(DecodeError::Truncated),
        data@.len() > 16 ==> r == Result::<NetworkStats, DecodeError>::Err(
            DecodeError::TrailingBytes,
        ),
{
    if data.len() < 16 {
        return Err(DecodeError::Truncated);
    }
    if data.len() > 16 {
        return Err(DecodeError::TrailingBytes);
    }
    let total = u64_from_le_bytes(slice_subrange(data, 8, 16));
    Ok(NetworkStats { total_nodes: total })
}

/// The buffer a device record encodes to: a zeroed discriminator, the
/// authority, the little-endian byte length of the URI's UTF-8 form,
/// then those bytes.
pub open spec fn spec_encode_device(authority: Seq<u8>, uri: Seq<char>) -> Seq<u8> {
    Seq::new(8, |i: int| 0u8) + authority + spec_u32_to_le_bytes(
        encode_utf8(uri).len() as u32,
    ) + encode_utf8(uri)
}

/// Encode an authority and a URI as a device account buffer.
pub fn encode_device(authority: &Vec<u8>, uri: &str) -> (buf: Vec<u8>)
    requires
        authority@.len() == 32,
        encode_utf8(uri@).len() <= u32::MAX,
        44 + encode_utf8(uri@).len() <= usize::MAX,
    ensures
        buf@ == spec_encode_device(authority@, uri@),
{
    let mut buf: Vec<u8> = Vec::new();
    let mut i: usize = 0;
    while i < 8
        invariant
            i <= 8,
            buf@ =~= Seq::new(i as nat, |j: int| 0u8),
        decreases 8 - i,
    {
        buf.push(0u8);
        i = i + 1;
    }
    let mut auth = slice_to_vec(authority.as_slice());
    buf.append(&mut auth);
    let uri_bytes = uri.as_bytes();
    let len32 = uri_bytes.len() as u32;
    let mut len_bytes = u32_to_le_bytes(len32);
    buf.append(&mut len_bytes);
    let mut uri_vec = slice_to_vec(uri_bytes);
    buf.append(&mut uri_vec);
    assert(buf@ =~= spec_encode_device(authority@, uri@));
    buf
}

/// Encoding a device record and decoding the buffer gives back exactly
/// the authority and URI that were encoded.
pub proof fn lemma_device_round_trip(authority: Seq<u8>, uri: Seq<char>)
    requires
        authority.len() == 32,
        encode_utf8(uri).len() <= u32::MAX,
    ensures
        device_decode_ok(spec_encode_device(authority, uri)),
        spec_device(spec_encode_device(authority, uri)).authority == authority,
        spec_device(spec_encode_device(authority, uri)).uri == uri,
{
    let n = encode_utf8(uri).len();
    let buf = spec_encode_device(authority, uri);
    lemma_auto_spec_u32_to_from_le_bytes();
    assert(buf.subrange(40, 44) =~= spec_u32_to_le_bytes(n as u32));
    assert(spec_uri_len(buf) == n as u32);
    assert(spec_uri_bytes(buf) =~= encode_utf8(uri));
    encode_utf8_valid_utf8(uri);
    encode_utf8_decode_utf8(uri);
    assert(spec_authority(buf) =~= authority);
}

/// Decoding any buffer shorter than the fixed device fields fails; no
/// such buffer satisfies `device_decode_ok`.
pub proof fn lemma_decode_rejects_truncation(data: Seq<u8>)
    requires
        data.len() < 44,
    ensures
        !device_decode_ok(data),
{
}

} // verus!
