use node_mirror::decode::{
    classify_account, deserialize_network_stats, deserialize_node_device, encode_device,
    skip_anchor_discriminator,
};
use node_mirror::records::{AccountLayout, DecodeError};

fn device_buffer(authority: &[u8], uri: &str) -> Vec<u8> {
    let auth: Vec<u8> = authority.to_vec();
    encode_device(&auth, uri)
}

#[test]
fn round_trip_ascii_uri() {
    let authority: Vec<u8> = (0u8..32u8).collect();
    let buf = device_buffer(&authority, "https://example.com/device");
    let node = deserialize_node_device(&buf).unwrap();
    assert_eq!(node.authority, authority);
    assert_eq!(node.uri, "https://example.com/device");
}

#[test]
fn round_trip_multibyte_uri() {
    let authority = [7u8; 32];
    let buf = device_buffer(&authority, "schéma://ノード/α");
    let node = deserialize_node_device(&buf).unwrap();
    assert_eq!(node.authority, authority.to_vec());
    assert_eq!(node.uri, "schéma://ノード/α");
}

#[test]
fn round_trip_empty_uri() {
    let authority = [0xabu8; 32];
    let buf = device_buffer(&authority, "");
    assert_eq!(buf.len(), 44);
    let node = deserialize_node_device(&buf).unwrap();
    assert_eq!(node.authority, authority.to_vec());
    assert_eq!(node.uri, "");
}

#[test]
fn encoded_layout_is_exact() {
    let authority = [9u8; 32];
    let buf = device_buffer(&authority, "ab");
    assert_eq!(&buf[0..8], &[0u8; 8]);
    assert_eq!(&buf[8..40], &[9u8; 32]);
    assert_eq!(&buf[40..44], &[2, 0, 0, 0]);
    assert_eq!(&buf[44..], b"ab");
}

#[test]
fn device_rejects_truncated_buffers() {
    for len in [0usize, 7, 8, 20, 40, 43] {
        let buf = vec![1u8; len];
        assert_eq!(deserialize_node_device(&buf), Err(DecodeError::Truncated));
    }
}

#[test]
fn device_rejects_uri_overrun() {
    let authority = [1u8; 32];
    let mut buf = device_buffer(&authority, "abc");
    // Declare one more byte of URI than the buffer holds.
    buf[40] = 4;
    assert_eq!(deserialize_node_device(&buf), Err(DecodeError::UriOverrun));
}

#[test]
fn device_rejects_invalid_utf8() {
    let authority = [2u8; 32];
    let mut buf = device_buffer(&authority, "ab");
    buf[44] = 0xff;
    buf[45] = 0xfe;
    assert_eq!(deserialize_node_device(&buf), Err(DecodeError::InvalidUtf8));
}

#[test]
fn device_ignores_trailing_uri_bytes_beyond_declared_length() {
    let authority = [3u8; 32];
    let mut buf = device_buffer(&authority, "abc");
    buf[40] = 2; // keep only "ab"
    let node = deserialize_node_device(&buf).unwrap();
    assert_eq!(node.uri, "ab");
}

#[test]
fn stats_reads_little_endian_counter() {
    let mut buf = vec![0u8; 16];
    buf[8] = 0x2a;
    buf[9] = 0x01;
    let stats = deserialize_network_stats(&buf).unwrap();
    assert_eq!(stats.total_nodes, 0x012a);
}

#[test]
fn stats_rejects_short_buffer() {
    assert_eq!(
        deserialize_network_stats(&[0u8; 15]),
        Err(DecodeError::Truncated)
    );
    assert_eq!(deserialize_network_stats(&[]), Err(DecodeError::Truncated));
}

#[test]
fn stats_rejects_trailing_bytes() {
    assert_eq!(
        deserialize_network_stats(&[0u8; 17]),
        Err(DecodeError::TrailingBytes)
    );
}

#[test]
fn classification_is_by_length_alone() {
    assert_eq!(classify_account(&[0u8; 41]), AccountLayout::DeviceLayout);
    assert_eq!(classify_account(&[0u8; 100]), AccountLayout::DeviceLayout);
    assert_eq!(classify_account(&[0u8; 16]), AccountLayout::AggregateLayout);
    assert_eq!(classify_account(&[0u8; 40]), AccountLayout::Unknown);
    assert_eq!(classify_account(&[0u8; 15]), AccountLayout::Unknown);
    assert_eq!(classify_account(&[]), AccountLayout::Unknown);
}

#[test]
fn discriminator_skip_drops_first_eight_bytes() {
    let data: Vec<u8> = (0u8..12u8).collect();
    assert_eq!(skip_anchor_discriminator(&data), &[8, 9, 10, 11]);
}
