//! Tests of the RLP decoder: tag dispatch, length handling, and the
//! guards against oversized and truncated input.

use ethtx::rlp::{parse_element, Rlp};
use ethtx::Error;

#[test]
fn single_byte_round_trip() {
    for b in [0x00u8, 0x01, 0x3c, 0x7e] {
        let data = vec![b];
        let (node, used) = parse_element(&data, 0).unwrap();
        assert_eq!(node, Rlp::String(vec![b]));
        assert_eq!(used, 1);
    }
}

#[test]
fn short_string_empty() {
    let data = vec![0x80u8];
    let (node, used) = parse_element(&data, 0).unwrap();
    assert_eq!(node, Rlp::String(vec![]));
    assert_eq!(used, 1);
}

#[test]
fn short_string_longest() {
    // tag 0xb6 declares 54 bytes
    let mut data = vec![0xb6u8];
    let payload: Vec<u8> = (0..54u8).collect();
    data.extend_from_slice(&payload);
    let (node, used) = parse_element(&data, 0).unwrap();
    assert_eq!(node, Rlp::String(payload));
    assert_eq!(used, 55);
}

#[test]
fn long_string_length_encoding() {
    // tag 0xb8: one length byte; 0xff declares 255 payload bytes
    let mut data = vec![0xb8u8, 0xff];
    let payload = vec![0x5au8; 255];
    data.extend_from_slice(&payload);
    let (node, used) = parse_element(&data, 0).unwrap();
    assert_eq!(node, Rlp::String(payload));
    assert_eq!(used, 257);
}

#[test]
fn long_string_zero_width_length() {
    // tag 0xb7: a zero-byte length field declares an empty string
    let data = vec![0xb7u8];
    let (node, used) = parse_element(&data, 0).unwrap();
    assert_eq!(node, Rlp::String(vec![]));
    assert_eq!(used, 1);
}

#[test]
fn list_composition() {
    let data = vec![0xc2u8, 0x01, 0x02];
    let (node, used) = parse_element(&data, 0).unwrap();
    assert_eq!(
        node,
        Rlp::List(vec![Rlp::String(vec![0x01]), Rlp::String(vec![0x02])])
    );
    assert_eq!(used, 3);
}

#[test]
fn empty_list() {
    let data = vec![0xc0u8];
    let (node, used) = parse_element(&data, 0).unwrap();
    assert_eq!(node, Rlp::List(vec![]));
    assert_eq!(used, 1);
}

#[test]
fn nested_list() {
    // a list holding a byte and a one-element list
    let data = vec![0xc3u8, 0x05, 0xc1, 0x06];
    let (node, used) = parse_element(&data, 0).unwrap();
    assert_eq!(
        node,
        Rlp::List(vec![
            Rlp::String(vec![0x05]),
            Rlp::List(vec![Rlp::String(vec![0x06])]),
        ])
    );
    assert_eq!(used, 4);
}

#[test]
fn trailing_bytes_left_untouched() {
    let data = vec![0x07u8, 0x42, 0x43];
    let (node, used) = parse_element(&data, 0).unwrap();
    assert_eq!(node, Rlp::String(vec![0x07]));
    assert_eq!(used, 1);
}

#[test]
fn parse_at_offset() {
    let data = vec![0xff_u8, 0x81, 0x99];
    let (node, used) = parse_element(&data, 1).unwrap();
    assert_eq!(node, Rlp::String(vec![0x99]));
    assert_eq!(used, 2);
}

#[test]
fn oversize_long_string_rejected() {
    // three length bytes declaring exactly 1,000,000
    let data = vec![0xbau8, 0x0f, 0x42, 0x40];
    assert_eq!(parse_element(&data, 0), Err(Error::RlpError));
}

#[test]
fn oversize_rejected_even_with_enough_bytes() {
    let mut data = vec![0xbau8, 0x0f, 0x42, 0x40];
    data.extend_from_slice(&vec![0u8; 1_000_000]);
    assert_eq!(parse_element(&data, 0), Err(Error::RlpError));
}

#[test]
fn oversize_long_list_rejected() {
    let data = vec![0xfbu8, 0x00, 0x0f, 0x42, 0x40];
    assert_eq!(parse_element(&data, 0), Err(Error::RlpError));
}

#[test]
fn truncated_short_string_rejected() {
    // tag declares five bytes, only one follows
    let data = vec![0x85u8, 0x01];
    assert_eq!(parse_element(&data, 0), Err(Error::RlpError));
}

#[test]
fn truncated_long_string_rejected() {
    // length byte declares five bytes, only one follows
    let data = vec![0xb8u8, 0x05, 0x01];
    assert_eq!(parse_element(&data, 0), Err(Error::RlpError));
}

#[test]
fn truncated_length_field_rejected() {
    // tag 0xba wants three length bytes, only two follow
    let data = vec![0xbau8, 0x00, 0x01];
    assert_eq!(parse_element(&data, 0), Err(Error::RlpError));
}

#[test]
fn truncated_list_payload_rejected() {
    let data = vec![0xc3u8, 0x01];
    assert_eq!(parse_element(&data, 0), Err(Error::RlpError));
}

#[test]
fn empty_input_rejected() {
    let data: Vec<u8> = vec![];
    assert_eq!(parse_element(&data, 0), Err(Error::RlpError));
}

#[test]
fn boundary_tags_rejected() {
    // 0x7f and 0xbf would declare a negative length
    assert_eq!(parse_element(&vec![0x7fu8], 0), Err(Error::RlpError));
    assert_eq!(parse_element(&vec![0xbfu8], 0), Err(Error::RlpError));
}
