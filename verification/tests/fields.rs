//! Tests of the field conversions: raw bytes, hex display strings, and
//! big-endian integers.

use ethtx::convert::{to_big_int, to_bytes, to_string};
use ethtx::rlp::Rlp;
use ethtx::Error;

#[test]
fn bytes_of_string_node() {
    let node = Rlp::String(vec![1, 2, 3]);
    assert_eq!(to_bytes(&node).unwrap(), vec![1, 2, 3]);
}

#[test]
fn bytes_of_list_rejected() {
    let node = Rlp::List(vec![]);
    assert_eq!(to_bytes(&node), Err(Error::RlpError));
}

#[test]
fn int_conversion_empty() {
    let node = Rlp::String(vec![]);
    assert_eq!(to_big_int(&node).unwrap(), 0);
}

#[test]
fn int_conversion_two_bytes() {
    let node = Rlp::String(vec![0x01, 0x00]);
    assert_eq!(to_big_int(&node).unwrap(), 256);
}

#[test]
fn int_conversion_one_byte() {
    let node = Rlp::String(vec![0xff]);
    assert_eq!(to_big_int(&node).unwrap(), 255);
}

#[test]
fn int_conversion_wide() {
    // sixteen bytes fill the 128-bit value exactly
    let node = Rlp::String(vec![0xff; 16]);
    assert_eq!(to_big_int(&node).unwrap(), u128::MAX);
}

#[test]
fn int_conversion_of_list_rejected() {
    let node = Rlp::List(vec![Rlp::String(vec![1])]);
    assert_eq!(to_big_int(&node), Err(Error::RlpError));
}

#[test]
fn hex_conversion_empty() {
    let node = Rlp::String(vec![]);
    assert_eq!(to_string(&node).unwrap(), "0x");
}

#[test]
fn hex_conversion_two_bytes() {
    let node = Rlp::String(vec![0xab, 0xcd]);
    assert_eq!(to_string(&node).unwrap(), "0xabcd");
}

#[test]
fn hex_conversion_leading_zero() {
    let node = Rlp::String(vec![0x00, 0x0f]);
    assert_eq!(to_string(&node).unwrap(), "0x000f");
}

#[test]
fn hex_conversion_of_list_rejected() {
    let node = Rlp::List(vec![]);
    assert_eq!(to_string(&node), Err(Error::RlpError));
}
