//! End-to-end tests: text in, transaction record out.

use ethtx::input::decode_transaction;
use ethtx::transaction::{parse_eth_tx, TransactionData};
use ethtx::Error;

/// The RLP encoding of a legacy transaction with nonce 1, gas price 1,
/// gas limit 21000, a zero target address, value 0, empty data, and
/// one-byte signature components.
fn sample_tx_bytes() -> Vec<u8> {
    let mut bytes = vec![0xdfu8]; // list tag, 31 payload bytes
    bytes.push(0x01); // nonce
    bytes.push(0x01); // gas price
    bytes.extend_from_slice(&[0x82, 0x52, 0x08]); // gas limit 21000
    bytes.push(0x94); // 20-byte target address
    bytes.extend_from_slice(&[0x00; 20]);
    bytes.push(0x80); // value: empty string
    bytes.push(0x80); // data: empty string
    bytes.push(0x1b); // v
    bytes.push(0x01); // r
    bytes.push(0x02); // s
    bytes
}

fn check_sample_fields(tx: &ethtx::transaction::Transaction) {
    assert_eq!(tx.nonce, 1);
    assert_eq!(tx.gas, 1);
    assert_eq!(tx.gas_limit, 21000);
    let zeros: String = "00".repeat(20);
    assert_eq!(tx.target_address, format!("0x{}", zeros));
    assert_eq!(tx.value, 0);
    assert_eq!(tx.data, "0x");
    assert_eq!(tx.v, "0x1b");
    assert_eq!(tx.r, "0x01");
    assert_eq!(tx.s, "0x02");
}

#[test]
fn legacy_transaction_from_hex() {
    let text = hex::encode(sample_tx_bytes());
    match decode_transaction(&text, false) {
        Ok(TransactionData::SubmittableTransaction(tx)) => check_sample_fields(&tx),
        other => panic!("unexpected result: {:?}", other),
    }
}

#[test]
fn legacy_transaction_from_prefixed_hex() {
    let text = format!("0x{}", hex::encode(sample_tx_bytes()));
    match decode_transaction(&text, false) {
        Ok(TransactionData::SubmittableTransaction(tx)) => check_sample_fields(&tx),
        other => panic!("unexpected result: {:?}", other),
    }
}

#[test]
fn legacy_transaction_from_base64() {
    let text = base64::encode(sample_tx_bytes());
    match decode_transaction(&text, false) {
        Ok(TransactionData::SubmittableTransaction(tx)) => check_sample_fields(&tx),
        other => panic!("unexpected result: {:?}", other),
    }
}

#[test]
fn surrounding_whitespace_is_trimmed() {
    let text = format!("  {}\n", hex::encode(sample_tx_bytes()));
    match decode_transaction(&text, false) {
        Ok(TransactionData::SubmittableTransaction(tx)) => check_sample_fields(&tx),
        other => panic!("unexpected result: {:?}", other),
    }
}

#[test]
fn estimate_mode_peels_sender() {
    let mut bytes = vec![0x11u8; 20];
    bytes.extend_from_slice(&sample_tx_bytes());
    let text = hex::encode(&bytes);
    match decode_transaction(&text, true) {
        Ok(TransactionData::TransactionWithSender(addr, tx)) => {
            assert_eq!(addr, format!("0x{}", "11".repeat(20)));
            check_sample_fields(&tx);
        }
        other => panic!("unexpected result: {:?}", other),
    }
}

#[test]
fn estimate_mode_matches_plain_record() {
    let mut with_addr = vec![0xabu8; 20];
    with_addr.extend_from_slice(&sample_tx_bytes());
    let plain = parse_eth_tx(&sample_tx_bytes(), false).unwrap();
    let paired = parse_eth_tx(&with_addr, true).unwrap();
    match (plain, paired) {
        (
            TransactionData::SubmittableTransaction(tx1),
            TransactionData::TransactionWithSender(addr, tx2),
        ) => {
            assert_eq!(addr, format!("0x{}", "ab".repeat(20)));
            assert_eq!(tx1, tx2);
        }
        other => panic!("unexpected result: {:?}", other),
    }
}

#[test]
fn estimate_mode_needs_twenty_bytes() {
    let bytes = vec![0x11u8; 19];
    assert_eq!(parse_eth_tx(&bytes, true), Err(Error::RlpError));
}

#[test]
fn truncated_input_rejected() {
    // declared string length exceeds the remaining bytes
    assert_eq!(decode_transaction("8501", false), Err(Error::RlpError));
}

#[test]
fn non_list_transaction_rejected() {
    assert_eq!(decode_transaction("01", false), Err(Error::RlpError));
}

#[test]
fn eight_element_list_rejected() {
    let mut bytes = vec![0xc8u8];
    bytes.extend_from_slice(&[0x01; 8]);
    assert_eq!(parse_eth_tx(&bytes, false), Err(Error::RlpError));
}

#[test]
fn nine_element_list_accepted() {
    let mut bytes = vec![0xc9u8];
    bytes.extend_from_slice(&[0x01; 9]);
    match parse_eth_tx(&bytes, false) {
        Ok(TransactionData::SubmittableTransaction(tx)) => {
            assert_eq!(tx.nonce, 1);
            assert_eq!(tx.s, "0x01");
        }
        other => panic!("unexpected result: {:?}", other),
    }
}

#[test]
fn list_field_in_scalar_slot_rejected() {
    // nine elements, but the first is itself a list
    let mut bytes = vec![0xcau8, 0xc0];
    bytes.extend_from_slice(&[0x01; 9]);
    assert_eq!(parse_eth_tx(&bytes, false), Err(Error::RlpError));
}

#[test]
fn unrecognised_text_rejected() {
    assert_eq!(decode_transaction("zz!", false), Err(Error::FormatError));
    assert_eq!(decode_transaction("abc", false), Err(Error::FormatError));
    assert_eq!(decode_transaction("", false), Err(Error::RlpError));
}

#[test]
fn extra_trailing_bytes_ignored() {
    let mut bytes = sample_tx_bytes();
    bytes.extend_from_slice(&[0x99, 0x98]);
    let text = hex::encode(&bytes);
    match decode_transaction(&text, false) {
        Ok(TransactionData::SubmittableTransaction(tx)) => check_sample_fields(&tx),
        other => panic!("unexpected result: {:?}", other),
    }
}
