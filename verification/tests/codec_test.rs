//! The envelope codec against an independent deterministic-binary
//! implementation: the byte layout must agree field for field.

use rapido::SignedTransaction;

type Tuple = (Vec<u8>, String, u8, Vec<u8>, u64);

fn sample() -> SignedTransaction {
    SignedTransaction::new(
        vec![9, 8, 7],
        b"counter".to_vec(),
        3u8,
        vec![1, 2, 3, 4, 5],
        0xdead_beef_u64,
    )
}

#[test]
fn encoding_matches_reference_implementation() {
    let tx = sample();
    let ours = tx.encode();
    let reference: Tuple = (
        vec![9, 8, 7],
        "counter".to_string(),
        3u8,
        vec![1, 2, 3, 4, 5],
        0xdead_beef_u64,
    );
    let theirs = borsh::to_vec(&reference).unwrap();
    assert_eq!(theirs, ours);
}

#[test]
fn reference_implementation_reads_our_encoding() {
    let tx = sample();
    let bytes = tx.encode();
    let (sender, route, txid, payload, nonce): Tuple = borsh::from_slice(&bytes).unwrap();
    assert_eq!(vec![9, 8, 7], sender);
    assert_eq!("counter", route);
    assert_eq!(3u8, txid);
    assert_eq!(vec![1, 2, 3, 4, 5], payload);
    assert_eq!(0xdead_beef_u64, nonce);
}

#[test]
fn decode_rejects_trailing_bytes() {
    let mut bytes = sample().encode();
    bytes.push(0);
    assert!(rapido::codec::decode_signed_tx(&bytes).is_none());
}

#[test]
fn decode_rejects_truncation() {
    let bytes = sample().encode();
    for cut in 0..bytes.len() {
        let prefix = bytes[..cut].to_vec();
        assert!(rapido::codec::decode_signed_tx(&prefix).is_none());
    }
}

#[test]
fn decode_round_trips() {
    let bytes = sample().encode();
    let tx = rapido::codec::decode_signed_tx(&bytes).unwrap();
    assert_eq!(vec![9, 8, 7], tx.sender);
    assert_eq!(b"counter".to_vec(), tx.route);
    assert_eq!(3u8, tx.txid);
    assert_eq!(vec![1, 2, 3, 4, 5], tx.payload);
    assert_eq!(0xdead_beef_u64, tx.nonce);
}
