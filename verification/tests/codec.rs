use docstore::codec::{bytes_eq, decode_ops, encode_ops};
use docstore::document::{Document, Transaction};

#[test]
fn encoded_fragment_has_exact_wire_form() {
    let ops: Vec<(Vec<u8>, Vec<u8>)> = vec![(b"k".to_vec(), b"ab".to_vec())];
    let bytes = encode_ops(&ops);
    let mut expected: Vec<u8> = Vec::new();
    expected.extend_from_slice(&1u64.to_le_bytes());
    expected.extend_from_slice(&1u64.to_le_bytes());
    expected.push(b'k');
    expected.extend_from_slice(&2u64.to_le_bytes());
    expected.extend_from_slice(b"ab");
    assert_eq!(bytes, expected);
}

#[test]
fn decode_inverts_encode() {
    let ops: Vec<(Vec<u8>, Vec<u8>)> = vec![
        (b"name".to_vec(), b"Team A".to_vec()),
        (Vec::new(), Vec::new()),
        (b"avatar".to_vec(), vec![0, 1, 2, 255]),
    ];
    let bytes = encode_ops(&ops);
    let decoded = decode_ops(bytes.as_slice()).unwrap();
    assert_eq!(decoded, ops);
}

#[test]
fn empty_fragment_round_trips() {
    let ops: Vec<(Vec<u8>, Vec<u8>)> = Vec::new();
    let bytes = encode_ops(&ops);
    assert_eq!(bytes, 0u64.to_le_bytes().to_vec());
    let decoded = decode_ops(bytes.as_slice()).unwrap();
    assert!(decoded.is_empty());
}

#[test]
fn truncated_or_garbage_bytes_do_not_decode() {
    assert!(decode_ops(&[]).is_none());
    assert!(decode_ops(&[1, 2, 3]).is_none());
    // a count of one assignment but no bytes for it
    assert!(decode_ops(&1u64.to_le_bytes()).is_none());
    // trailing bytes after the declared assignments
    let ops: Vec<(Vec<u8>, Vec<u8>)> = vec![(b"k".to_vec(), b"v".to_vec())];
    let mut bytes = encode_ops(&ops);
    bytes.push(0);
    assert!(decode_ops(bytes.as_slice()).is_none());
}

#[test]
fn bytes_eq_compares_contents() {
    assert!(bytes_eq(b"abc", b"abc"));
    assert!(!bytes_eq(b"abc", b"abd"));
    assert!(!bytes_eq(b"abc", b"ab"));
    assert!(bytes_eq(b"", b""));
}

#[test]
fn committed_transaction_fragment_replays_onto_a_fresh_document() {
    let mut doc = Document::new(String::from("doc-1"));
    let mut txn = Transaction::new();
    txn.set_metadata(b"name".to_vec(), b"Team A".to_vec());
    txn.set_metadata(b"avatar".to_vec(), b"cat.png".to_vec());
    let fragment = doc.commit(txn);

    let mut other = Document::new(String::from("doc-1"));
    assert!(other.apply_fragment(fragment.as_slice()));
    assert_eq!(other.get_metadata(b"name"), Some(b"Team A".to_vec()));
    assert_eq!(other.get_metadata(b"avatar"), Some(b"cat.png".to_vec()));
    assert_eq!(other.get_metadata(b"missing"), None);
}

#[test]
fn last_write_wins_within_a_transaction() {
    let mut doc = Document::new(String::from("doc-1"));
    let mut txn = Transaction::new();
    txn.set_metadata(b"name".to_vec(), b"first".to_vec());
    txn.set_metadata(b"name".to_vec(), b"second".to_vec());
    doc.commit(txn);
    assert_eq!(doc.get_metadata(b"name"), Some(b"second".to_vec()));
}

#[test]
fn snapshot_replays_to_the_same_metadata() {
    let mut doc = Document::new(String::from("doc-1"));
    let mut txn = Transaction::new();
    txn.set_metadata(b"name".to_vec(), b"Team A".to_vec());
    doc.commit(txn);
    let mut txn2 = Transaction::new();
    txn2.set_metadata(b"name".to_vec(), b"Team B".to_vec());
    txn2.set_metadata(b"color".to_vec(), b"green".to_vec());
    doc.commit(txn2);

    let snapshot = doc.snapshot();
    let fragments = vec![snapshot];
    let replayed = Document::replay(String::from("doc-1"), &fragments).unwrap();
    assert_eq!(replayed.get_metadata(b"name"), Some(b"Team B".to_vec()));
    assert_eq!(replayed.get_metadata(b"color"), Some(b"green".to_vec()));
}

#[test]
fn replay_fails_on_an_invalid_fragment() {
    let fragments = vec![vec![1, 2, 3]];
    assert!(Document::replay(String::from("doc-1"), &fragments).is_none());
}

#[test]
fn replay_of_no_fragments_is_an_empty_document() {
    let fragments: Vec<Vec<u8>> = Vec::new();
    let replayed = Document::replay(String::from("doc-1"), &fragments).unwrap();
    assert_eq!(replayed.get_metadata(b"name"), None);
}
