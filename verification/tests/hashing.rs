use aurora_chain::block::{preimage_bytes, Block};
use aurora_chain::text::{
    push_bytes, push_decimal, push_json_byte_array, push_json_escape, push_json_string, to_hex,
};
use aurora_chain::tx::{clone_transactions, push_json_transactions, push_json_tx, Transaction};

fn mint(to: &str, amount: u64) -> Transaction {
    Transaction {
        from: "GENESIS".to_string(),
        to: to.to_string(),
        amount,
        public_key: (1u8..=32).collect(),
        signature: vec![0u8; 64],
    }
}

fn odd() -> Transaction {
    Transaction {
        from: "a\"b".to_string(),
        to: "c\\d\n\u{1}".to_string(),
        amount: u64::MAX,
        public_key: vec![],
        signature: vec![255, 0],
    }
}

fn text(bytes: Vec<u8>) -> String {
    String::from_utf8(bytes).unwrap()
}

#[test]
fn decimal_text_of_numbers() {
    let mut out = b"x".to_vec();
    push_decimal(&mut out, 0);
    push_bytes(&mut out, b",");
    push_decimal(&mut out, 7);
    push_bytes(&mut out, b",");
    push_decimal(&mut out, 10);
    push_bytes(&mut out, b",");
    push_decimal(&mut out, 1700000000);
    push_bytes(&mut out, b",");
    push_decimal(&mut out, u64::MAX);
    assert_eq!(text(out), "x0,7,10,1700000000,18446744073709551615");
}

#[test]
fn hex_text_is_lowercase_two_digits_per_byte() {
    assert_eq!(to_hex(&[]), "");
    assert_eq!(to_hex(&[0x00, 0x09, 0x0a, 0xab, 0xff, 0x10]), "00090aabff10");
}

#[test]
fn json_string_escapes() {
    let mut out = Vec::new();
    push_json_string(&mut out, "plain".as_bytes());
    assert_eq!(text(out), "\"plain\"");
    let mut out = Vec::new();
    push_json_string(&mut out, "q\"b\\s\u{8}\u{c}\n\r\t\u{0}\u{1f}\u{7f}é".as_bytes());
    assert_eq!(text(out), "\"q\\\"b\\\\s\\b\\f\\n\\r\\t\\u0000\\u001f\u{7f}é\"");
    let mut out = Vec::new();
    push_json_string(&mut out, b"");
    assert_eq!(text(out), "\"\"");
}

#[test]
fn json_escape_of_single_bytes() {
    let mut out = Vec::new();
    push_json_escape(&mut out, 0x0b);
    push_json_escape(&mut out, b'a');
    push_json_escape(&mut out, 0x1a);
    assert_eq!(text(out), "\\u000ba\\u001a");
}

#[test]
fn json_byte_arrays() {
    let mut out = Vec::new();
    push_json_byte_array(&mut out, &[]);
    push_json_byte_array(&mut out, &[7]);
    push_json_byte_array(&mut out, &[0, 10, 255]);
    assert_eq!(text(out), "[][7][0,10,255]");
}

#[test]
fn canonical_json_of_a_transaction() {
    let mut out = Vec::new();
    push_json_tx(&mut out, &odd());
    assert_eq!(
        text(out),
        "{\"from\":\"a\\\"b\",\"to\":\"c\\\\d\\n\\u0001\",\"amount\":18446744073709551615,\"public_key\":[],\"signature\":[255,0]}"
    );
}

#[test]
fn canonical_json_of_a_batch() {
    let mut out = Vec::new();
    push_json_transactions(&mut out, &vec![]);
    assert_eq!(text(out), "[]");
    let mut out = Vec::new();
    push_json_transactions(&mut out, &vec![odd(), odd()]);
    let one = "{\"from\":\"a\\\"b\",\"to\":\"c\\\\d\\n\\u0001\",\"amount\":18446744073709551615,\"public_key\":[],\"signature\":[255,0]}";
    assert_eq!(text(out), format!("[{},{}]", one, one));
}

#[test]
fn preimage_concatenates_the_five_fields() {
    let bytes = preimage_bytes(12, 34, "prev", &vec![], "me");
    assert_eq!(text(bytes), "1234prev[]me");
}

#[test]
fn hash_of_an_empty_block() {
    let h = Block::calculate_hash(0, 1700000000, "0", &vec![], "GENESIS");
    assert_eq!(h, "f84c1abb1075ff463edf186344abb5f67fecda880621e1e24414754eb645484d");
}

#[test]
fn hash_of_a_block_with_one_transaction() {
    let h = Block::calculate_hash(1, 1700000001, "abc", &vec![mint("alice", 100)], "GENESIS");
    assert_eq!(h, "afba560963453ff1c54842e3045366a1d89dd9c864af0c2c741b174e042638fe");
}

#[test]
fn hash_of_a_block_with_escaped_names() {
    let h = Block::calculate_hash(2, 5, "ff", &vec![mint("alice", 100), odd()], "a\"b");
    assert_eq!(h, "9d138be10fef3b0077ce788fbccaa603d028663fb509dd1547e1386b4c3bd0b1");
}

#[test]
fn hash_is_deterministic() {
    let txs = vec![mint("alice", 100), odd()];
    let a = Block::calculate_hash(3, 9, "p", &txs, "x");
    let b = Block::calculate_hash(3, 9, "p", &clone_transactions(&txs), "x");
    assert_eq!(a, b);
    assert_eq!(a.len(), 64);
    assert!(a.bytes().all(|c| c.is_ascii_digit() || (b'a'..=b'f').contains(&c)));
}

#[test]
fn hash_changes_with_each_field() {
    let txs = vec![mint("alice", 100)];
    let base = Block::calculate_hash(3, 9, "p", &txs, "x");
    assert_ne!(base, Block::calculate_hash(4, 9, "p", &txs, "x"));
    assert_ne!(base, Block::calculate_hash(3, 10, "p", &txs, "x"));
    assert_ne!(base, Block::calculate_hash(3, 9, "q", &txs, "x"));
    assert_ne!(base, Block::calculate_hash(3, 9, "p", &txs, "y"));
    assert_ne!(base, Block::calculate_hash(3, 9, "p", &vec![mint("alice", 101)], "x"));
    assert_ne!(base, Block::calculate_hash(3, 9, "p", &vec![mint("bob", 100)], "x"));
    let mut other_key = mint("alice", 100);
    other_key.public_key[0] = 9;
    assert_ne!(base, Block::calculate_hash(3, 9, "p", &vec![other_key], "x"));
    let mut other_sig = mint("alice", 100);
    other_sig.signature[63] = 1;
    assert_ne!(base, Block::calculate_hash(3, 9, "p", &vec![other_sig], "x"));
    let mut other_from = mint("alice", 100);
    other_from.from = "carol".to_string();
    assert_ne!(base, Block::calculate_hash(3, 9, "p", &vec![other_from], "x"));
}

#[test]
fn new_block_stores_fields_and_digest() {
    let b = Block::new(
        1,
        1700000001,
        "abc".to_string(),
        vec![mint("alice", 100)],
        "GENESIS".to_string(),
        vec![7u8; 64],
    );
    assert_eq!(b.index, 1);
    assert_eq!(b.timestamp, 1700000001);
    assert_eq!(b.previous_hash, "abc");
    assert_eq!(b.transactions.len(), 1);
    assert_eq!(b.transactions[0].to, "alice");
    assert_eq!(b.transactions[0].amount, 100);
    assert_eq!(b.producer, "GENESIS");
    assert_eq!(b.hash, "afba560963453ff1c54842e3045366a1d89dd9c864af0c2c741b174e042638fe");
    assert_eq!(b.signature, vec![7u8; 64]);
    let c = b.clone();
    assert_eq!(c.hash, b.hash);
    assert_eq!(c.transactions[0].public_key, b.transactions[0].public_key);
    assert_eq!(c.signature, b.signature);
}
