use aurora_chain::block::Block;
use aurora_chain::chain::Blockchain;
use aurora_chain::tx::Transaction;
use aurora_chain::wallet::Wallet;

fn pay(from: &str, to: &str, amount: u64) -> Transaction {
    Transaction {
        from: from.to_string(),
        to: to.to_string(),
        amount,
        public_key: vec![3u8; 32],
        signature: vec![4u8; 64],
    }
}

#[test]
fn empty_store_gets_a_genesis_block() {
    let chain = Blockchain::new(vec![], 1700000000);
    assert_eq!(chain.length, 1);
    let g = chain.get_block(0).unwrap();
    assert_eq!(g.index, 0);
    assert_eq!(g.timestamp, 1700000000);
    assert_eq!(g.previous_hash, "0");
    assert!(g.transactions.is_empty());
    assert_eq!(g.producer, "GENESIS");
    assert_eq!(g.signature, vec![0u8; 64]);
    assert_eq!(g.hash, "f84c1abb1075ff463edf186344abb5f67fecda880621e1e24414754eb645484d");
    assert!(chain.get_block(1).is_none());
}

#[test]
fn stored_blocks_are_taken_as_found() {
    let a = Block::new(0, 1, "0".to_string(), vec![], "GENESIS".to_string(), vec![0u8; 64]);
    let b = Block::new(1, 2, a.hash.clone(), vec![pay("x", "y", 1)], "x".to_string(), vec![1u8; 64]);
    let chain = Blockchain::new(vec![a.clone(), b.clone()], 99);
    assert_eq!(chain.length, 2);
    assert_eq!(chain.get_block(0).unwrap().hash, a.hash);
    assert_eq!(chain.get_block(0).unwrap().timestamp, 1);
    assert_eq!(chain.get_block(1).unwrap().hash, b.hash);
    assert!(chain.get_block(2).is_none());
    assert!(chain.get_block(u64::MAX).is_none());
}

#[test]
fn append_adds_one_block_at_the_end() {
    let mut chain = Blockchain::new(vec![], 10);
    let genesis = chain.get_block(0).unwrap();
    let txs = vec![pay("alice", "bob", 5), pay("bob", "carol", 2)];
    let expected = chain.next_block_hash(&txs, 11);
    let b = chain.append_signed(txs, 11, vec![9u8; 64]);
    assert_eq!(chain.length, 2);
    assert_eq!(b.index, 1);
    assert_eq!(b.timestamp, 11);
    assert_eq!(b.previous_hash, genesis.hash);
    assert_eq!(b.producer, "alice");
    assert_eq!(b.transactions.len(), 2);
    assert_eq!(b.signature, vec![9u8; 64]);
    assert_eq!(b.hash, expected);
    assert_eq!(
        b.hash,
        Block::calculate_hash(1, 11, &genesis.hash, &vec![pay("alice", "bob", 5), pay("bob", "carol", 2)], "alice")
    );
    let found = chain.get_block(chain.length - 1).unwrap();
    assert_eq!(found.hash, b.hash);
    assert_eq!(found.index, 1);
    assert_eq!(found.transactions[1].to, "carol");
    assert!(chain.get_block(2).is_none());
}

#[test]
fn appended_blocks_are_linked() {
    let mut chain = Blockchain::new(vec![], 10);
    for i in 0..5u64 {
        chain.append_signed(vec![pay("GENESIS", "alice", i)], 20 + i, vec![0u8; 64]);
    }
    assert_eq!(chain.length, 6);
    for i in 1..chain.length {
        let cur = chain.get_block(i).unwrap();
        let prev = chain.get_block(i - 1).unwrap();
        assert_eq!(cur.previous_hash, prev.hash);
        assert_eq!(cur.index, i);
    }
}

#[test]
fn add_block_signs_the_digest_with_the_producers_key() {
    let wallet = Wallet::generate("alice");
    let mut chain = Blockchain::new(vec![], 10);
    let b = chain.add_block(vec![pay("alice", "bob", 5)], 12, &wallet).unwrap();
    assert_eq!(chain.length, 2);
    assert_eq!(b.producer, "alice");
    assert_eq!(b.signature.len(), 64);
    assert!(Wallet::verify(&wallet.public_key(), b.hash.as_bytes(), &b.signature));
    assert!(!Wallet::verify(&wallet.public_key(), b.previous_hash.as_bytes(), &b.signature));
    assert_eq!(chain.get_block(1).unwrap().signature, b.signature);
}

#[test]
fn add_block_without_a_key_pair_appends_nothing() {
    let wallet = Wallet { name: "alice".to_string(), secret: vec![1, 2, 3], public: vec![] };
    let mut chain = Blockchain::new(vec![], 10);
    assert!(chain.add_block(vec![pay("alice", "bob", 5)], 12, &wallet).is_none());
    assert_eq!(chain.length, 1);
    assert!(chain.get_block(1).is_none());
}
