//! Blocks and the digest that chains them.

use crate::text::{
    copy_bytes, decimal, hex_text, lemma_decimal_injective, lemma_middle_cancels, push_bytes,
    push_decimal, to_hex,
};
use crate::tx::{
    clone_transactions, json_transactions, push_json_transactions, tx_views, Transaction,
    TransactionView,
};
use sha2::{Digest, Sha256};
use vstd::prelude::*;
use vstd::string::*;
use vstd::utf8::*;

verus! {

/// The SHA-256 digest of a byte string.
pub uninterp spec fn sha256_digest(data: Seq<u8>) -> Seq<u8>;

/// Calls `Sha256::digest` of the `sha2` crate on `data`. Believed, not
/// proved: the 32 bytes returned are the SHA-256 digest of `data`, a
/// function of `data` alone.
#[verifier::external_body]
fn sha256(data: &[u8]) -> (r: Vec<u8>)
    ensures
        r@ == sha256_digest(data@),
        r@.len() == 32,
{
    Sha256::digest(data).to_vec()
}

/// An ordered batch of transactions with its place in the chain, its
/// producer, its digest and the producer's signature over the digest.
#[derive(Debug)]
pub struct Block {
    pub index: u64,
    pub timestamp: u64,
    pub previous_hash: String,
    pub transactions: Vec<Transaction>,
    pub producer: String,
    pub hash: String,
    pub signature: Vec<u8>,
}

/// The mathematical content of a [`Block`].
pub ghost struct BlockView {
    pub index: u64,
    pub timestamp: u64,
    pub previous_hash: Seq<char>,
    pub transactions: Seq<TransactionView>,
    pub producer: Seq<char>,
    pub hash: Seq<char>,
    pub signature: Seq<u8>,
}

impl View for Block {
    type V = BlockView;

    open spec fn view(&self) -> BlockView {
        BlockView {
            index: self.index,
            timestamp: self.timestamp,
            previous_hash: self.previous_hash@,
            transactions: tx_views(self.transactions@),
            producer: self.producer@,
            hash: self.hash@,
            signature: self.signature@,
        }
    }
}

/// The views of a sequence of blocks, in order.
pub open spec fn block_views(s: Seq<Block>) -> Seq<BlockView> {
    s.map_values(|b: Block| b@)
}

/// The bytes that a block's digest is taken over: index and timestamp in
/// decimal, the predecessor's digest, the canonical JSON of the transactions
/// and the producer, in this order and with nothing between them.
pub open spec fn hash_preimage(
    index: u64,
    timestamp: u64,
    previous_hash: Seq<char>,
    transactions: Seq<TransactionView>,
    producer: Seq<char>,
) -> Seq<u8> {
    decimal(index as nat) + decimal(timestamp as nat) + encode_utf8(previous_hash)
        + json_transactions(transactions) + encode_utf8(producer)
}

/// A block's digest: the SHA-256 of its preimage in lowercase hexadecimal.
pub open spec fn block_hash(
    index: u64,
    timestamp: u64,
    previous_hash: Seq<char>,
    transactions: Seq<TransactionView>,
    producer: Seq<char>,
) -> Seq<char> {
    hex_text(sha256_digest(hash_preimage(index, timestamp, previous_hash, transactions, producer)))
}

/// Whether a block carries the digest of its own fields.
pub open spec fn hash_matches(b: BlockView) -> bool {
    b.hash == block_hash(b.index, b.timestamp, b.previous_hash, b.transactions, b.producer)
}

/// Builds the bytes that a block's digest is taken over.
pub fn preimage_bytes(
    index: u64,
    timestamp: u64,
    previous_hash: &str,
    transactions: &Vec<Transaction>,
    producer: &str,
) -> (r: Vec<u8>)
    ensures
        r@ == hash_preimage(index, timestamp, previous_hash@, tx_views(transactions@), producer@),
{
    let mut r: Vec<u8> = Vec::new();
    push_decimal(&mut r, index);
    push_decimal(&mut r, timestamp);
    push_bytes(&mut r, previous_hash.as_bytes());
    push_json_transactions(&mut r, transactions);
    push_bytes(&mut r, producer.as_bytes());
    proof {
        assert(r@ =~= hash_preimage(
            index,
            timestamp,
            previous_hash@,
            tx_views(transactions@),
            producer@,
        ));
    }
    r
}

impl Block {
    /// Builds a block from its fields and computes its digest. The signature
    /// is stored as given and not verified.
    pub fn new(
        index: u64,
        timestamp: u64,
        previous_hash: String,
        transactions: Vec<Transaction>,
        producer: String,
        signature: Vec<u8>,
    ) -> (r: Block)
        ensures
            r@ == (BlockView {
                index,
                timestamp,
                previous_hash: previous_hash@,
                transactions: tx_views(transactions@),
                producer: producer@,
                hash: block_hash(
                    index,
                    timestamp,
                    previous_hash@,
                    tx_views(transactions@),
                    producer@,
                ),
                signature: signature@,
            }),
            hash_matches(r@),
    {
        let hash = Self::calculate_hash(
            index,
            timestamp,
            previous_hash.as_str(),
            &transactions,
            producer.as_str(),
        );
        Block { index, timestamp, previous_hash, transactions, producer, hash, signature }
    }

    /// The digest of a block with these fields, as 64 lowercase hexadecimal
    /// characters.
    pub fn calculate_hash(
        index: u64,
        timestamp: u64,
        previous_hash: &str,
        transactions: &Vec<Transaction>,
        producer: &str,
    ) -> (r: String)
        ensures
            r@ == block_hash(index, timestamp, previous_hash@, tx_views(transactions@), producer@),
            r@.len() == 64,
    {
        let input = preimage_bytes(index, timestamp, previous_hash, transactions, producer);
        let digest = sha256(input.as_slice());
        proof {
            lemma_hex_text_len(digest@);
        }
        to_hex(digest.as_slice())
    }
}

impl Clone for Block {
    fn clone(&self) -> (r: Self)
        ensures
            r@ == self@,
    {
        Block {
            index: self.index,
            timestamp: self.timestamp,
            previous_hash: self.previous_hash.clone(),
            transactions: clone_transactions(&self.transactions),
            producer: self.producer.clone(),
            hash: self.hash.clone(),
            signature: copy_bytes(self.signature.as_slice()),
        }
    }
}

/// Hexadecimal text has two characters for each byte.
pub proof fn lemma_hex_text_len(bytes: Seq<u8>)
    ensures
        hex_text(bytes).len() == 2 * bytes.len(),
    decreases bytes.len(),
{
    if bytes.len() > 0 {
        lemma_hex_text_len(bytes.drop_last());
    }
}

/// The digest is a function of the five hashed fields: equal fields give
/// equal digests.
pub proof fn lemma_hash_deterministic(a: BlockView, b: BlockView)
    requires
        a.index == b.index,
        a.timestamp == b.timestamp,
        a.previous_hash == b.previous_hash,
        a.transactions == b.transactions,
        a.producer == b.producer,
    ensures
        block_hash(a.index, a.timestamp, a.previous_hash, a.transactions, a.producer)
            == block_hash(b.index, b.timestamp, b.previous_hash, b.transactions, b.producer),
        hash_matches(a) && hash_matches(b) ==> a.hash == b.hash,
{
}

/// A change of the index alone, of the timestamp alone, of the predecessor's
/// digest alone or of the producer alone changes the bytes that the digest
/// is taken over.
pub proof fn lemma_preimage_tells_fields_apart(a: BlockView, b: BlockView)
    requires
        a.transactions == b.transactions,
        ({
            ||| a.index != b.index && a.timestamp == b.timestamp && a.previous_hash
                == b.previous_hash && a.producer == b.producer
            ||| a.index == b.index && a.timestamp != b.timestamp && a.previous_hash
                == b.previous_hash && a.producer == b.producer
            ||| a.index == b.index && a.timestamp == b.timestamp && a.previous_hash
                != b.previous_hash && a.producer == b.producer
            ||| a.index == b.index && a.timestamp == b.timestamp && a.previous_hash
                == b.previous_hash && a.producer != b.producer
        }),
    ensures
        hash_preimage(a.index, a.timestamp, a.previous_hash, a.transactions, a.producer)
            != hash_preimage(b.index, b.timestamp, b.previous_hash, b.transactions, b.producer),
{
    let pa = hash_preimage(a.index, a.timestamp, a.previous_hash, a.transactions, a.producer);
    let pb = hash_preimage(b.index, b.timestamp, b.previous_hash, b.transactions, b.producer);
    let ia = decimal(a.index as nat);
    let ib = decimal(b.index as nat);
    let ta = decimal(a.timestamp as nat);
    let tb = decimal(b.timestamp as nat);
    let ha = encode_utf8(a.previous_hash);
    let hb = encode_utf8(b.previous_hash);
    let j = json_transactions(a.transactions);
    let ra = encode_utf8(a.producer);
    let rb = encode_utf8(b.producer);
    let none = Seq::<u8>::empty();
    if pa == pb {
        if a.index != b.index {
            assert(pa =~= none + ia + (ta + ha + j + ra));
            assert(pb =~= none + ib + (ta + ha + j + ra));
            lemma_middle_cancels(none, ia, ib, ta + ha + j + ra);
            lemma_decimal_injective(a.index as nat, b.index as nat);
        } else if a.timestamp != b.timestamp {
            assert(pa =~= ia + ta + (ha + j + ra));
            assert(pb =~= ia + tb + (ha + j + ra));
            lemma_middle_cancels(ia, ta, tb, ha + j + ra);
            lemma_decimal_injective(a.timestamp as nat, b.timestamp as nat);
        } else if a.previous_hash != b.previous_hash {
            assert(pa =~= (ia + ta) + ha + (j + ra));
            assert(pb =~= (ia + ta) + hb + (j + ra));
            lemma_middle_cancels(ia + ta, ha, hb, j + ra);
            encode_utf8_decode_utf8(a.previous_hash);
            encode_utf8_decode_utf8(b.previous_hash);
        } else {
            assert(pa =~= (ia + ta + ha + j) + ra + none);
            assert(pb =~= (ia + ta + ha + j) + rb + none);
            lemma_middle_cancels(ia + ta + ha + j, ra, rb, none);
            encode_utf8_decode_utf8(a.producer);
            encode_utf8_decode_utf8(b.producer);
        }
    }
}

} // verus!
