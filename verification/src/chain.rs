//! The chain: an append-only sequence of blocks, each linked to the one
//! before it by its digest.

use crate::block::{block_hash, block_views, hash_matches, Block, BlockView};
use crate::tx::{tx_views, Transaction, TransactionView};
use crate::wallet::{ed25519_signature, Wallet};
use vstd::prelude::*;
use vstd::string::*;
use vstd::utf8::*;

verus! {

/// The blocks of the chain from the first one on, and the next free index.
pub struct Blockchain {
    pub blocks: Vec<Block>,
    pub length: u64,
}

/// The first block of a chain made at `timestamp`: no predecessor, no
/// transactions, the sentinel as producer and 64 zero bytes for a signature.
pub open spec fn genesis_block(timestamp: u64) -> BlockView {
    BlockView {
        index: 0,
        timestamp,
        previous_hash: "0"@,
        transactions: Seq::empty(),
        producer: "GENESIS"@,
        hash: block_hash(0, timestamp, "0"@, Seq::empty(), "GENESIS"@),
        signature: Seq::new(64, |i: int| 0u8),
    }
}

/// The chain that is opened over `stored`: `stored` itself, or a chain of
/// one first block where nothing is stored yet.
pub open spec fn opened(stored: Seq<BlockView>, timestamp: u64) -> Seq<BlockView> {
    if stored.len() == 0 {
        seq![genesis_block(timestamp)]
    } else {
        stored
    }
}

/// The digest of the block that would follow `chain` with these
/// transactions: its producer is the sender of the first of them.
pub open spec fn next_hash(
    chain: Seq<BlockView>,
    transactions: Seq<TransactionView>,
    timestamp: u64,
) -> Seq<char> {
    block_hash(
        chain.len() as u64,
        timestamp,
        chain.last().hash,
        transactions,
        transactions[0].from,
    )
}

/// The block that follows `chain` with these transactions and this
/// signature.
pub open spec fn next_block(
    chain: Seq<BlockView>,
    transactions: Seq<TransactionView>,
    timestamp: u64,
    signature: Seq<u8>,
) -> BlockView {
    BlockView {
        index: chain.len() as u64,
        timestamp,
        previous_hash: chain.last().hash,
        transactions,
        producer: transactions[0].from,
        hash: next_hash(chain, transactions, timestamp),
        signature,
    }
}

/// Whether every block but the first names the digest of the one before it.
pub open spec fn linked(chain: Seq<BlockView>) -> bool {
    forall|i: int| 0 < i < chain.len() ==> (#[trigger] chain[i]).previous_hash == chain[i - 1].hash
}

/// Whether `chain` grew by appending alone: it began as a single first
/// block, and every later block was the one that followed the chain before
/// it.
#[verifier::opaque]
pub open spec fn grown(chain: Seq<BlockView>) -> bool
    decreases chain.len(),
{
    if chain.len() == 0 {
        false
    } else if chain.len() == 1 {
        exists|timestamp: u64| chain[0] == #[trigger] genesis_block(timestamp)
    } else {
        grown(chain.drop_last()) && exists|
            transactions: Seq<TransactionView>,
            timestamp: u64,
            signature: Seq<u8>,
        |
            chain.last() == #[trigger] next_block(
                chain.drop_last(),
                transactions,
                timestamp,
                signature,
            )
    }
}

/// The block at `index`, if the chain is that long.
pub open spec fn block_at(chain: Seq<BlockView>, index: u64) -> Option<BlockView> {
    if index < chain.len() {
        Some(chain[index as int])
    } else {
        None
    }
}

/// A chain of one first block is linked, and the block that follows a linked
/// chain leaves it linked: it names the digest of the block that was last.
pub proof fn lemma_append_keeps_linked(
    chain: Seq<BlockView>,
    transactions: Seq<TransactionView>,
    timestamp: u64,
    signature: Seq<u8>,
)
    requires
        chain.len() > 0,
        linked(chain),
    ensures
        linked(seq![genesis_block(timestamp)]),
        linked(chain.push(next_block(chain, transactions, timestamp, signature))),
        chain.push(next_block(chain, transactions, timestamp, signature))[chain.len() as int].previous_hash
            == chain[chain.len() - 1].hash,
{
}

/// A chain of one first block grew by appending alone, and so did a chain
/// that grew by appending alone and then got the block that follows it.
pub proof fn lemma_append_keeps_grown(
    chain: Seq<BlockView>,
    transactions: Seq<TransactionView>,
    timestamp: u64,
    signature: Seq<u8>,
)
    ensures
        grown(seq![genesis_block(timestamp)]),
        grown(chain) ==> grown(chain.push(next_block(chain, transactions, timestamp, signature))),
{
    reveal(grown);
    let first = seq![genesis_block(timestamp)];
    assert(first[0] == genesis_block(timestamp));
    if grown(chain) {
        let b = next_block(chain, transactions, timestamp, signature);
        let longer = chain.push(b);
        assert(longer.drop_last() =~= chain);
        assert(longer.last() == next_block(longer.drop_last(), transactions, timestamp, signature));
    }
}

/// In a chain that grew by appending alone, every block but the first names
/// the digest of the block before it, every block stands at its own index,
/// and every block carries the digest of its own fields.
pub proof fn lemma_grown_chain_is_linked(chain: Seq<BlockView>)
    requires
        grown(chain),
        chain.len() <= u64::MAX,
    ensures
        linked(chain),
        forall|i: int| 0 <= i < chain.len() ==> (#[trigger] chain[i]).index == i,
        forall|i: int| 0 <= i < chain.len() ==> hash_matches(#[trigger] chain[i]),
    decreases chain.len(),
{
    reveal(grown);
    if chain.len() > 1 {
        let init = chain.drop_last();
        lemma_grown_chain_is_linked(init);
        assert forall|i: int| 0 <= i < chain.len() implies (#[trigger] chain[i]).index == i
            && hash_matches(chain[i]) && (i > 0 ==> chain[i].previous_hash == chain[i - 1].hash) by {
            if i < chain.len() - 1 {
                assert(chain[i] == init[i]);
                if i > 0 {
                    assert(chain[i - 1] == init[i - 1]);
                }
            }
        }
    }
}

/// After a block is appended the chain is longer by one, and the block is
/// found at the last index.
pub proof fn lemma_appended_block_found(chain: Seq<BlockView>, block: BlockView)
    requires
        chain.len() < u64::MAX,
    ensures
        chain.push(block).len() == chain.len() + 1,
        block_at(chain.push(block), chain.len() as u64) == Some(block),
        forall|i: u64| i < chain.len() ==> block_at(chain.push(block), i) == block_at(chain, i),
{
}

/// A vector of `n` zero bytes.
fn zero_bytes(n: usize) -> (r: Vec<u8>)
    ensures
        r@ == Seq::new(n as nat, |i: int| 0u8),
{
    let mut r: Vec<u8> = Vec::new();
    while r.len() < n
        invariant
            r@.len() <= n,
            forall|i: int| 0 <= i < r@.len() ==> r@[i] == 0u8,
        decreases n - r@.len(),
    {
        r.push(0);
    }
    proof {
        assert(r@ =~= Seq::new(n as nat, |i: int| 0u8));
    }
    r
}

impl View for Blockchain {
    type V = Seq<BlockView>;

    open spec fn view(&self) -> Seq<BlockView> {
        block_views(self.blocks@)
    }
}

impl Blockchain {
    /// Whether the chain is well formed: it has a first block, and `length`
    /// is the number of its blocks.
    pub open spec fn wf(&self) -> bool {
        &&& self.blocks@.len() > 0
        &&& self.length == self.blocks@.len()
    }

    /// Opens the chain over the blocks found in the store, given in index
    /// order from index 0 up to the first index that the store lacks. Where
    /// the store is empty the chain starts with a first block made at
    /// `timestamp`.
    pub fn new(stored: Vec<Block>, timestamp: u64) -> (r: Blockchain)
        requires
            stored@.len() <= u64::MAX,
        ensures
            r.wf(),
            r@ == opened(block_views(stored@), timestamp),
            r.length == if stored@.len() == 0 { 1 } else { stored@.len() },
            stored@.len() == 0 ==> grown(r@) && linked(r@) && hash_matches(r@[0]),
    {
        if stored.len() > 0 {
            let length: u64 = stored.len() as u64;
            Blockchain { blocks: stored, length }
        } else {
            let genesis = Block::new(
                0,
                timestamp,
                "0".to_owned(),
                Vec::new(),
                "GENESIS".to_owned(),
                zero_bytes(64),
            );
            let mut blocks: Vec<Block> = Vec::new();
            blocks.push(genesis);
            let r = Blockchain { blocks, length: 1 };
            proof {
                assert(tx_views(Seq::<Transaction>::empty()) =~= Seq::<TransactionView>::empty());
                assert(r@ =~= seq![genesis_block(timestamp)]);
                lemma_append_keeps_grown(r@, Seq::empty(), timestamp, Seq::empty());
            }
            r
        }
    }

    /// The digest that the next block will carry with these transactions:
    /// what its producer has to sign.
    pub fn next_block_hash(&self, transactions: &Vec<Transaction>, timestamp: u64) -> (r: String)
        requires
            self.wf(),
            transactions@.len() > 0,
        ensures
            r@ == next_hash(self@, tx_views(transactions@), timestamp),
    {
        let last = &self.blocks[self.blocks.len() - 1];
        Block::calculate_hash(
            self.length,
            timestamp,
            last.hash.as_str(),
            transactions,
            transactions[0].from.as_str(),
        )
    }

    /// Appends the block that follows the chain with these transactions and
    /// this signature, and returns a copy of it. The block names the digest
    /// of the last block, takes the sender of the first transaction for its
    /// producer, and stands at the old length.
    pub fn append_signed(
        &mut self,
        transactions: Vec<Transaction>,
        timestamp: u64,
        signature: Vec<u8>,
    ) -> (r: Block)
        requires
            old(self).wf(),
            transactions@.len() > 0,
            old(self).length < u64::MAX,
        ensures
            final(self).wf(),
            final(self).length == old(self).length + 1,
            r@ == next_block(old(self)@, tx_views(transactions@), timestamp, signature@),
            final(self)@ == old(self)@.push(r@),
            block_at(final(self)@, old(self).length) == Some(r@),
            hash_matches(r@),
            linked(old(self)@) ==> linked(final(self)@),
            grown(old(self)@) ==> grown(final(self)@),
    {
        let previous_hash = self.blocks[self.blocks.len() - 1].hash.clone();
        let producer = transactions[0].from.clone();
        let block = Block::new(
            self.length,
            timestamp,
            previous_hash,
            transactions,
            producer,
            signature,
        );
        let r = block.clone();
        self.blocks.push(block);
        self.length = self.length + 1;
        proof {
            assert(self@ =~= old(self)@.push(r@));
            lemma_append_keeps_grown(old(self)@, tx_views(transactions@), timestamp, signature@);
        }
        r
    }

    /// Appends a block with these transactions, signed by `wallet` over the
    /// block's digest. Where the wallet's bytes are no key pair nothing is
    /// appended and `None` comes back.
    pub fn add_block(
        &mut self,
        transactions: Vec<Transaction>,
        timestamp: u64,
        wallet: &Wallet,
    ) -> (r: Option<Block>)
        requires
            old(self).wf(),
            transactions@.len() > 0,
            old(self).length < u64::MAX,
        ensures
            final(self).wf(),
            match r {
                Some(b) => {
                    &&& ed25519_signature(
                        wallet.secret@,
                        wallet.public@,
                        encode_utf8(next_hash(old(self)@, tx_views(transactions@), timestamp)),
                    ) == Some(b@.signature)
                    &&& b@ == next_block(
                        old(self)@,
                        tx_views(transactions@),
                        timestamp,
                        b@.signature,
                    )
                    &&& final(self)@ == old(self)@.push(b@)
                    &&& final(self).length == old(self).length + 1
                },
                None => {
                    &&& ed25519_signature(
                        wallet.secret@,
                        wallet.public@,
                        encode_utf8(next_hash(old(self)@, tx_views(transactions@), timestamp)),
                    ).is_none()
                    &&& final(self)@ == old(self)@
                    &&& final(self).length == old(self).length
                },
            },
            linked(old(self)@) ==> linked(final(self)@),
            grown(old(self)@) ==> grown(final(self)@),
    {
        let hash = self.next_block_hash(&transactions, timestamp);
        match wallet.sign(hash.as_str().as_bytes()) {
            Some(signature) => Some(self.append_signed(transactions, timestamp, signature)),
            None => None,
        }
    }

    /// A copy of the block at `index`; `None` from the length on.
    pub fn get_block(&self, index: u64) -> (r: Option<Block>)
        requires
            self.wf(),
        ensures
            match r {
                Some(b) => block_at(self@, index) == Some(b@),
                None => block_at(self@, index).is_none(),
            },
    {
        let n: usize = self.blocks.len();
        if index < self.length {
            assert(index < n);
            let i: usize = index as usize;
            Some(self.blocks[i].clone())
        } else {
            None
        }
    }
}

} // verus!
