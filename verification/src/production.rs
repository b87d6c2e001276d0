//! Block production: what has to hold before an account's transfer becomes
//! the next block of the chain.

use crate::block::{Block, BlockView};
use crate::chain::{next_block, next_hash, Blockchain};
use crate::ledger::{balance_in, blocks_fit, lacks_funds, replay_blocks, Ledger};
use crate::tx::{transfer_message, tx_views, Transaction, TransactionView};
use crate::validator::{registered, top_ranked, ValidatorRegistry, ValidatorView};
use crate::wallet::{ed25519_signature, ed25519_verifies, Wallet};
use vstd::prelude::*;
use vstd::string::*;
use vstd::utf8::*;

verus! {

/// Why a transfer did not become a block.
#[derive(Debug)]
pub enum SendError {
    /// The wallet's bytes are no key pair.
    KeysRejected,
    /// The chain cannot be replayed: a balance would leave 64 bits.
    BalanceOverflow,
    /// The sender's balance does not cover the amount.
    InsufficientFunds { balance: u64, amount: u64 },
    /// The sender is not among the top-ranked validators.
    NotValidator,
    /// The chain has no free index left.
    ChainFull,
    /// The signature made over the block's digest does not verify.
    BadSignature,
}

/// How many of the top-ranked validators may produce blocks.
pub open spec fn producer_ranks() -> nat {
    3
}

/// The transfer that the wallet with these keys signs, where it can sign.
pub open spec fn signed_transfer(
    secret: Seq<u8>,
    public: Seq<u8>,
    from: Seq<char>,
    to: Seq<char>,
    amount: u64,
) -> Option<TransactionView> {
    match ed25519_signature(secret, public, transfer_message(from, to, amount)) {
        Some(signature) => Some(TransactionView { from, to, amount, public_key: public, signature }),
        None => None,
    }
}

/// What comes of a transfer of `amount` from `from` to `to` at `timestamp`:
/// the block that it becomes, or the first of the conditions that it fails.
/// The sender signs the transfer; the balances are rebuilt from the chain
/// and must cover the amount, unless the sentinel sends; the sender must be
/// among the top-ranked validators; the sender signs the digest of the
/// block, and that signature must verify under the sender's key.
pub open spec fn send_outcome(
    chain: Seq<BlockView>,
    validators: Seq<ValidatorView>,
    secret: Seq<u8>,
    public: Seq<u8>,
    from: Seq<char>,
    to: Seq<char>,
    amount: u64,
    timestamp: u64,
) -> Result<BlockView, SendError> {
    match signed_transfer(secret, public, from, to, amount) {
        None => Err(SendError::KeysRejected),
        Some(tx) => {
            let balances = replay_blocks(Map::empty(), chain);
            let digest = next_hash(chain, seq![tx], timestamp);
            if !blocks_fit(Map::empty(), chain) {
                Err(SendError::BalanceOverflow)
            } else if lacks_funds(balances, tx) {
                Err(SendError::InsufficientFunds { balance: balance_in(balances, from), amount })
            } else if !registered(top_ranked(validators, producer_ranks()), from) {
                Err(SendError::NotValidator)
            } else if chain.len() >= u64::MAX {
                Err(SendError::ChainFull)
            } else {
                match ed25519_signature(secret, public, encode_utf8(digest)) {
                    None => Err(SendError::KeysRejected),
                    Some(signature) => if ed25519_verifies(public, encode_utf8(digest), signature) {
                        Ok(next_block(chain, seq![tx], timestamp, signature))
                    } else {
                        Err(SendError::BadSignature)
                    },
                }
            }
        },
    }
}

/// Turns a transfer into the next block of `chain`, signed by `wallet`, if
/// every condition of block production holds; else the chain stays as it is
/// and the failed condition comes back.
pub fn produce_block(
    chain: &mut Blockchain,
    validators: &ValidatorRegistry,
    wallet: &Wallet,
    from: &str,
    to: &str,
    amount: u64,
    timestamp: u64,
) -> (r: Result<Block, SendError>)
    requires
        old(chain).wf(),
        validators.wf(),
    ensures
        final(chain).wf(),
        match r {
            Ok(b) => {
                &&& send_outcome(
                    old(chain)@,
                    validators@,
                    wallet.secret@,
                    wallet.public@,
                    from@,
                    to@,
                    amount,
                    timestamp,
                ) == Ok::<BlockView, SendError>(b@)
                &&& final(chain)@ == old(chain)@.push(b@)
                &&& final(chain).length == old(chain).length + 1
            },
            Err(e) => {
                &&& send_outcome(
                    old(chain)@,
                    validators@,
                    wallet.secret@,
                    wallet.public@,
                    from@,
                    to@,
                    amount,
                    timestamp,
                ) == Err::<BlockView, SendError>(e)
                &&& final(chain)@ == old(chain)@
                &&& final(chain).length == old(chain).length
            },
        },
{
    let tx = match wallet.sign_transfer(from, to, amount) {
        Some(tx) => tx,
        None => {
            return Err(SendError::KeysRejected);
        },
    };
    let ghost txv = tx@;
    let ledger = match Ledger::replay(&chain.blocks) {
        Some((ledger, _)) => ledger,
        None => {
            return Err(SendError::BalanceOverflow);
        },
    };
    let balance: u64 = ledger.get_balance(from);
    let genesis = "GENESIS".to_owned();
    if !(tx.from == genesis) && balance < amount {
        return Err(SendError::InsufficientFunds { balance, amount });
    }
    if !validators.is_top_validator(from, 3) {
        return Err(SendError::NotValidator);
    }
    if chain.length == u64::MAX {
        return Err(SendError::ChainFull);
    }
    let mut transactions: Vec<Transaction> = Vec::new();
    transactions.push(tx);
    proof {
        assert(tx_views(transactions@) =~= seq![txv]);
    }
    let digest = chain.next_block_hash(&transactions, timestamp);
    let signature = match wallet.sign(digest.as_str().as_bytes()) {
        Some(signature) => signature,
        None => {
            return Err(SendError::KeysRejected);
        },
    };
    if !Wallet::verify(wallet.public.as_slice(), digest.as_str().as_bytes(), signature.as_slice()) {
        return Err(SendError::BadSignature);
    }
    Ok(chain.append_signed(transactions, timestamp, signature))
}

} // verus!
