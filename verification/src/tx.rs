//! Transactions and their canonical textual form.

use crate::text::{
    copy_bytes, decimal, json_byte_array, json_string, push_bytes, push_decimal,
    push_json_byte_array, push_json_string,
};
use vstd::prelude::*;
use vstd::string::*;
use vstd::utf8::*;

verus! {

/// A signed transfer instruction. The verification key and the detached
/// signature are held as their raw bytes.
#[derive(Debug)]
pub struct Transaction {
    pub from: String,
    pub to: String,
    pub amount: u64,
    pub public_key: Vec<u8>,
    pub signature: Vec<u8>,
}

/// The mathematical content of a [`Transaction`].
pub ghost struct TransactionView {
    pub from: Seq<char>,
    pub to: Seq<char>,
    pub amount: u64,
    pub public_key: Seq<u8>,
    pub signature: Seq<u8>,
}

impl View for Transaction {
    type V = TransactionView;

    open spec fn view(&self) -> TransactionView {
        TransactionView {
            from: self.from@,
            to: self.to@,
            amount: self.amount,
            public_key: self.public_key@,
            signature: self.signature@,
        }
    }
}

/// The views of a sequence of transactions, in order.
pub open spec fn tx_views(txs: Seq<Transaction>) -> Seq<TransactionView> {
    txs.map_values(|t: Transaction| t@)
}

/// Canonical JSON object of one transaction: the five fields in declaration
/// order, keys quoted, no whitespace, keys and signature bytes as arrays of
/// numbers.
pub open spec fn json_tx(t: TransactionView) -> Seq<u8> {
    "{\"from\":".spec_bytes() + json_string(encode_utf8(t.from)) + ",\"to\":".spec_bytes()
        + json_string(encode_utf8(t.to)) + ",\"amount\":".spec_bytes() + decimal(t.amount as nat)
        + ",\"public_key\":".spec_bytes() + json_byte_array(t.public_key)
        + ",\"signature\":".spec_bytes() + json_byte_array(t.signature) + "}".spec_bytes()
}

/// The canonical objects of `txs`, separated by commas.
pub open spec fn json_tx_items(txs: Seq<TransactionView>) -> Seq<u8>
    decreases txs.len(),
{
    if txs.len() == 0 {
        Seq::empty()
    } else if txs.len() == 1 {
        json_tx(txs[0])
    } else {
        json_tx_items(txs.drop_last()) + seq![0x2cu8] + json_tx(txs.last())
    }
}

/// Canonical JSON array of a batch of transactions.
pub open spec fn json_transactions(txs: Seq<TransactionView>) -> Seq<u8> {
    seq![0x5bu8] + json_tx_items(txs) + seq![0x5du8]
}

/// The message that the sender of a transfer signs: sender, receiver and
/// the amount in decimal, with nothing between them.
pub open spec fn transfer_message(from: Seq<char>, to: Seq<char>, amount: u64) -> Seq<u8> {
    encode_utf8(from) + encode_utf8(to) + decimal(amount as nat)
}

/// Builds the message that the sender of a transfer signs.
pub fn transfer_message_bytes(from: &str, to: &str, amount: u64) -> (r: Vec<u8>)
    ensures
        r@ == transfer_message(from@, to@, amount),
{
    let mut r: Vec<u8> = Vec::new();
    push_bytes(&mut r, from.as_bytes());
    push_bytes(&mut r, to.as_bytes());
    push_decimal(&mut r, amount);
    proof {
        assert(r@ =~= transfer_message(from@, to@, amount));
    }
    r
}

impl Clone for Transaction {
    fn clone(&self) -> (r: Self)
        ensures
            r@ == self@,
    {
        Transaction {
            from: self.from.clone(),
            to: self.to.clone(),
            amount: self.amount,
            public_key: copy_bytes(self.public_key.as_slice()),
            signature: copy_bytes(self.signature.as_slice()),
        }
    }
}

/// A copy of a batch of transactions.
pub fn clone_transactions(txs: &Vec<Transaction>) -> (r: Vec<Transaction>)
    ensures
        tx_views(r@) == tx_views(txs@),
{
    let mut r: Vec<Transaction> = Vec::new();
    let mut i: usize = 0;
    while i < txs.len()
        invariant
            i <= txs.len(),
            r@.len() == i,
            forall|j: int| 0 <= j < i ==> (#[trigger] r@[j])@ == txs@[j]@,
        decreases txs.len() - i,
    {
        let t = txs[i].clone();
        r.push(t);
        i += 1;
    }
    proof {
        assert(tx_views(r@) =~= tx_views(txs@));
    }
    r
}

/// Appends the canonical JSON object of `tx` to `out`.
pub fn push_json_tx(out: &mut Vec<u8>, tx: &Transaction)
    ensures
        final(out)@ == old(out)@ + json_tx(tx@),
{
    let ghost base = out@;
    push_bytes(out, "{\"from\":".as_bytes());
    push_json_string(out, tx.from.as_str().as_bytes());
    push_bytes(out, ",\"to\":".as_bytes());
    push_json_string(out, tx.to.as_str().as_bytes());
    push_bytes(out, ",\"amount\":".as_bytes());
    push_decimal(out, tx.amount);
    push_bytes(out, ",\"public_key\":".as_bytes());
    push_json_byte_array(out, tx.public_key.as_slice());
    push_bytes(out, ",\"signature\":".as_bytes());
    push_json_byte_array(out, tx.signature.as_slice());
    push_bytes(out, "}".as_bytes());
    proof {
        assert(out@ =~= base + json_tx(tx@));
    }
}

/// Appends the canonical JSON array of `txs` to `out`.
pub fn push_json_transactions(out: &mut Vec<u8>, txs: &Vec<Transaction>)
    ensures
        final(out)@ == old(out)@ + json_transactions(tx_views(txs@)),
{
    let ghost base = out@;
    let ghost views = tx_views(txs@);
    out.push(0x5b);
    let mut i: usize = 0;
    while i < txs.len()
        invariant
            i <= txs.len(),
            views == tx_views(txs@),
            out@ == base + seq![0x5bu8] + json_tx_items(views.take(i as int)),
        decreases txs.len() - i,
    {
        if i > 0 {
            out.push(0x2c);
        }
        push_json_tx(out, &txs[i]);
        proof {
            let t = views.take(i + 1);
            assert(t.drop_last() =~= views.take(i as int));
            assert(t.last() == txs@[i as int]@);
            assert(out@ =~= base + seq![0x5bu8] + json_tx_items(t));
        }
        i += 1;
    }
    out.push(0x5d);
    proof {
        assert(views.take(txs.len() as int) =~= views);
        assert(out@ =~= base + json_transactions(views));
    }
}

} // verus!
