//! Account balances, derived by replaying blocks in order.

use crate::block::{block_views, Block, BlockView};
use crate::tx::{tx_views, TransactionView};
use vstd::prelude::*;
use vstd::string::*;

verus! {

/// One account with its balance.
#[derive(Debug)]
pub struct Account {
    pub name: String,
    pub balance: u64,
}

/// The balances of all accounts seen so far, each account once.
#[derive(Debug)]
pub struct Ledger {
    pub balances: Vec<Account>,
}

/// A transfer that the sender's balance does not cover.
#[derive(Debug)]
pub struct InsufficientFunds {
    pub account: String,
    pub balance: u64,
    pub amount: u64,
}

/// A block that a replay skipped: its place in the chain and why.
#[derive(Debug)]
pub struct SkippedBlock {
    pub index: u64,
    pub failure: InsufficientFunds,
}

impl View for SkippedBlock {
    type V = (int, InsufficientFundsView);

    open spec fn view(&self) -> (int, InsufficientFundsView) {
        (self.index as int, self.failure@)
    }
}

/// The views of a sequence of skipped blocks, in order.
pub open spec fn skipped_views(s: Seq<SkippedBlock>) -> Seq<(int, InsufficientFundsView)> {
    s.map_values(|b: SkippedBlock| b@)
}

/// The mathematical content of an [`InsufficientFunds`].
pub ghost struct InsufficientFundsView {
    pub account: Seq<char>,
    pub balance: u64,
    pub amount: u64,
}

impl View for InsufficientFunds {
    type V = InsufficientFundsView;

    open spec fn view(&self) -> InsufficientFundsView {
        InsufficientFundsView { account: self.account@, balance: self.balance, amount: self.amount }
    }
}

/// The balance of `account` in `m`: zero for an account never seen.
pub open spec fn balance_in(m: Map<Seq<char>, u64>, account: Seq<char>) -> u64 {
    if m.dom().contains(account) {
        m[account]
    } else {
        0
    }
}

/// Whether `account` is the sentinel that funds enter the ledger from.
pub open spec fn is_genesis(account: Seq<char>) -> bool {
    account == "GENESIS"@
}

/// Whether `tx` asks for more than its sender has in `m`.
pub open spec fn lacks_funds(m: Map<Seq<char>, u64>, tx: TransactionView) -> bool {
    !is_genesis(tx.from) && balance_in(m, tx.from) < tx.amount
}

/// The failure that `tx` gives on `m` when the sender lacks funds.
pub open spec fn shortfall(m: Map<Seq<char>, u64>, tx: TransactionView) -> InsufficientFundsView {
    InsufficientFundsView { account: tx.from, balance: balance_in(m, tx.from), amount: tx.amount }
}

/// `m` after the sender of `tx` has paid; the sentinel pays nothing.
pub open spec fn debited(m: Map<Seq<char>, u64>, tx: TransactionView) -> Map<Seq<char>, u64> {
    if is_genesis(tx.from) {
        m
    } else {
        m.insert(tx.from, (balance_in(m, tx.from) - tx.amount) as u64)
    }
}

/// Whether the receiver's balance after `tx` fits in 64 bits.
pub open spec fn credit_fits(m: Map<Seq<char>, u64>, tx: TransactionView) -> bool {
    balance_in(debited(m, tx), tx.to) + tx.amount <= u64::MAX
}

/// `m` after a covered `tx`: the sender debited, then the receiver credited.
pub open spec fn transferred(m: Map<Seq<char>, u64>, tx: TransactionView) -> Map<Seq<char>, u64> {
    let d = debited(m, tx);
    d.insert(tx.to, (balance_in(d, tx.to) + tx.amount) as u64)
}

/// The balances after replaying `txs` on `m` in order, up to the first
/// transaction that the sender cannot cover: the transactions before it are
/// applied, it and all after it are not.
pub open spec fn replay_ledger(m: Map<Seq<char>, u64>, txs: Seq<TransactionView>) -> Map<
    Seq<char>,
    u64,
>
    decreases txs.len(),
{
    if txs.len() == 0 || lacks_funds(m, txs[0]) {
        m
    } else {
        replay_ledger(transferred(m, txs[0]), txs.drop_first())
    }
}

/// The failure of the first transaction of `txs` that its sender cannot
/// cover when `txs` is replayed on `m`, if there is one.
pub open spec fn replay_failure(m: Map<Seq<char>, u64>, txs: Seq<TransactionView>) -> Option<
    InsufficientFundsView,
>
    decreases txs.len(),
{
    if txs.len() == 0 {
        None
    } else if lacks_funds(m, txs[0]) {
        Some(shortfall(m, txs[0]))
    } else {
        replay_failure(transferred(m, txs[0]), txs.drop_first())
    }
}

/// Whether every credit made while replaying `txs` on `m` fits in 64 bits.
pub open spec fn replay_fits(m: Map<Seq<char>, u64>, txs: Seq<TransactionView>) -> bool
    decreases txs.len(),
{
    if txs.len() == 0 || lacks_funds(m, txs[0]) {
        true
    } else {
        credit_fits(m, txs[0]) && replay_fits(transferred(m, txs[0]), txs.drop_first())
    }
}

/// The balances after replaying `blocks` on `m` in order. A block whose
/// replay fails is not undone: what it changed up to the failure stays, and
/// the replay goes on with the next block.
pub open spec fn replay_blocks(m: Map<Seq<char>, u64>, blocks: Seq<BlockView>) -> Map<
    Seq<char>,
    u64,
>
    decreases blocks.len(),
{
    if blocks.len() == 0 {
        m
    } else {
        replay_blocks(replay_ledger(m, blocks[0].transactions), blocks.drop_first())
    }
}

/// The blocks whose replay fails when `blocks` is replayed on `m`, each with
/// its place, counted from `first`, and its failure.
pub open spec fn skipped_blocks(m: Map<Seq<char>, u64>, blocks: Seq<BlockView>, first: int) -> Seq<
    (int, InsufficientFundsView),
>
    decreases blocks.len(),
{
    if blocks.len() == 0 {
        Seq::empty()
    } else {
        let rest = skipped_blocks(
            replay_ledger(m, blocks[0].transactions),
            blocks.drop_first(),
            first + 1,
        );
        match replay_failure(m, blocks[0].transactions) {
            Some(e) => seq![(first, e)] + rest,
            None => rest,
        }
    }
}

/// What enters the ledger from the sentinel while `blocks` is replayed on
/// `m`.
pub open spec fn blocks_minted(m: Map<Seq<char>, u64>, blocks: Seq<BlockView>) -> int
    decreases blocks.len(),
{
    if blocks.len() == 0 {
        0
    } else {
        replay_minted(m, blocks[0].transactions) + blocks_minted(
            replay_ledger(m, blocks[0].transactions),
            blocks.drop_first(),
        )
    }
}

/// The sum of the amounts that the sentinel sends in `txs`.
pub open spec fn genesis_amounts(txs: Seq<TransactionView>) -> int
    decreases txs.len(),
{
    if txs.len() == 0 {
        0
    } else {
        (if is_genesis(txs[0].from) {
            txs[0].amount as int
        } else {
            0
        }) + genesis_amounts(txs.drop_first())
    }
}

/// The sum of the amounts that the sentinel sends in `blocks`.
pub open spec fn blocks_genesis_amounts(blocks: Seq<BlockView>) -> int
    decreases blocks.len(),
{
    if blocks.len() == 0 {
        0
    } else {
        genesis_amounts(blocks[0].transactions) + blocks_genesis_amounts(blocks.drop_first())
    }
}

/// Whether every credit made while replaying `blocks` on `m` fits in 64
/// bits.
pub open spec fn blocks_fit(m: Map<Seq<char>, u64>, blocks: Seq<BlockView>) -> bool
    decreases blocks.len(),
{
    blocks.len() == 0 || (replay_fits(m, blocks[0].transactions) && blocks_fit(
        replay_ledger(m, blocks[0].transactions),
        blocks.drop_first(),
    ))
}

/// What enters the ledger from the sentinel while `txs` is replayed on `m`:
/// the amounts of the applied transactions that the sentinel sends.
pub open spec fn replay_minted(m: Map<Seq<char>, u64>, txs: Seq<TransactionView>) -> int
    decreases txs.len(),
{
    if txs.len() == 0 || lacks_funds(m, txs[0]) {
        0
    } else {
        (if is_genesis(txs[0].from) {
            txs[0].amount as int
        } else {
            0
        }) + replay_minted(transferred(m, txs[0]), txs.drop_first())
    }
}

/// The sum of the balances of a list of accounts.
pub open spec fn accounts_total(e: Seq<Account>) -> int
    decreases e.len(),
{
    if e.len() == 0 {
        0
    } else {
        accounts_total(e.drop_last()) + e.last().balance
    }
}

/// The map from account to balance that a list of accounts stands for.
pub open spec fn accounts_map(e: Seq<Account>) -> Map<Seq<char>, u64>
    decreases e.len(),
{
    if e.len() == 0 {
        Map::empty()
    } else {
        accounts_map(e.drop_last()).insert(e.last().name@, e.last().balance)
    }
}

/// Whether no account occurs twice in `e`.
pub open spec fn distinct_accounts(e: Seq<Account>) -> bool {
    forall|i: int, j: int| 0 <= i < j < e.len() ==> e[i].name@ != e[j].name@
}

/// An account that is not in the list is not in its map.
proof fn lemma_absent(e: Seq<Account>, name: Seq<char>)
    requires
        forall|i: int| 0 <= i < e.len() ==> e[i].name@ != name,
    ensures
        !accounts_map(e).dom().contains(name),
    decreases e.len(),
{
    if e.len() > 0 {
        lemma_absent(e.drop_last(), name);
    }
}

/// An account of the list is in its map, with its balance.
proof fn lemma_present(e: Seq<Account>, i: int)
    requires
        distinct_accounts(e),
        0 <= i < e.len(),
    ensures
        accounts_map(e).dom().contains(e[i].name@),
        accounts_map(e)[e[i].name@] == e[i].balance,
    decreases e.len(),
{
    if i < e.len() - 1 {
        lemma_present(e.drop_last(), i);
    }
}

/// Replacing an account's entry sets its balance in the map, changes the
/// sum by the difference, and keeps the accounts distinct.
proof fn lemma_replaced(e: Seq<Account>, i: int, a: Account)
    requires
        distinct_accounts(e),
        0 <= i < e.len(),
        a.name@ == e[i].name@,
    ensures
        accounts_map(e.update(i, a)) == accounts_map(e).insert(a.name@, a.balance),
        accounts_total(e.update(i, a)) == accounts_total(e) - e[i].balance + a.balance,
        distinct_accounts(e.update(i, a)),
    decreases e.len(),
{
    let u = e.update(i, a);
    if i < e.len() - 1 {
        lemma_replaced(e.drop_last(), i, a);
        assert(u.drop_last() =~= e.drop_last().update(i, a));
        assert(u.last() == e.last());
        assert(accounts_map(u) =~= accounts_map(e).insert(a.name@, a.balance));
    } else {
        assert(u.drop_last() =~= e.drop_last());
        assert(accounts_map(u) =~= accounts_map(e).insert(a.name@, a.balance));
    }
}

impl View for Ledger {
    type V = Map<Seq<char>, u64>;

    open spec fn view(&self) -> Map<Seq<char>, u64> {
        accounts_map(self.balances@)
    }
}

impl Ledger {
    /// Whether the ledger is well formed: no account occurs twice.
    pub open spec fn wf(&self) -> bool {
        distinct_accounts(self.balances@)
    }

    /// The sum of all balances.
    pub open spec fn total(&self) -> int {
        accounts_total(self.balances@)
    }

    /// An empty ledger: every balance is zero.
    pub fn new() -> (r: Ledger)
        ensures
            r.wf(),
            r@ == Map::<Seq<char>, u64>::empty(),
            r.total() == 0,
    {
        Ledger { balances: Vec::new() }
    }

    /// Where `name` stands in the list of accounts, if it does.
    fn position(&self, name: &String) -> (r: Option<usize>)
        ensures
            match r {
                Some(i) => i < self.balances@.len() && self.balances@[i as int].name@ == name@,
                None => forall|i: int|
                    0 <= i < self.balances@.len() ==> self.balances@[i].name@ != name@,
            },
    {
        let mut i: usize = 0;
        while i < self.balances.len()
            invariant
                i <= self.balances@.len(),
                forall|j: int| 0 <= j < i ==> self.balances@[j].name@ != name@,
            decreases self.balances@.len() - i,
        {
            if self.balances[i].name == *name {
                return Some(i);
            }
            i += 1;
        }
        None
    }

    /// The balance of `name`, zero for an account never seen.
    pub fn get_balance(&self, name: &str) -> (r: u64)
        requires
            self.wf(),
        ensures
            r == balance_in(self@, name@),
    {
        let key = name.to_owned();
        match self.position(&key) {
            Some(i) => {
                proof {
                    lemma_present(self.balances@, i as int);
                }
                self.balances[i].balance
            },
            None => {
                proof {
                    lemma_absent(self.balances@, name@);
                }
                0
            },
        }
    }

    /// Sets the balance of `name` to `value`, adding the account if need be.
    fn set_balance(&mut self, name: &str, value: u64)
        requires
            old(self).wf(),
        ensures
            final(self).wf(),
            final(self)@ == old(self)@.insert(name@, value),
            final(self).total() == old(self).total() - balance_in(old(self)@, name@) + value,
    {
        let key = name.to_owned();
        let entry = Account { name: key.clone(), balance: value };
        match self.position(&key) {
            Some(i) => {
                proof {
                    lemma_present(self.balances@, i as int);
                    lemma_replaced(self.balances@, i as int, entry);
                }
                self.balances[i] = entry;
            },
            None => {
                proof {
                    lemma_absent(self.balances@, name@);
                    assert(self.balances@.push(entry).drop_last() =~= self.balances@);
                }
                self.balances.push(entry);
            },
        }
    }

    /// Replays the transactions of `block` as [`Ledger::apply_block`] does,
    /// and stops with `None` at the first credit that does not fit in 64
    /// bits, if there is one.
    fn replay_checked(&mut self, block: &Block) -> (r: Option<Result<(), InsufficientFunds>>)
        requires
            old(self).wf(),
        ensures
            final(self).wf(),
            r.is_some() == replay_fits(old(self)@, block@.transactions),
            r.is_some() ==> final(self)@ == replay_ledger(old(self)@, block@.transactions),
            r.is_some() ==> final(self).total() == old(self).total() + replay_minted(
                old(self)@,
                block@.transactions,
            ),
            match r {
                Some(Ok(_)) => replay_failure(old(self)@, block@.transactions).is_none(),
                Some(Err(e)) => replay_failure(old(self)@, block@.transactions) == Some(e@),
                None => true,
            },
    {
        let ghost m0 = self@;
        let ghost txs = block@.transactions;
        let genesis = "GENESIS".to_owned();
        let n: usize = block.transactions.len();
        let mut i: usize = 0;
        proof {
            assert(txs.skip(0) =~= txs);
        }
        while i < n
            invariant
                self.wf(),
                i <= n,
                n == block.transactions@.len(),
                m0 == old(self)@,
                txs == block@.transactions,
                txs == tx_views(block.transactions@),
                genesis@ == "GENESIS"@,
                replay_ledger(m0, txs) == replay_ledger(self@, txs.skip(i as int)),
                replay_failure(m0, txs) == replay_failure(self@, txs.skip(i as int)),
                replay_fits(m0, txs) == replay_fits(self@, txs.skip(i as int)),
                old(self).total() + replay_minted(m0, txs) == self.total() + replay_minted(
                    self@,
                    txs.skip(i as int),
                ),
            decreases n - i,
        {
            let tx = &block.transactions[i];
            proof {
                assert(txs.skip(i as int)[0] == tx@);
                assert(txs.skip(i as int).drop_first() =~= txs.skip(i + 1));
            }
            if !(tx.from == genesis) {
                let sender_balance: u64 = self.get_balance(tx.from.as_str());
                if sender_balance < tx.amount {
                    return Some(
                        Err(
                            InsufficientFunds {
                                account: tx.from.clone(),
                                balance: sender_balance,
                                amount: tx.amount,
                            },
                        ),
                    );
                }
                self.set_balance(tx.from.as_str(), sender_balance - tx.amount);
            }
            let receiver_balance: u64 = self.get_balance(tx.to.as_str());
            if receiver_balance > u64::MAX - tx.amount {
                return None;
            }
            self.set_balance(tx.to.as_str(), receiver_balance + tx.amount);
            i += 1;
        }
        Some(Ok(()))
    }

    /// Replays the transactions of `block` in stored order. Each transaction
    /// sees the balances left by those before it. A sender other than the
    /// sentinel must cover the amount; the first that does not ends the
    /// replay with its failure, the transactions before it stay applied and
    /// neither it nor any after it is. The sum of all balances grows by what
    /// the sentinel sent in the applied transactions and by nothing else.
    pub fn apply_block(&mut self, block: &Block) -> (r: Result<(), InsufficientFunds>)
        requires
            old(self).wf(),
            replay_fits(old(self)@, block@.transactions),
        ensures
            final(self).wf(),
            final(self)@ == replay_ledger(old(self)@, block@.transactions),
            final(self).total() == old(self).total() + replay_minted(
                old(self)@,
                block@.transactions,
            ),
            match r {
                Ok(_) => replay_failure(old(self)@, block@.transactions).is_none(),
                Err(e) => replay_failure(old(self)@, block@.transactions) == Some(e@),
            },
    {
        match self.replay_checked(block) {
            Some(r) => r,
            None => {
                // Not reached: every credit fits.
                proof {
                    assert(false);
                }
                Ok(())
            },
        }
    }

    /// Rebuilds the balances from nothing by replaying `blocks` in order,
    /// and lists the blocks whose replay failed. A failing block is skipped
    /// from its failing transaction on; its earlier transactions stay
    /// applied. The sum of all balances is what the sentinel sent in the
    /// applied transactions. `None` where a credit does not fit in 64 bits.
    pub fn replay(blocks: &Vec<Block>) -> (r: Option<(Ledger, Vec<SkippedBlock>)>)
        requires
            blocks@.len() <= u64::MAX,
        ensures
            r.is_some() == blocks_fit(Map::empty(), block_views(blocks@)),
            match r {
                Some((ledger, skipped)) => {
                    &&& ledger.wf()
                    &&& ledger@ == replay_blocks(Map::empty(), block_views(blocks@))
                    &&& ledger.total() == blocks_minted(Map::empty(), block_views(blocks@))
                    &&& skipped_views(skipped@) == skipped_blocks(
                        Map::empty(),
                        block_views(blocks@),
                        0,
                    )
                },
                None => true,
            },
    {
        let ghost all = block_views(blocks@);
        let ghost m0 = Map::<Seq<char>, u64>::empty();
        let mut ledger = Ledger::new();
        let mut skipped: Vec<SkippedBlock> = Vec::new();
        let mut i: usize = 0;
        proof {
            assert(all.skip(0) =~= all);
            assert(skipped_views(skipped@) =~= Seq::empty());
        }
        while i < blocks.len()
            invariant
                ledger.wf(),
                i <= blocks@.len(),
                blocks@.len() <= u64::MAX,
                all == block_views(blocks@),
                m0 == Map::<Seq<char>, u64>::empty(),
                replay_blocks(m0, all) == replay_blocks(ledger@, all.skip(i as int)),
                blocks_fit(m0, all) == blocks_fit(ledger@, all.skip(i as int)),
                blocks_minted(m0, all) == ledger.total() + blocks_minted(
                    ledger@,
                    all.skip(i as int),
                ),
                skipped_blocks(m0, all, 0) == skipped_views(skipped@) + skipped_blocks(
                    ledger@,
                    all.skip(i as int),
                    i as int,
                ),
            decreases blocks@.len() - i,
        {
            proof {
                assert(all.skip(i as int)[0] == blocks@[i as int]@);
                assert(all.skip(i as int).drop_first() =~= all.skip(i + 1));
            }
            let ghost before = skipped_views(skipped@);
            match ledger.replay_checked(&blocks[i]) {
                None => {
                    return None;
                },
                Some(Err(failure)) => {
                    let s = SkippedBlock { index: i as u64, failure };
                    skipped.push(s);
                    proof {
                        assert(skipped_views(skipped@) =~= before + seq![s@]);
                        assert(skipped_blocks(m0, all, 0) =~= skipped_views(skipped@)
                            + skipped_blocks(ledger@, all.skip(i + 1), i + 1));
                    }
                },
                Some(Ok(_)) => {},
            }
            i += 1;
        }
        proof {
            assert(skipped_views(skipped@) + Seq::<(int, InsufficientFundsView)>::empty()
                =~= skipped_views(skipped@));
        }
        Some((ledger, skipped))
    }

    /// Whether every credit made while replaying `block` on this ledger fits
    /// in 64 bits, so that [`Ledger::apply_block`] may be called.
    pub fn credits_fit(&self, block: &Block) -> (r: bool)
        requires
            self.wf(),
        ensures
            r == replay_fits(self@, block@.transactions),
    {
        let mut trial = Ledger { balances: Vec::new() };
        let mut i: usize = 0;
        while i < self.balances.len()
            invariant
                i <= self.balances@.len(),
                trial.balances@ == self.balances@.take(i as int),
            decreases self.balances@.len() - i,
        {
            let a = Account { name: self.balances[i].name.clone(), balance: self.balances[i].balance };
            trial.balances.push(a);
            proof {
                assert(trial.balances@ =~= self.balances@.take(i + 1));
            }
            i += 1;
        }
        proof {
            assert(self.balances@.take(self.balances@.len() as int) =~= self.balances@);
        }
        trial.replay_checked(block).is_some()
    }
}

/// A replay without a failure adds to the sum of all balances exactly the
/// amounts sent by the sentinel: between the other accounts every credit is
/// matched by a debit.
pub proof fn lemma_replay_conserves(m: Map<Seq<char>, u64>, txs: Seq<TransactionView>)
    requires
        replay_failure(m, txs).is_none(),
    ensures
        replay_minted(m, txs) == genesis_amounts(txs),
    decreases txs.len(),
{
    if txs.len() > 0 {
        lemma_replay_conserves(transferred(m, txs[0]), txs.drop_first());
    }
}

/// Where no block of a chain fails, the balances after a full replay add up
/// to the amounts that the sentinel sent.
pub proof fn lemma_full_replay_conserves(m: Map<Seq<char>, u64>, blocks: Seq<BlockView>)
    requires
        skipped_blocks(m, blocks, 0).len() == 0,
    ensures
        blocks_minted(m, blocks) == blocks_genesis_amounts(blocks),
{
    lemma_full_replay_conserves_from(m, blocks, 0);
}

/// The same, with the blocks counted from any place.
proof fn lemma_full_replay_conserves_from(
    m: Map<Seq<char>, u64>,
    blocks: Seq<BlockView>,
    first: int,
)
    requires
        skipped_blocks(m, blocks, first).len() == 0,
    ensures
        blocks_minted(m, blocks) == blocks_genesis_amounts(blocks),
    decreases blocks.len(),
{
    if blocks.len() > 0 {
        let next = replay_ledger(m, blocks[0].transactions);
        assert(replay_failure(m, blocks[0].transactions).is_none());
        lemma_replay_conserves(m, blocks[0].transactions);
        lemma_full_replay_conserves_from(next, blocks.drop_first(), first + 1);
    }
}

/// Replay stops at the first transfer that its sender cannot cover: the
/// balances are those left by the transactions before it, so the receiver is
/// not credited, and the failure names the sender, the balance found and the
/// amount asked.
pub proof fn lemma_shortfall_rejected(m: Map<Seq<char>, u64>, txs: Seq<TransactionView>, i: int)
    requires
        0 <= i < txs.len(),
        replay_failure(m, txs.take(i)).is_none(),
        lacks_funds(replay_ledger(m, txs.take(i)), txs[i]),
    ensures
        replay_ledger(m, txs) == replay_ledger(m, txs.take(i)),
        replay_failure(m, txs) == Some(shortfall(replay_ledger(m, txs.take(i)), txs[i])),
    decreases i,
{
    if i > 0 {
        assert(txs.take(i)[0] == txs[0]);
        assert(txs.take(i).drop_first() =~= txs.drop_first().take(i - 1));
        lemma_shortfall_rejected(transferred(m, txs[0]), txs.drop_first(), i - 1);
    } else {
        assert(txs.take(0).len() == 0);
    }
}

} // verus!
