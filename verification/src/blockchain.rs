//! The ledger: an append-only chain of blocks, a pool of transactions that
//! wait for the next block, and the balances that the chain implies.

use crate::block::{mint_count, mint_issued, mint_tips, preimage, workable, Block};
use crate::constant::{Config, BLOCK_TIME};
use crate::secp256k1::{is_zero_key, PubKey};
use crate::sha256::{has_zero_prefix, sha256_digest};
use crate::transaction::Transaction;
use vstd::prelude::*;

verus! {

/// The most transactions that one chain may hold, over all its blocks. It
/// keeps every balance within `i128`.
pub const MAX_HISTORY: u64 = 0x1000_0000_0000_0000;

/// What one transaction adds to the balance of `addr`: the amount where
/// `addr` receives, less amount and tips where `addr` sends.
pub open spec fn tx_delta(tx: Transaction, addr: Seq<u8>) -> int {
    (if tx.to@ == addr {
        tx.amount as int
    } else {
        0
    }) - (if tx.from@ == addr {
        tx.amount + tx.tips
    } else {
        0
    })
}

/// What a run of transactions adds to the balance of `addr`.
pub open spec fn data_balance(data: Seq<Transaction>, addr: Seq<u8>) -> int
    decreases data.len(),
{
    if data.len() == 0 {
        0
    } else {
        data_balance(data.drop_last(), addr) + tx_delta(data.last(), addr)
    }
}

/// The balance of `addr` after a run of blocks.
pub open spec fn blocks_balance(blocks: Seq<Block>, addr: Seq<u8>) -> int
    decreases blocks.len(),
{
    if blocks.len() == 0 {
        0
    } else {
        blocks_balance(blocks.drop_last(), addr) + data_balance(blocks.last().data@, addr)
    }
}

/// The number of transactions in a run of blocks.
pub open spec fn history_len(blocks: Seq<Block>) -> nat
    decreases blocks.len(),
{
    if blocks.len() == 0 {
        0
    } else {
        history_len(blocks.drop_last()) + blocks.last().data@.len()
    }
}

/// A prefix of a chain holds no more transactions than the chain.
pub proof fn lemma_history_prefix(blocks: Seq<Block>, i: int)
    requires
        0 <= i <= blocks.len(),
    ensures
        history_len(blocks.subrange(0, i)) <= history_len(blocks),
    decreases blocks.len(),
{
    if i == blocks.len() {
        assert(blocks.subrange(0, i) =~= blocks);
    } else {
        lemma_history_prefix(blocks.drop_last(), i);
        assert(blocks.drop_last().subrange(0, i) =~= blocks.subrange(0, i));
    }
}

/// No single transaction moves a balance by 2^65 or more.
pub proof fn lemma_tx_delta_bound(tx: Transaction, addr: Seq<u8>)
    ensures
        -0x2_0000_0000_0000_0000 < tx_delta(tx, addr) < 0x2_0000_0000_0000_0000,
{
}

/// The total tips of a run of transactions.
pub open spec fn total_tips(data: Seq<Transaction>) -> int
    decreases data.len(),
{
    if data.len() == 0 {
        0
    } else {
        total_tips(data.drop_last()) + data.last().tips
    }
}

/// The difficulty after a block: one more where the block was finished
/// after the time it states, one less otherwise, and never outside 0..=31.
pub open spec fn adjusted_difficulty(difficulty: u32, late: bool) -> u32 {
    if late {
        if difficulty < 31 {
            (difficulty + 1) as u32
        } else {
            difficulty
        }
    } else {
        if difficulty > 0 {
            (difficulty - 1) as u32
        } else {
            0
        }
    }
}

/// The difficulty that follows `difficulty` when a block stamped
/// `timestamp` was finished at `now`.
pub fn next_difficulty(difficulty: u32, now: i64, timestamp: i64) -> (r: u32)
    ensures
        r == adjusted_difficulty(difficulty, now > timestamp),
{
    if now > timestamp {
        if difficulty < 31 {
            difficulty + 1
        } else {
            difficulty
        }
    } else {
        if difficulty > 0 {
            difficulty - 1
        } else {
            0
        }
    }
}

/// Calls `chrono::Utc::now`, then `timestamp_millis`: the time of the call
/// in milliseconds since the Unix epoch. Nothing is promised of it.
#[verifier::external_body]
fn now_millis() -> (now: i64) {
    chrono::Utc::now().timestamp_millis()
}

/// Whether the miner's reward for a pool can be written down: the pool's
/// tips, and reward plus tips, are within `i64`.
pub open spec fn reward_fits(reward: i64, pool: Seq<Transaction>) -> bool {
    &&& i64::MIN <= total_tips(pool) <= i64::MAX
    &&& i64::MIN <= reward + total_tips(pool) <= i64::MAX
}

/// The entry that pays the miner of a pool, before it is signed: the mint
/// sends the reward and the pool's tips to `reward_address`, and names those
/// tips as its own.
pub open spec fn reward_draft(
    reward: i64,
    pool: Seq<Transaction>,
    config: &Config,
    reward_address: PubKey,
) -> Transaction {
    Transaction {
        from: config.mint_address,
        to: reward_address,
        amount: (reward + total_tips(pool)) as i64,
        tips: total_tips(pool) as i64,
        signature: config.mint_signature,
    }
}

/// Whether the mint's key pair signs the entry that pays the miner.
pub open spec fn reward_signs(
    reward: i64,
    pool: Seq<Transaction>,
    config: &Config,
    reward_address: PubKey,
) -> bool {
    reward_draft(reward, pool, config, reward_address).signing_outcome(&config.mint_key_pair)
        is Some
}

/// The entry that pays the miner of a pool, as the mint's key pair signs it.
pub open spec fn reward_entry(
    reward: i64,
    pool: Seq<Transaction>,
    config: &Config,
    reward_address: PubKey,
) -> Transaction {
    reward_draft(reward, pool, config, reward_address).signed_with(&config.mint_key_pair)
}

/// The entry that pays the miner is from the mint to the miner, of reward
/// and tips, and names the tips. Where the mint's key pair signs, it
/// carries that signature and is signed.
pub proof fn lemma_reward_entry(
    reward: i64,
    pool: Seq<Transaction>,
    config: &Config,
    reward_address: PubKey,
)
    ensures
        reward_entry(reward, pool, config, reward_address).from == config.mint_address,
        reward_entry(reward, pool, config, reward_address).to == reward_address,
        reward_fits(reward, pool) ==> {
            &&& reward_entry(reward, pool, config, reward_address).amount == reward + total_tips(
                pool,
            )
            &&& reward_entry(reward, pool, config, reward_address).tips == total_tips(pool)
        },
        reward_signs(reward, pool, config, reward_address) ==> {
            &&& reward_entry(reward, pool, config, reward_address).is_signed()
            &&& Some(reward_entry(reward, pool, config, reward_address).signature@) == reward_draft(
                reward,
                pool,
                config,
                reward_address,
            ).signing_outcome(&config.mint_key_pair)
        },
{
    Transaction::lemma_signed_with(
        reward_draft(reward, pool, config, reward_address),
        &config.mint_key_pair,
    );
}

/// The transactions of the block that mining makes of a pool: the pool in
/// its order, then the miner's reward.
pub open spec fn pool_block_data(
    reward: i64,
    pool: Seq<Transaction>,
    config: &Config,
    reward_address: PubKey,
) -> Seq<Transaction> {
    pool.push(reward_entry(reward, pool, config, reward_address))
}

/// A run of transactions that `mint` sent none of issues nothing.
pub proof fn lemma_nothing_issued(data: Seq<Transaction>, mint: Seq<u8>)
    requires
        forall|k: int| 0 <= k < data.len() ==> (#[trigger] data[k]).from@ != mint,
    ensures
        mint_issued(data, mint) == 0,
        mint_tips(data, mint) == 0,
        mint_count(data, mint) == 0,
    decreases data.len(),
{
    if data.len() > 0 {
        let init = data.drop_last();
        assert forall|k: int| 0 <= k < init.len() implies (#[trigger] init[k]).from@ != mint by {
            assert(init[k] == data[k]);
        }
        lemma_nothing_issued(init, mint);
        assert(data.last() == data[data.len() - 1]);
    }
}

/// What mining makes of a pool meets the rule for a block's reward. Where
/// the pool holds nothing that the mint sent, the block's one transaction
/// from the mint issues the reward and the tips that it names, and no more.
pub proof fn lemma_mined_block_pays_reward(
    reward: i64,
    pool: Seq<Transaction>,
    config: &Config,
    reward_address: PubKey,
)
    requires
        reward_fits(reward, pool),
        forall|k: int| 0 <= k < pool.len() ==> (#[trigger] pool[k]).from@ != config.mint_address@,
    ensures
        mint_issued(
            pool_block_data(reward, pool, config, reward_address),
            config.mint_address@,
        ) - mint_tips(pool_block_data(reward, pool, config, reward_address), config.mint_address@)
            == reward,
        mint_count(pool_block_data(reward, pool, config, reward_address), config.mint_address@)
            == 1,
{
    let data = pool_block_data(reward, pool, config, reward_address);
    lemma_nothing_issued(pool, config.mint_address@);
    assert(data.drop_last() =~= pool);
}

#[derive(Debug, PartialEq)]
pub struct BlockChain {
    /// The pool: transactions that were accepted and wait for a block.
    pub transactions: Vec<Transaction>,
    pub chain: Vec<Block>,
    /// How many leading zero bytes the next block's digest needs.
    pub difficulty: u32,
    pub block_time: u32,
    pub reward: i64,
    /// The key whose transactions issue new value.
    pub mint_address: PubKey,
}

impl BlockChain {
    /// A ledger in working order: it has its first block, a difficulty that
    /// a digest can meet, and a history short enough to add up.
    pub open spec fn wf(&self) -> bool {
        &&& self.chain@.len() >= 1
        &&& self.difficulty < 32
        &&& self.within_capacity()
    }

    /// Whether the history is short enough for balances to add up.
    pub open spec fn within_capacity(&self) -> bool {
        history_len(self.chain@) <= MAX_HISTORY
    }

    /// The balance of `addr`: all it received, less all it sent and tipped.
    pub open spec fn balance_of(&self, addr: Seq<u8>) -> int {
        blocks_balance(self.chain@, addr)
    }

    pub fn len(&self) -> (n: usize)
        ensures
            n == self.chain@.len(),
    {
        self.chain.len()
    }

    pub fn get_last_block(&self) -> (b: &Block)
        requires
            self.chain@.len() >= 1,
        ensures
            *b == self.chain@.last(),
    {
        &self.chain[self.chain.len() - 1]
    }

    /// Replays the whole chain for one address.
    pub fn get_balance(&self, address: &PubKey) -> (balance: i128)
        requires
            self.within_capacity(),
        ensures
            balance == self.balance_of(address@),
    {
        let mut balance: i128 = 0;
        let mut i: usize = 0;
        while i < self.chain.len()
            invariant
                i <= self.chain@.len(),
                history_len(self.chain@) <= MAX_HISTORY,
                balance == blocks_balance(self.chain@.subrange(0, i as int), address@),
                -0x2_0000_0000_0000_0000 * history_len(self.chain@.subrange(0, i as int))
                    <= balance <= 0x2_0000_0000_0000_0000 * history_len(
                    self.chain@.subrange(0, i as int),
                ),
            decreases self.chain@.len() - i,
        {
            let block = &self.chain[i];
            let ghost before = self.chain@.subrange(0, i as int);
            let ghost base = balance as int;
            proof {
                lemma_history_prefix(self.chain@, i + 1);
                assert(self.chain@.subrange(0, i + 1).drop_last() =~= before);
            }
            let mut j: usize = 0;
            while j < block.data.len()
                invariant
                    j <= block.data@.len(),
                    history_len(before) + block.data@.len() <= MAX_HISTORY,
                    -0x2_0000_0000_0000_0000 * history_len(before) <= base
                        <= 0x2_0000_0000_0000_0000 * history_len(before),
                    balance == base + data_balance(block.data@.subrange(0, j as int), address@),
                    -0x2_0000_0000_0000_0000 * j <= data_balance(
                        block.data@.subrange(0, j as int),
                        address@,
                    ) <= 0x2_0000_0000_0000_0000 * j,
                decreases block.data@.len() - j,
            {
                let tx = &block.data[j];
                proof {
                    lemma_tx_delta_bound(*tx, address@);
                    assert(block.data@.subrange(0, j + 1).drop_last() =~= block.data@.subrange(
                        0,
                        j as int,
                    ));
                }
                if address.same(&tx.to) {
                    balance = balance + tx.amount as i128;
                }
                if address.same(&tx.from) {
                    balance = balance - (tx.amount as i128 + tx.tips as i128);
                }
                j += 1;
            }
            assert(block.data@.subrange(0, j as int) =~= block.data@);
            i += 1;
        }
        assert(self.chain@.subrange(0, i as int) =~= self.chain@);
        balance
    }

    /// The first transaction of every ledger: the mint grants the owner the
    /// initial amount. It carries the placeholder signature.
    pub open spec fn genesis_entry(config: &Config) -> Transaction {
        Transaction {
            from: config.mint_address,
            to: config.owner,
            amount: config.initial_grant,
            tips: 0,
            signature: config.mint_signature,
        }
    }

    /// Whether this is the ledger that `config` starts at `timestamp`: one
    /// block with the genesis entry, an empty pool, difficulty 1.
    pub open spec fn is_fresh(&self, config: &Config, timestamp: i64) -> bool {
        &&& self.transactions@.len() == 0
        &&& self.chain@.len() == 1
        &&& self.chain@[0].timestamp == timestamp
        &&& self.chain@[0].data@ == seq![Self::genesis_entry(config)]
        &&& self.chain@[0].nonce == 0
        &&& self.chain@[0].prev_hash@ == Seq::new(32, |k: int| 0u8)
        &&& self.chain@[0].hash@ == self.chain@[0].content_hash()
        &&& self.difficulty == 1
        &&& self.block_time == BLOCK_TIME
        &&& self.reward == config.reward
        &&& self.mint_address == config.mint_address
    }

    /// Whether every block after the first has the digest of its fields and
    /// names the digest of the block before it.
    pub open spec fn linked(&self) -> bool {
        forall|k: int|
            1 <= k < self.chain@.len() ==> {
                &&& (#[trigger] self.chain@[k]).hash@ == self.chain@[k].content_hash()
                &&& self.chain@[k].prev_hash@ == self.chain@[k - 1].hash@
            }
    }

    /// Whether the chain stands: it is linked, and this ledger accepts the
    /// transactions of every block after the first.
    pub open spec fn valid(&self) -> bool {
        forall|k: int|
            1 <= k < self.chain@.len() ==> {
                &&& (#[trigger] self.chain@[k]).hash@ == self.chain@[k].content_hash()
                &&& self.chain@[k].prev_hash@ == self.chain@[k - 1].hash@
                &&& self.chain@[k].transactions_valid_in(self)
            }
    }

    /// What appending does: the chain ends in `sealed`, the difficulty is
    /// adjusted to whether `now` is after the block's time, the rest stays.
    pub open spec fn extended_by(&self, before: &BlockChain, sealed: &Block, now: i64) -> bool {
        &&& self.chain@.len() == before.chain@.len() + 1
        &&& self.chain@.drop_last() == before.chain@
        &&& self.chain@.last().timestamp == sealed.timestamp
        &&& self.chain@.last().data@ == sealed.data@
        &&& self.chain@.last().prev_hash == sealed.prev_hash
        &&& self.chain@.last().hash == sealed.hash
        &&& self.chain@.last().nonce == sealed.nonce
        &&& self.difficulty == adjusted_difficulty(before.difficulty, now > sealed.timestamp)
        &&& self.block_time == before.block_time
        &&& self.reward == before.reward
        &&& self.mint_address == before.mint_address
    }

    /// Whether this ledger is a copy of `other` that starts over at
    /// difficulty 1: the same pool and the same blocks, field for field.
    pub open spec fn restarted_copy_of(&self, other: &BlockChain) -> bool {
        &&& self.transactions@ == other.transactions@
        &&& self.chain@.len() == other.chain@.len()
        &&& forall|k: int|
            0 <= k < other.chain@.len() ==> (#[trigger] self.chain@[k]).same_fields(
                &other.chain@[k],
            )
        &&& self.difficulty == 1
        &&& self.block_time == other.block_time
        &&& self.reward == other.reward
        &&& self.mint_address == other.mint_address
    }

    /// Whether nothing but the pool may differ from `before`.
    pub open spec fn same_chain_as(&self, before: &BlockChain) -> bool {
        &&& self.chain@ == before.chain@
        &&& self.difficulty == before.difficulty
        &&& self.block_time == before.block_time
        &&& self.reward == before.reward
        &&& self.mint_address == before.mint_address
    }

    /// What `add_block` does with `block` when the clock reads `now` after
    /// mining: where some nonce works, the chain is extended by `block`,
    /// linked behind the old tip and mined at the old difficulty; where none
    /// does, the ledger stays as it was. The pool stays in either case.
    pub open spec fn block_added(
        &self,
        before: &BlockChain,
        block: &Block,
        now: i64,
        appended: bool,
    ) -> bool {
        &&& self.transactions@ == before.transactions@
        &&& appended == workable(
            before.chain@.last().hash@,
            block.timestamp,
            block.data@,
            block.nonce,
            before.difficulty,
        )
        &&& appended ==> {
            &&& self.extended_by(before, &self.chain@.last(), now)
            &&& self.chain@.last().sealed_from(
                block.timestamp,
                block.data@,
                block.nonce,
                before.chain@.last().hash@,
                before.difficulty,
            )
        }
        &&& !appended ==> self.same_chain_as(before)
    }

    /// Chain linkage, at the start. A ledger of one block stands: there is
    /// no block after the first to check.
    pub proof fn lemma_single_block_valid(chain: &BlockChain)
        requires
            chain.chain@.len() <= 1,
        ensures
            chain.valid(),
            chain.linked(),
    {
    }

    /// Chain linkage, block by block. A chain that stands still stands
    /// with one more block, where that block has the digest of its fields,
    /// names the old tip's digest and holds transactions that the longer
    /// ledger accepts, and where it takes from no earlier sender but the
    /// mint more than it gives: the earlier transactions are judged anew by
    /// the balances of the longer ledger, and the mint needs no balance.
    pub proof fn lemma_append_keeps_valid(before: &BlockChain, after: &BlockChain)
        requires
            before.valid(),
            before.chain@.len() >= 1,
            after.chain@.len() == before.chain@.len() + 1,
            after.chain@.drop_last() == before.chain@,
            after.reward == before.reward,
            after.mint_address == before.mint_address,
            after.chain@.last().hash@ == after.chain@.last().content_hash(),
            after.chain@.last().prev_hash@ == before.chain@.last().hash@,
            after.chain@.last().transactions_valid_in(after),
            forall|k: int, j: int|
                1 <= k < before.chain@.len() && 0 <= j < before.chain@[k].data@.len() && (
                #[trigger] before.chain@[k].data@[j]).from@ != before.mint_address@
                    ==> data_balance(
                    after.chain@.last().data@,
                    before.chain@[k].data@[j].from@,
                ) >= 0,
        ensures
            after.valid(),
    {
        let n = before.chain@.len() as int;
        assert forall|k: int| 1 <= k < after.chain@.len() implies {
            &&& (#[trigger] after.chain@[k]).hash@ == after.chain@[k].content_hash()
            &&& after.chain@[k].prev_hash@ == after.chain@[k - 1].hash@
            &&& after.chain@[k].transactions_valid_in(after)
        } by {
            assert(after.chain@[k - 1] == if k - 1 < n {
                before.chain@[k - 1]
            } else {
                after.chain@.last()
            });
            if k < n {
                let block = before.chain@[k];
                assert(after.chain@[k] == block);
                assert(block.transactions_valid_in(before));
                assert forall|j: int| 0 <= j < block.data@.len() implies (#[trigger] block.data@[j]).valid_in(
                    after,
                ) by {
                    let tx = block.data@[j];
                    assert(tx.valid_in(before));
                    if tx.from@ != before.mint_address@ {
                        assert(data_balance(
                            after.chain@.last().data@,
                            before.chain@[k].data@[j].from@,
                        ) >= 0);
                    }
                }
            } else {
                assert(after.chain@[k] == after.chain@.last());
                assert(after.chain@[k - 1] == before.chain@.last());
            }
        }
    }

    /// Chain linkage, mined block after mined block. A chain that stands
    /// still stands after its empty pool was mined for a reward above zero,
    /// by the ledger's own mint, for a miner with a key: the new block holds
    /// the signed reward alone, which takes from nobody but the mint.
    pub proof fn lemma_mining_keeps_valid(
        before: &BlockChain,
        after: &BlockChain,
        config: &Config,
        reward_address: PubKey,
        created: i64,
        finished: i64,
        block: Block,
    )
        requires
            before.valid(),
            before.chain@.len() >= 1,
            before.transactions@.len() == 0,
            before.reward > 0,
            config.mint_address == before.mint_address,
            !is_zero_key(config.mint_address@),
            !is_zero_key(reward_address@),
            after.pool_mined(before, config, reward_address, created, finished, Some(block)),
        ensures
            after.valid(),
    {
        let pool = before.transactions@;
        let data = pool_block_data(before.reward, pool, config, reward_address);
        let entry = reward_entry(before.reward, pool, config, reward_address);
        let last = after.chain@.last();
        lemma_reward_entry(before.reward, pool, config, reward_address);
        lemma_mined_block_pays_reward(before.reward, pool, config, reward_address);
        assert(total_tips(pool) == 0);
        assert(data =~= seq![entry]);
        assert(last.data@ == data);
        assert(last.hash_at(last.nonce) == block.hash_at(block.nonce));
        assert(entry.valid_in(after));
        assert(last.transactions_valid_in(after));
        assert forall|addr: Seq<u8>| addr != before.mint_address@ implies data_balance(data, addr)
            >= 0 by {
            assert(data.drop_last() =~= Seq::<Transaction>::empty());
            assert(data_balance(data.drop_last(), addr) == 0);
            assert(data.last() == entry);
        }
        Self::lemma_append_keeps_valid(before, after);
    }

    /// A chain that stands is linked.
    pub proof fn lemma_valid_is_linked(chain: &BlockChain)
        requires
            chain.valid(),
        ensures
            chain.linked(),
    {
    }

    /// The ledger that `config` starts at `timestamp`.
    pub fn new_at(config: &Config, timestamp: i64) -> (r: Self)
        ensures
            r.is_fresh(config, timestamp),
            r.wf(),
            r.valid(),
    {
        let first = Transaction {
            from: config.mint_address,
            to: config.owner,
            amount: config.initial_grant,
            tips: 0,
            signature: config.mint_signature,
        };
        let mut data: Vec<Transaction> = Vec::new();
        data.push(first);
        assert(data@ =~= seq![Self::genesis_entry(config)]);
        let block = Block::new(timestamp, data);
        let mut chain: Vec<Block> = Vec::new();
        chain.push(block);
        let r = BlockChain {
            transactions: Vec::new(),
            chain,
            difficulty: 1,
            block_time: BLOCK_TIME,
            reward: config.reward,
            mint_address: config.mint_address,
        };
        proof {
            assert(r.chain@.drop_last() =~= Seq::<Block>::empty());
            assert(history_len(r.chain@.drop_last()) == 0);
            assert(history_len(r.chain@) == 1);
        }
        r
    }

    /// The ledger that `config` starts now.
    pub fn new(config: &Config) -> (r: Self)
        ensures
            exists|timestamp: i64| r.is_fresh(config, timestamp),
            r.wf(),
            r.valid(),
    {
        let timestamp = now_millis();
        Self::new_at(config, timestamp)
    }

    /// Whether the ledger is in working order.
    pub fn is_well_formed(&self) -> (r: bool)
        ensures
            r == self.wf(),
    {
        if self.chain.len() == 0 || self.difficulty >= 32 {
            return false;
        }
        let mut total: u64 = 0;
        let mut i: usize = 0;
        while i < self.chain.len()
            invariant
                i <= self.chain@.len(),
                total == history_len(self.chain@.subrange(0, i as int)),
                total <= MAX_HISTORY,
            decreases self.chain@.len() - i,
        {
            let n: usize = self.chain[i].data.len();
            proof {
                lemma_history_prefix(self.chain@, i + 1);
                assert(self.chain@.subrange(0, i + 1).drop_last() =~= self.chain@.subrange(
                    0,
                    i as int,
                ));
            }
            if n as u64 > MAX_HISTORY - total {
                return false;
            }
            total = total + n as u64;
            i += 1;
        }
        assert(self.chain@.subrange(0, i as int) =~= self.chain@);
        true
    }

    /// Whether `more` further transactions still fit into the history.
    pub fn has_room_for(&self, more: usize) -> (r: bool)
        requires
            self.within_capacity(),
        ensures
            r == (history_len(self.chain@) + more <= MAX_HISTORY),
    {
        let mut total: u64 = 0;
        let mut i: usize = 0;
        while i < self.chain.len()
            invariant
                i <= self.chain@.len(),
                self.within_capacity(),
                total == history_len(self.chain@.subrange(0, i as int)),
                total <= MAX_HISTORY,
            decreases self.chain@.len() - i,
        {
            let n: usize = self.chain[i].data.len();
            proof {
                lemma_history_prefix(self.chain@, i + 1);
                assert(self.chain@.subrange(0, i + 1).drop_last() =~= self.chain@.subrange(
                    0,
                    i as int,
                ));
            }
            total = total + n as u64;
            i += 1;
        }
        assert(self.chain@.subrange(0, i as int) =~= self.chain@);
        more as u64 <= MAX_HISTORY - total
    }

    /// Links `block` behind the tip and mines it at the ledger's difficulty.
    /// `None` where no nonce from the block's own on works.
    pub fn seal(&self, block: Block) -> (r: Option<Block>)
        requires
            self.chain@.len() >= 1,
            self.difficulty < 32,
        ensures
            r is Some <==> workable(
                self.chain@.last().hash@,
                block.timestamp,
                block.data@,
                block.nonce,
                self.difficulty,
            ),
            r matches Some(sealed) ==> sealed.sealed_from(
                block.timestamp,
                block.data@,
                block.nonce,
                self.chain@.last().hash@,
                self.difficulty,
            ),
    {
        let mut sealed = block;
        sealed.prev_hash = self.get_last_block().hash;
        sealed.hash = sealed.get_hash();
        let ghost start = sealed;
        let ghost prev = self.chain@.last().hash@;
        let ghost d = self.difficulty;
        let found = sealed.mine(self.difficulty);
        proof {
            assert(start.mined(d) == start.mined_at(start.nonce, d));
            if found {
                assert(sealed.hash_at(sealed.nonce) == start.hash_at(sealed.nonce));
                assert(start.mined_at(sealed.nonce, d));
                assert(has_zero_prefix(
                    sha256_digest(preimage(prev, block.timestamp, block.data@, sealed.nonce)),
                    d as int,
                ));
                assert forall|m: u64| block.nonce <= m < sealed.nonce implies !#[trigger] sealed.mined_at(
                    m,
                    d,
                ) by {
                    assert(sealed.mined_at(m, d) == start.mined_at(m, d));
                }
            }
            if workable(prev, block.timestamp, block.data@, block.nonce, d) {
                let m = choose|m: u64|
                    m >= block.nonce && has_zero_prefix(
                        #[trigger] sha256_digest(preimage(prev, block.timestamp, block.data@, m)),
                        d as int,
                    );
                assert(start.mined_at(m, d));
            }
        }
        if found {
            Some(sealed)
        } else {
            None
        }
    }

    /// Appends a sealed block and adjusts the difficulty.
    pub fn append(&mut self, sealed: Block, now: i64)
        requires
            old(self).wf(),
            history_len(old(self).chain@) + sealed.data@.len() <= MAX_HISTORY,
        ensures
            final(self).wf(),
            final(self).transactions@ == old(self).transactions@,
            final(self).extended_by(old(self), &sealed, now),
            final(self).chain@ == old(self).chain@.push(sealed),
    {
        let timestamp: i64 = sealed.timestamp;
        self.chain.push(sealed);
        self.difficulty = next_difficulty(self.difficulty, now, timestamp);
        proof {
            assert(final(self).chain@.drop_last() =~= old(self).chain@);
        }
    }

    /// Links, mines and appends `block`, taking `now` for the time at which
    /// mining ended. Says whether the block was appended.
    pub fn add_block_at(&mut self, block: Block, now: i64) -> (appended: bool)
        requires
            old(self).wf(),
            history_len(old(self).chain@) + block.data@.len() <= MAX_HISTORY,
        ensures
            final(self).wf(),
            final(self).block_added(old(self), &block, now, appended),
            old(self).linked() ==> final(self).linked(),
    {
        match self.seal(block) {
            Some(sealed) => {
                self.append(sealed, now);
                true
            },
            None => false,
        }
    }

    /// Links, mines and appends `block`, and says whether it was appended.
    /// The clock is read when mining has ended.
    pub fn add_block(&mut self, block: Block) -> (appended: bool)
        requires
            old(self).wf(),
            history_len(old(self).chain@) + block.data@.len() <= MAX_HISTORY,
        ensures
            final(self).wf(),
            exists|now: i64| final(self).block_added(old(self), &block, now, appended),
            old(self).linked() ==> final(self).linked(),
    {
        match self.seal(block) {
            Some(sealed) => {
                let now = now_millis();
                self.append(sealed, now);
                assert(final(self).block_added(old(self), &block, now, true));
                true
            },
            None => {
                assert(final(self).block_added(old(self), &block, 0, false));
                false
            },
        }
    }

    /// Puts `trans` into the pool where the ledger accepts it, and drops it
    /// where not.
    pub fn add_transaction(&mut self, trans: Transaction)
        requires
            old(self).within_capacity(),
        ensures
            final(self).same_chain_as(old(self)),
            final(self).transactions@ == (if trans.valid_in(old(self)) {
                old(self).transactions@.push(trans)
            } else {
                old(self).transactions@
            }),
    {
        if trans.is_valid(self) {
            self.transactions.push(trans);
        }
    }

    /// Whether `chain` stands: every block after its first has the digest of
    /// its fields, names its predecessor's digest, and holds transactions
    /// that `chain` accepts.
    pub fn is_valid(&self, chain: &BlockChain) -> (r: bool)
        requires
            chain.within_capacity(),
        ensures
            r == chain.valid(),
    {
        let mut index: usize = 1;
        while index < chain.chain.len()
            invariant
                1 <= index,
                chain.within_capacity(),
                forall|k: int|
                    1 <= k < index && k < chain.chain@.len() ==> {
                        &&& (#[trigger] chain.chain@[k]).hash@ == chain.chain@[k].content_hash()
                        &&& chain.chain@[k].prev_hash@ == chain.chain@[k - 1].hash@
                        &&& chain.chain@[k].transactions_valid_in(chain)
                    },
            decreases chain.chain@.len() - index,
        {
            let current_block = &chain.chain[index];
            let prev_block = &chain.chain[index - 1];
            let hash = current_block.get_hash();
            if !current_block.hash.same(&hash) || !prev_block.hash.same(&current_block.prev_hash)
                || !current_block.has_valid_transaction(chain) {
                return false;
            }
            index += 1;
        }
        true
    }

    /// What `mine_transaction` does when the clock reads `created` before
    /// and `finished` after mining. Where the reward can be written down,
    /// the mint's key pair signs it and some nonce works, the pool and the
    /// signed reward become a block stamped
    /// `created`, linked behind the old tip and mined at the old difficulty;
    /// the pool is empty afterwards and `result` is a copy of the new tip.
    /// Otherwise nothing changes and `result` is `None`.
    pub open spec fn pool_mined(
        &self,
        before: &BlockChain,
        config: &Config,
        reward_address: PubKey,
        created: i64,
        finished: i64,
        result: Option<Block>,
    ) -> bool {
        self.mined_from(
            before,
            before.transactions@,
            config,
            reward_address,
            created,
            finished,
            result,
        )
    }

    /// `pool_mined` for a ledger that is `before` but for its pool, which
    /// is `pool`.
    pub open spec fn mined_from(
        &self,
        before: &BlockChain,
        pool: Seq<Transaction>,
        config: &Config,
        reward_address: PubKey,
        created: i64,
        finished: i64,
        result: Option<Block>,
    ) -> bool {
        &&& result is Some <==> reward_fits(before.reward, pool) && reward_signs(
            before.reward,
            pool,
            config,
            reward_address,
        ) && workable(
            before.chain@.last().hash@,
            created,
            pool_block_data(before.reward, pool, config, reward_address),
            0,
            before.difficulty,
        )
        &&& match result {
            Some(block) => {
                &&& self.transactions@.len() == 0
                &&& self.extended_by(before, &block, finished)
                &&& block.data@.last().is_signed()
                &&& block.sealed_from(
                    created,
                    pool_block_data(before.reward, pool, config, reward_address),
                    0,
                    before.chain@.last().hash@,
                    before.difficulty,
                )
            },
            None => self.transactions@ == pool && self.same_chain_as(before),
        }
    }

    /// Whether mining the pool for `reward_address` keeps a chain that
    /// stands standing: the chain stands, the pool is empty, the reward is
    /// above zero, the mint of `config` is the ledger's, and neither the
    /// mint nor the miner has the zero key.
    pub open spec fn mines_cleanly(&self, config: &Config, reward_address: PubKey) -> bool {
        &&& self.valid()
        &&& self.transactions@.len() == 0
        &&& self.reward > 0
        &&& config.mint_address == self.mint_address
        &&& !is_zero_key(config.mint_address@)
        &&& !is_zero_key(reward_address@)
    }

    /// The block that mining would make of the pool at time `created`, not
    /// yet linked or mined. `None` where the reward cannot be written down
    /// or the mint's key pair does not sign it.
    pub fn draft_block(&self, config: &Config, reward_address: &PubKey, created: i64) -> (r: Option<
        Block,
    >)
        ensures
            r is Some <==> reward_fits(self.reward, self.transactions@) && reward_signs(
                self.reward,
                self.transactions@,
                config,
                *reward_address,
            ),
            r matches Some(block) ==> {
                &&& block.data@.last().is_signed()
                &&& block.timestamp == created
                &&& block.data@ == pool_block_data(
                    self.reward,
                    self.transactions@,
                    config,
                    *reward_address,
                )
                &&& block.nonce == 0
            },
    {
        let mut tips: i128 = 0;
        let mut data: Vec<Transaction> = Vec::new();
        let mut i: usize = 0;
        while i < self.transactions.len()
            invariant
                i <= self.transactions@.len(),
                tips == total_tips(self.transactions@.subrange(0, i as int)),
                -0x8000_0000_0000_0000 * i <= tips <= 0x8000_0000_0000_0000 * i,
                data@ == self.transactions@.subrange(0, i as int),
            decreases self.transactions@.len() - i,
        {
            let tx = self.transactions[i];
            proof {
                assert(self.transactions@.subrange(0, i + 1).drop_last()
                    =~= self.transactions@.subrange(0, i as int));
            }
            tips = tips + tx.tips as i128;
            data.push(tx);
            assert(data@ =~= self.transactions@.subrange(0, i + 1));
            i += 1;
        }
        assert(self.transactions@.subrange(0, i as int) =~= self.transactions@);
        let amount: i128 = self.reward as i128 + tips;
        if tips < i64::MIN as i128 || tips > i64::MAX as i128 || amount < i64::MIN as i128 || amount
            > i64::MAX as i128 {
            return None;
        }
        let mut reward = Transaction::new(
            config.mint_address,
            *reward_address,
            amount as i64,
            Some(tips as i64),
            config,
        );
        if !reward.sign(&config.mint_key_pair) {
            return None;
        }
        data.push(reward);
        Some(Block::new(created, data))
    }

    /// Empties the pool and appends the sealed block that was made of it.
    /// Returns a copy of the new tip.
    pub fn commit(&mut self, sealed: Block, finished: i64) -> (r: Block)
        requires
            old(self).wf(),
            history_len(old(self).chain@) + sealed.data@.len() <= MAX_HISTORY,
        ensures
            final(self).wf(),
            final(self).transactions@.len() == 0,
            final(self).extended_by(old(self), &r, finished),
            final(self).chain@ == old(self).chain@.push(sealed),
            r.timestamp == sealed.timestamp,
            r.data@ == sealed.data@,
            r.prev_hash == sealed.prev_hash,
            r.hash == sealed.hash,
            r.nonce == sealed.nonce,
    {
        let copy = sealed.duplicate();
        self.transactions = Vec::new();
        self.append(sealed, finished);
        copy
    }

    /// Mines the pool into a block for the miner at `reward_address`, taking
    /// `created` and `finished` for the clock before and after mining.
    pub fn mine_transaction_at(
        &mut self,
        config: &Config,
        reward_address: &PubKey,
        created: i64,
        finished: i64,
    ) -> (r: Option<Block>)
        requires
            old(self).wf(),
            history_len(old(self).chain@) + old(self).transactions@.len() + 1 <= MAX_HISTORY,
        ensures
            final(self).wf(),
            final(self).pool_mined(old(self), config, *reward_address, created, finished, r),
            r is Some && old(self).linked() ==> final(self).linked(),
            r is Some && old(self).mines_cleanly(config, *reward_address) ==> final(self).valid(),
    {
        let block = match self.draft_block(config, reward_address, created) {
            Some(block) => block,
            None => {
                return None;
            },
        };
        match self.seal(block) {
            Some(sealed) => {
                let ghost kept = sealed;
                let tip = self.commit(sealed, finished);
                proof {
                    Block::lemma_sealed_same_fields(
                        &kept,
                        &tip,
                        created,
                        pool_block_data(
                            old(self).reward,
                            old(self).transactions@,
                            config,
                            *reward_address,
                        ),
                        0,
                        old(self).chain@.last().hash@,
                        old(self).difficulty,
                    );
                    if old(self).mines_cleanly(config, *reward_address) {
                        Self::lemma_mining_keeps_valid(
                            old(self),
                            final(self),
                            config,
                            *reward_address,
                            created,
                            finished,
                            tip,
                        );
                    }
                }
                Some(tip)
            },
            None => None,
        }
    }

    /// Mines the pool into a block for the miner at `reward_address`. The
    /// clock is read before the block is made and again when mining ended.
    pub fn mine_transaction(&mut self, config: &Config, reward_address: &PubKey) -> (r: Option<Block>)
        requires
            old(self).wf(),
            history_len(old(self).chain@) + old(self).transactions@.len() + 1 <= MAX_HISTORY,
        ensures
            final(self).wf(),
            exists|created: i64, finished: i64|
                final(self).pool_mined(old(self), config, *reward_address, created, finished, r),
            r is Some && old(self).linked() ==> final(self).linked(),
            r is Some && old(self).mines_cleanly(config, *reward_address) ==> final(self).valid(),
    {
        let created = now_millis();
        let block = match self.draft_block(config, reward_address, created) {
            Some(block) => block,
            None => {
                assert(final(self).pool_mined(old(self), config, *reward_address, created, 0, None));
                return None;
            },
        };
        match self.seal(block) {
            Some(sealed) => {
                let finished = now_millis();
                let ghost kept = sealed;
                let tip = self.commit(sealed, finished);
                proof {
                    Block::lemma_sealed_same_fields(
                        &kept,
                        &tip,
                        created,
                        pool_block_data(
                            old(self).reward,
                            old(self).transactions@,
                            config,
                            *reward_address,
                        ),
                        0,
                        old(self).chain@.last().hash@,
                        old(self).difficulty,
                    );
                    if old(self).mines_cleanly(config, *reward_address) {
                        Self::lemma_mining_keeps_valid(
                            old(self),
                            final(self),
                            config,
                            *reward_address,
                            created,
                            finished,
                            tip,
                        );
                    }
                }
                assert(final(self).pool_mined(
                    old(self),
                    config,
                    *reward_address,
                    created,
                    finished,
                    Some(tip),
                ));
                Some(tip)
            },
            None => {
                assert(final(self).pool_mined(old(self), config, *reward_address, created, 0, None));
                None
            },
        }
    }
}

impl Clone for BlockChain {
    /// A copy of pool and chain that starts over at difficulty 1.
    fn clone(&self) -> (r: Self)
        ensures
            r.restarted_copy_of(self),
    {
        let mut transactions: Vec<Transaction> = Vec::new();
        let mut i: usize = 0;
        while i < self.transactions.len()
            invariant
                i <= self.transactions@.len(),
                transactions@ == self.transactions@.subrange(0, i as int),
            decreases self.transactions@.len() - i,
        {
            transactions.push(self.transactions[i]);
            assert(transactions@ =~= self.transactions@.subrange(0, i + 1));
            i += 1;
        }
        assert(self.transactions@.subrange(0, i as int) =~= self.transactions@);
        let mut chain: Vec<Block> = Vec::new();
        let mut j: usize = 0;
        while j < self.chain.len()
            invariant
                j <= self.chain@.len(),
                chain@.len() == j,
                forall|k: int| 0 <= k < j ==> (#[trigger] chain@[k]).same_fields(&self.chain@[k]),
            decreases self.chain@.len() - j,
        {
            chain.push(self.chain[j].duplicate());
            j += 1;
        }
        BlockChain {
            transactions,
            chain,
            difficulty: 1,
            block_time: self.block_time,
            reward: self.reward,
            mint_address: self.mint_address,
        }
    }
}

} // verus!
