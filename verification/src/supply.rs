//! What the balances of a ledger add up to.
//!
//! A transfer moves its amount from one balance to another, so over a set
//! of addresses only what crosses the set's border counts: amounts that
//! come in from outside, amounts that go out, and the tips, which leave
//! their sender and arrive nowhere.

use crate::block::{mint_issued, Block};
use crate::blockchain::{
    blocks_balance, data_balance, pool_block_data, reward_fits, total_tips, tx_delta, BlockChain,
};
use crate::constant::Config;
use crate::secp256k1::PubKey;
use crate::transaction::Transaction;
use vstd::prelude::*;

verus! {

/// The sum of the balances of `addrs` after `blocks`.
pub open spec fn total_balance(blocks: Seq<Block>, addrs: Seq<Seq<u8>>) -> int
    decreases addrs.len(),
{
    if addrs.len() == 0 {
        0
    } else {
        total_balance(blocks, addrs.drop_last()) + blocks_balance(blocks, addrs.last())
    }
}

/// What one transaction adds to the balances of `addrs` taken together:
/// its amount where the recipient is among them, less amount and tips where
/// the sender is.
pub open spec fn tx_flow(tx: Transaction, addrs: Seq<Seq<u8>>) -> int {
    (if addrs.contains(tx.to@) {
        tx.amount as int
    } else {
        0
    }) - (if addrs.contains(tx.from@) {
        tx.amount + tx.tips
    } else {
        0
    })
}

/// What a run of transactions adds to the balances of `addrs` together.
pub open spec fn data_flow(data: Seq<Transaction>, addrs: Seq<Seq<u8>>) -> int
    decreases data.len(),
{
    if data.len() == 0 {
        0
    } else {
        data_flow(data.drop_last(), addrs) + tx_flow(data.last(), addrs)
    }
}

/// What a run of blocks adds to the balances of `addrs` together.
pub open spec fn blocks_flow(blocks: Seq<Block>, addrs: Seq<Seq<u8>>) -> int
    decreases blocks.len(),
{
    if blocks.len() == 0 {
        0
    } else {
        blocks_flow(blocks.drop_last(), addrs) + data_flow(blocks.last().data@, addrs)
    }
}

/// The tips of all transactions in a run of blocks.
pub open spec fn all_tips(blocks: Seq<Block>) -> int
    decreases blocks.len(),
{
    if blocks.len() == 0 {
        0
    } else {
        all_tips(blocks.drop_last()) + total_tips(blocks.last().data@)
    }
}

/// All that `mint` sends in a run of blocks.
pub open spec fn all_issued(blocks: Seq<Block>, mint: Seq<u8>) -> int
    decreases blocks.len(),
{
    if blocks.len() == 0 {
        0
    } else {
        all_issued(blocks.drop_last(), mint) + mint_issued(blocks.last().data@, mint)
    }
}

/// The tips of the transactions that others than `mint` send.
pub open spec fn tips_of_others(data: Seq<Transaction>, mint: Seq<u8>) -> int
    decreases data.len(),
{
    if data.len() == 0 {
        0
    } else {
        tips_of_others(data.drop_last(), mint) + (if data.last().from@ == mint {
            0
        } else {
            data.last().tips as int
        })
    }
}

/// The tips that others than `mint` pay in a run of blocks.
pub open spec fn all_tips_of_others(blocks: Seq<Block>, mint: Seq<u8>) -> int
    decreases blocks.len(),
{
    if blocks.len() == 0 {
        0
    } else {
        all_tips_of_others(blocks.drop_last(), mint) + tips_of_others(blocks.last().data@, mint)
    }
}

/// Whether every sender and every recipient in `blocks` is among `addrs`.
pub open spec fn covers(addrs: Seq<Seq<u8>>, blocks: Seq<Block>) -> bool {
    forall|b: int, k: int|
        0 <= b < blocks.len() && 0 <= k < blocks[b].data@.len() ==> {
            &&& addrs.contains((#[trigger] blocks[b].data@[k]).from@)
            &&& addrs.contains(blocks[b].data@[k].to@)
        }
}

/// Whether `addrs` are the holders of a ledger: `mint` is not among them
/// and never receives, and every other sender and every recipient is.
pub open spec fn holders(addrs: Seq<Seq<u8>>, blocks: Seq<Block>, mint: Seq<u8>) -> bool {
    &&& !addrs.contains(mint)
    &&& forall|b: int, k: int|
        0 <= b < blocks.len() && 0 <= k < blocks[b].data@.len() ==> {
            &&& (#[trigger] blocks[b].data@[k]).to@ != mint
            &&& addrs.contains(blocks[b].data@[k].to@)
            &&& blocks[b].data@[k].from@ != mint ==> addrs.contains(blocks[b].data@[k].from@)
        }
}

/// The deltas of one transaction over `addrs`, added up.
spec fn delta_sum(tx: Transaction, addrs: Seq<Seq<u8>>) -> int
    decreases addrs.len(),
{
    if addrs.len() == 0 {
        0
    } else {
        delta_sum(tx, addrs.drop_last()) + tx_delta(tx, addrs.last())
    }
}

/// The balances that a run of transactions gives `addrs`, added up.
spec fn data_sum(data: Seq<Transaction>, addrs: Seq<Seq<u8>>) -> int
    decreases addrs.len(),
{
    if addrs.len() == 0 {
        0
    } else {
        data_sum(data, addrs.drop_last()) + data_balance(data, addrs.last())
    }
}

proof fn lemma_contains_push(addrs: Seq<Seq<u8>>, x: Seq<u8>)
    requires
        addrs.len() > 0,
    ensures
        addrs.contains(x) <==> addrs.drop_last().contains(x) || addrs.last() == x,
{
    let init = addrs.drop_last();
    if addrs.contains(x) {
        let i = choose|i: int| 0 <= i < addrs.len() && addrs[i] == x;
        if i < addrs.len() - 1 {
            assert(init[i] == x);
        }
    }
    if init.contains(x) {
        let i = choose|i: int| 0 <= i < init.len() && init[i] == x;
        assert(addrs[i] == x);
    }
    if addrs.last() == x {
        assert(addrs[addrs.len() - 1] == x);
    }
}

proof fn lemma_delta_sum(tx: Transaction, addrs: Seq<Seq<u8>>)
    requires
        addrs.no_duplicates(),
    ensures
        delta_sum(tx, addrs) == tx_flow(tx, addrs),
    decreases addrs.len(),
{
    if addrs.len() > 0 {
        let init = addrs.drop_last();
        let last = addrs.last();
        assert(init.no_duplicates());
        lemma_delta_sum(tx, init);
        lemma_contains_push(addrs, tx.to@);
        lemma_contains_push(addrs, tx.from@);
        if init.contains(last) {
            let i = choose|i: int| 0 <= i < init.len() && init[i] == last;
            assert(addrs[i] == addrs[addrs.len() - 1]);
        }
    }
}

proof fn lemma_data_sum_step(data: Seq<Transaction>, addrs: Seq<Seq<u8>>)
    requires
        data.len() > 0,
    ensures
        data_sum(data, addrs) == data_sum(data.drop_last(), addrs) + delta_sum(data.last(), addrs),
    decreases addrs.len(),
{
    if addrs.len() > 0 {
        lemma_data_sum_step(data, addrs.drop_last());
    }
}

proof fn lemma_data_sum_empty(data: Seq<Transaction>, addrs: Seq<Seq<u8>>)
    requires
        data.len() == 0,
    ensures
        data_sum(data, addrs) == 0,
    decreases addrs.len(),
{
    if addrs.len() > 0 {
        lemma_data_sum_empty(data, addrs.drop_last());
    }
}

proof fn lemma_data_sum(data: Seq<Transaction>, addrs: Seq<Seq<u8>>)
    requires
        addrs.no_duplicates(),
    ensures
        data_sum(data, addrs) == data_flow(data, addrs),
    decreases data.len(),
{
    if data.len() == 0 {
        lemma_data_sum_empty(data, addrs);
    } else {
        lemma_data_sum(data.drop_last(), addrs);
        lemma_data_sum_step(data, addrs);
        lemma_delta_sum(data.last(), addrs);
    }
}

proof fn lemma_total_step(blocks: Seq<Block>, addrs: Seq<Seq<u8>>)
    requires
        blocks.len() > 0,
    ensures
        total_balance(blocks, addrs) == total_balance(blocks.drop_last(), addrs) + data_sum(
            blocks.last().data@,
            addrs,
        ),
    decreases addrs.len(),
{
    if addrs.len() > 0 {
        lemma_total_step(blocks, addrs.drop_last());
    }
}

proof fn lemma_total_empty(blocks: Seq<Block>, addrs: Seq<Seq<u8>>)
    requires
        blocks.len() == 0,
    ensures
        total_balance(blocks, addrs) == 0,
    decreases addrs.len(),
{
    if addrs.len() > 0 {
        lemma_total_empty(blocks, addrs.drop_last());
    }
}

/// The balances of any addresses, each counted once, add up to what crossed
/// their border: transfers among them cancel.
pub proof fn lemma_balances_are_flows(blocks: Seq<Block>, addrs: Seq<Seq<u8>>)
    requires
        addrs.no_duplicates(),
    ensures
        total_balance(blocks, addrs) == blocks_flow(blocks, addrs),
    decreases blocks.len(),
{
    if blocks.len() == 0 {
        lemma_total_empty(blocks, addrs);
    } else {
        lemma_balances_are_flows(blocks.drop_last(), addrs);
        lemma_total_step(blocks, addrs);
        lemma_data_sum(blocks.last().data@, addrs);
    }
}

proof fn lemma_closed_data_flow(data: Seq<Transaction>, addrs: Seq<Seq<u8>>)
    requires
        forall|k: int|
            0 <= k < data.len() ==> addrs.contains((#[trigger] data[k]).from@) && addrs.contains(
                data[k].to@,
            ),
    ensures
        data_flow(data, addrs) == -total_tips(data),
    decreases data.len(),
{
    if data.len() > 0 {
        let init = data.drop_last();
        assert forall|k: int| 0 <= k < init.len() implies addrs.contains((#[trigger] init[k]).from@)
            && addrs.contains(init[k].to@) by {
            assert(init[k] == data[k]);
        }
        lemma_closed_data_flow(init, addrs);
        assert(data.last() == data[data.len() - 1]);
    }
}

/// Balance conservation. Summed over all addresses that ever sent or
/// received, each counted once, the balances of a ledger are what was lost
/// in tips: every amount was taken from one balance and added to another.
pub proof fn lemma_balance_conservation(blocks: Seq<Block>, addrs: Seq<Seq<u8>>)
    requires
        addrs.no_duplicates(),
        covers(addrs, blocks),
    ensures
        total_balance(blocks, addrs) == -all_tips(blocks),
{
    lemma_balances_are_flows(blocks, addrs);
    lemma_closed_flow(blocks, addrs);
}

proof fn lemma_closed_flow(blocks: Seq<Block>, addrs: Seq<Seq<u8>>)
    requires
        covers(addrs, blocks),
    ensures
        blocks_flow(blocks, addrs) == -all_tips(blocks),
    decreases blocks.len(),
{
    if blocks.len() > 0 {
        let init = blocks.drop_last();
        let last = blocks.last();
        assert forall|b: int, k: int|
            0 <= b < init.len() && 0 <= k < init[b].data@.len() implies addrs.contains(
            (#[trigger] init[b].data@[k]).from@,
        ) && addrs.contains(init[b].data@[k].to@) by {
            assert(init[b] == blocks[b]);
        }
        lemma_closed_flow(init, addrs);
        assert forall|k: int| 0 <= k < last.data@.len() implies addrs.contains(
            (#[trigger] last.data@[k]).from@,
        ) && addrs.contains(last.data@[k].to@) by {
            assert(last == blocks[blocks.len() - 1]);
            assert(blocks[blocks.len() - 1].data@[k] == last.data@[k]);
        }
        lemma_closed_data_flow(last.data@, addrs);
    }
}

proof fn lemma_holders_data_flow(data: Seq<Transaction>, addrs: Seq<Seq<u8>>, mint: Seq<u8>)
    requires
        !addrs.contains(mint),
        forall|k: int|
            0 <= k < data.len() ==> {
                &&& (#[trigger] data[k]).to@ != mint
                &&& addrs.contains(data[k].to@)
                &&& data[k].from@ != mint ==> addrs.contains(data[k].from@)
            },
    ensures
        data_flow(data, addrs) == mint_issued(data, mint) - tips_of_others(data, mint),
    decreases data.len(),
{
    if data.len() > 0 {
        let init = data.drop_last();
        assert forall|k: int| 0 <= k < init.len() implies {
            &&& (#[trigger] init[k]).to@ != mint
            &&& addrs.contains(init[k].to@)
            &&& init[k].from@ != mint ==> addrs.contains(init[k].from@)
        } by {
            assert(init[k] == data[k]);
        }
        lemma_holders_data_flow(init, addrs, mint);
        assert(data.last() == data[data.len() - 1]);
    }
}

proof fn lemma_holders_flow(blocks: Seq<Block>, addrs: Seq<Seq<u8>>, mint: Seq<u8>)
    requires
        holders(addrs, blocks, mint),
    ensures
        blocks_flow(blocks, addrs) == all_issued(blocks, mint) - all_tips_of_others(blocks, mint),
    decreases blocks.len(),
{
    if blocks.len() > 0 {
        let init = blocks.drop_last();
        let last = blocks.last();
        assert forall|b: int, k: int| 0 <= b < init.len() && 0 <= k < init[b].data@.len() implies {
            &&& (#[trigger] init[b].data@[k]).to@ != mint
            &&& addrs.contains(init[b].data@[k].to@)
            &&& init[b].data@[k].from@ != mint ==> addrs.contains(init[b].data@[k].from@)
        } by {
            assert(init[b] == blocks[b]);
        }
        lemma_holders_flow(init, addrs, mint);
        assert forall|k: int| 0 <= k < last.data@.len() implies {
            &&& (#[trigger] last.data@[k]).to@ != mint
            &&& addrs.contains(last.data@[k].to@)
            &&& last.data@[k].from@ != mint ==> addrs.contains(last.data@[k].from@)
        } by {
            assert(last == blocks[blocks.len() - 1]);
            assert(blocks[blocks.len() - 1].data@[k] == last.data@[k]);
        }
        lemma_holders_data_flow(last.data@, addrs, mint);
    }
}

/// The supply in circulation. Where the mint only sends, the balances of
/// all other addresses, each counted once, add up to all that the mint
/// sent, less the tips that the others paid. Without tips that is the total
/// amount minted.
pub proof fn lemma_supply_is_minted_less_tips(
    blocks: Seq<Block>,
    addrs: Seq<Seq<u8>>,
    mint: Seq<u8>,
)
    requires
        addrs.no_duplicates(),
        holders(addrs, blocks, mint),
    ensures
        total_balance(blocks, addrs) == all_issued(blocks, mint) - all_tips_of_others(blocks, mint),
{
    lemma_balances_are_flows(blocks, addrs);
    lemma_holders_flow(blocks, addrs, mint);
}

/// What a block adds to the supply in circulation: what the mint sends in
/// it, less the tips that the others pay in it.
pub open spec fn block_issue(data: Seq<Transaction>, mint: Seq<u8>) -> int {
    mint_issued(data, mint) - tips_of_others(data, mint)
}

proof fn lemma_others_only(data: Seq<Transaction>, mint: Seq<u8>)
    requires
        forall|k: int| 0 <= k < data.len() ==> (#[trigger] data[k]).from@ != mint,
    ensures
        mint_issued(data, mint) == 0,
        tips_of_others(data, mint) == total_tips(data),
    decreases data.len(),
{
    if data.len() > 0 {
        let init = data.drop_last();
        assert forall|k: int| 0 <= k < init.len() implies (#[trigger] init[k]).from@ != mint by {
            assert(init[k] == data[k]);
        }
        lemma_others_only(init, mint);
        assert(data.last() == data[data.len() - 1]);
    }
}

/// A mined block adds the reward to the supply, and no more: the tips that
/// the miner is paid are those that the senders in the pool gave up.
pub proof fn lemma_mined_block_issues_reward(
    reward: i64,
    pool: Seq<Transaction>,
    config: &Config,
    reward_address: PubKey,
)
    requires
        reward_fits(reward, pool),
        forall|k: int| 0 <= k < pool.len() ==> (#[trigger] pool[k]).from@ != config.mint_address@,
    ensures
        block_issue(pool_block_data(reward, pool, config, reward_address), config.mint_address@)
            == reward,
{
    let data = pool_block_data(reward, pool, config, reward_address);
    lemma_others_only(pool, config.mint_address@);
    assert(data.drop_last() =~= pool);
}

/// The first block of a fresh ledger adds the initial grant to the supply.
pub proof fn lemma_first_block_issues_grant(chain: &BlockChain, config: &Config, timestamp: i64)
    requires
        chain.is_fresh(config, timestamp),
    ensures
        block_issue(chain.chain@[0].data@, config.mint_address@) == config.initial_grant,
{
    let data = chain.chain@[0].data@;
    assert(data.drop_last() =~= Seq::<Transaction>::empty());
    assert(mint_issued(data.drop_last(), config.mint_address@) == 0);
    assert(tips_of_others(data.drop_last(), config.mint_address@) == 0);
    assert(data.last() == BlockChain::genesis_entry(config));
}

proof fn lemma_issue_adds_up(blocks: Seq<Block>, mint: Seq<u8>, grant: int, reward: int)
    requires
        blocks.len() >= 1,
        block_issue(blocks[0].data@, mint) == grant,
        forall|k: int| 1 <= k < blocks.len() ==> block_issue((#[trigger] blocks[k]).data@, mint) == reward,
    ensures
        all_issued(blocks, mint) - all_tips_of_others(blocks, mint) == grant + (blocks.len() - 1)
            * reward,
    decreases blocks.len(),
{
    let init = blocks.drop_last();
    if blocks.len() == 1 {
        assert(init =~= Seq::<Block>::empty());
        assert(all_issued(init, mint) == 0);
        assert(all_tips_of_others(init, mint) == 0);
        assert(blocks.last() == blocks[0]);
    } else {
        assert(init[0] == blocks[0]);
        assert forall|k: int| 1 <= k < init.len() implies block_issue((#[trigger] init[k]).data@, mint)
            == reward by {
            assert(init[k] == blocks[k]);
        }
        lemma_issue_adds_up(init, mint, grant, reward);
        assert(blocks.last() == blocks[blocks.len() - 1]);
        assert((blocks.len() - 1) * reward == (init.len() - 1) * reward + reward) by (nonlinear_arith)
            requires
                init.len() == blocks.len() - 1,
        ;
    }
}

/// The supply after any number of rounds. Where the first block adds the
/// grant and every later block adds the reward, as mined blocks do, and
/// the mint only sends, the balances of all other addresses, each counted
/// once, add up to the grant and one reward for each block after the
/// first: the tips that were paid were issued again to the miners.
pub proof fn lemma_supply_after_rounds(
    blocks: Seq<Block>,
    addrs: Seq<Seq<u8>>,
    mint: Seq<u8>,
    grant: int,
    reward: int,
)
    requires
        addrs.no_duplicates(),
        holders(addrs, blocks, mint),
        blocks.len() >= 1,
        block_issue(blocks[0].data@, mint) == grant,
        forall|k: int| 1 <= k < blocks.len() ==> block_issue((#[trigger] blocks[k]).data@, mint) == reward,
    ensures
        total_balance(blocks, addrs) == grant + (blocks.len() - 1) * reward,
{
    lemma_supply_is_minted_less_tips(blocks, addrs, mint);
    lemma_issue_adds_up(blocks, mint, grant, reward);
}

} // verus!
