//! The parties of a ledger. Each holds its keys, its own copy of the chain
//! and the transactions it has heard of; a block that one party mines is
//! handed to the others.

use crate::block::Block;
use crate::blockchain::{history_len, BlockChain, MAX_HISTORY};
use crate::constant::Config;
use crate::hex::{hex_bytes, hex_text, is_hex};
use crate::secp256k1::{ecdsa_public_key, PubKey, SecKey, Secp256K1, ToHex};
use crate::transaction::Transaction;
use crate::wire::{to_unsigned, twos_complement};
use vstd::prelude::*;
use vstd::string::*;

verus! {

/// What a party is to the ledger.
#[derive(Debug, Clone, Copy, PartialEq, Eq, Structural)]
pub enum Role {
    /// The issuer of new value. It neither mines nor shows keys or balance.
    Mint,
    /// The party that the first block pays.
    Owner,
    User,
}

/// `pool` without the transactions that `data` holds, in the old order.
pub open spec fn without(pool: Seq<Transaction>, data: Seq<Transaction>) -> Seq<Transaction> {
    pool.filter(|t: Transaction| !data.contains(t))
}

#[derive(Debug)]
pub struct UserMeta {
    pub role: Role,
    pub name: String,
    pub avatar: String,
    pub public_key: PubKey,
    pub secret_key: SecKey,
    /// The transactions this party has heard of and not yet seen in a block.
    pub transactions: Vec<Transaction>,
    pub chain: BlockChain,
}

impl UserMeta {
    /// Whether this is the same party as `before`: role, name, avatar and
    /// keys are the same.
    pub open spec fn same_party(&self, before: &UserMeta) -> bool {
        &&& self.role == before.role
        &&& self.name == before.name
        &&& self.avatar == before.avatar
        &&& self.public_key == before.public_key
        &&& self.secret_key == before.secret_key
    }

    /// Whether this party is `before` after it was handed `bloc`: a copy of
    /// the block ends its chain, and what the block holds has left the
    /// transactions it had heard of.
    pub open spec fn received(&self, before: &UserMeta, bloc: &Block) -> bool {
        &&& self.same_party(before)
        &&& self.transactions@ == without(before.transactions@, bloc.data@)
        &&& self.chain.chain@.len() == before.chain.chain@.len() + 1
        &&& self.chain.chain@.drop_last() == before.chain.chain@
        &&& self.chain.chain@.last().same_fields(bloc)
        &&& self.chain.transactions@ == before.chain.transactions@
        &&& self.chain.difficulty == before.chain.difficulty
        &&& self.chain.block_time == before.chain.block_time
        &&& self.chain.reward == before.chain.reward
        &&& self.chain.mint_address == before.chain.mint_address
    }

    pub fn chain(&self) -> (r: &BlockChain)
        ensures
            *r == self.chain,
    {
        &self.chain
    }

    pub fn chain_len(&self) -> (n: usize)
        ensures
            n == self.chain.chain@.len(),
    {
        self.chain.len()
    }

    /// Notes a transaction that this party has heard of.
    pub fn push(&mut self, trans: &Transaction)
        ensures
            final(self).same_party(old(self)),
            final(self).chain == old(self).chain,
            final(self).transactions@ == old(self).transactions@.push(*trans),
    {
        self.transactions.push(*trans);
    }

    /// Puts a block that another party mined at the end of the chain, as
    /// it is.
    pub fn push_bloc(&mut self, bloc: Block)
        ensures
            final(self).same_party(old(self)),
            final(self).transactions == old(self).transactions,
            final(self).chain.chain@ == old(self).chain.chain@.push(bloc),
            final(self).chain.transactions == old(self).chain.transactions,
            final(self).chain.difficulty == old(self).chain.difficulty,
            final(self).chain.block_time == old(self).chain.block_time,
            final(self).chain.reward == old(self).chain.reward,
            final(self).chain.mint_address == old(self).chain.mint_address,
    {
        self.chain.chain.push(bloc);
    }

    /// Forgets the transactions that `bloc` holds.
    pub fn rm_trans_bloc(&mut self, bloc: &Block)
        ensures
            final(self).same_party(old(self)),
            final(self).chain == old(self).chain,
            final(self).transactions@ == without(old(self).transactions@, bloc.data@),
    {
        let ghost keep = |t: Transaction| !bloc.data@.contains(t);
        let mut kept: Vec<Transaction> = Vec::new();
        let mut i: usize = 0;
        while i < self.transactions.len()
            invariant
                i <= self.transactions@.len(),
                self.transactions@ == old(self).transactions@,
                self.same_party(old(self)),
                self.chain == old(self).chain,
                keep == (|t: Transaction| !bloc.data@.contains(t)),
                kept@ == self.transactions@.subrange(0, i as int).filter(keep),
            decreases self.transactions@.len() - i,
        {
            let tx = self.transactions[i];
            proof {
                let done = self.transactions@.subrange(0, i as int);
                done.lemma_filter_push(tx, keep);
                assert(self.transactions@.subrange(0, i + 1) =~= done.push(tx));
            }
            if !bloc.holds(&tx) {
                kept.push(tx);
            }
            i += 1;
        }
        assert(self.transactions@.subrange(0, i as int) =~= self.transactions@);
        self.transactions = kept;
    }

    pub fn pub_key(&self) -> (r: &PubKey)
        ensures
            *r == self.public_key,
    {
        &self.public_key
    }

    /// The name to show: `MINT` for the mint.
    pub fn get_name(&self) -> (s: String)
        ensures
            s@ == (if self.role == Role::Mint {
                "MINT"@
            } else {
                self.name@
            }),
    {
        match self.role {
            Role::Mint => "MINT".to_owned(),
            _ => self.name.clone(),
        }
    }

    /// The avatar to show: none for the mint.
    pub fn get_avatar(&self) -> (s: String)
        ensures
            s@ == (if self.role == Role::Mint {
                ""@
            } else {
                self.avatar@
            }),
    {
        match self.role {
            Role::Mint => "".to_owned(),
            _ => self.avatar.clone(),
        }
    }

    /// The public key in hex: nothing for the mint.
    pub fn get_public_key(&self) -> (s: String)
        ensures
            s@ == (if self.role == Role::Mint {
                ""@
            } else {
                hex_text(self.public_key.octets())
            }),
    {
        match self.role {
            Role::Mint => "".to_owned(),
            _ => self.public_key.to_hex(),
        }
    }

    /// The secret key in hex: nothing for the mint.
    pub fn get_secret_key(&self) -> (s: String)
        ensures
            s@ == (if self.role == Role::Mint {
                ""@
            } else {
                hex_text(self.secret_key.octets())
            }),
    {
        match self.role {
            Role::Mint => "".to_owned(),
            _ => self.secret_key.to_hex(),
        }
    }

    /// The party's balance in its own copy of the chain: none for the mint.
    pub fn get_balance(&self) -> (r: Option<i128>)
        requires
            self.chain.within_capacity(),
        ensures
            r == (if self.role == Role::Mint {
                None
            } else {
                Some(self.chain.balance_of(self.public_key@) as i128)
            }),
    {
        match self.role {
            Role::Mint => None,
            _ => Some(self.chain.get_balance(&self.public_key)),
        }
    }
}

/// What every party but the mint and the owner is granted when it joins.
pub const USER_GRANT: i64 = 10_000;

/// Why a transfer that was entered as text cannot be drafted.
#[derive(Debug, Clone, Copy, PartialEq, Eq, Structural)]
pub enum FormError {
    InvalidOrNullFromPubkey,
    InvalidOrNullToPubkey,
    InvalidOrNullAmount,
    InvalidOrNullTips,
    InvalidOrNullSecret,
}

/// Whether `text` is a key of `n` bytes in hex.
pub open spec fn is_key_text(text: &str, n: int) -> bool {
    text.spec_bytes().len() == 2 * n && is_hex(text.spec_bytes())
}

/// The first fault of a transfer that was entered as text, in the order in
/// which the fields are looked at: a sender or recipient left empty, an
/// amount that is missing or zero, missing tips, a sender or recipient
/// that is no public key, a secret that is no secret key.
pub open spec fn form_fault(
    from: &str,
    to: &str,
    amount: Option<i64>,
    tips: Option<i64>,
    secret: &str,
) -> Option<FormError> {
    if from.spec_bytes().len() == 0 {
        Some(FormError::InvalidOrNullFromPubkey)
    } else if to.spec_bytes().len() == 0 {
        Some(FormError::InvalidOrNullToPubkey)
    } else if amount is None || amount == Some(0i64) {
        Some(FormError::InvalidOrNullAmount)
    } else if tips is None {
        Some(FormError::InvalidOrNullTips)
    } else if !is_key_text(from, 33) {
        Some(FormError::InvalidOrNullFromPubkey)
    } else if !is_key_text(to, 33) {
        Some(FormError::InvalidOrNullToPubkey)
    } else if !is_key_text(secret, 32) {
        Some(FormError::InvalidOrNullSecret)
    } else {
        None
    }
}

/// Drafts a transfer from what was entered: the keys in hex, amount and
/// tips where they were numbers. The draft is unsigned; it comes with the
/// secret key that is to sign it.
pub fn draft_transfer(
    from: &str,
    to: &str,
    amount: Option<i64>,
    tips: Option<i64>,
    secret: &str,
    config: &Config,
) -> (r: Result<(Transaction, SecKey), FormError>)
    ensures
        match r {
            Ok(draft) => {
                &&& form_fault(from, to, amount, tips, secret) is None
                &&& draft.0.from@ == hex_bytes(from.spec_bytes())
                &&& draft.0.to@ == hex_bytes(to.spec_bytes())
                &&& Some(draft.0.amount) == amount
                &&& Some(draft.0.tips) == tips
                &&& draft.0.signature == config.mint_signature
                &&& draft.1@ == hex_bytes(secret.spec_bytes())
            },
            Err(e) => form_fault(from, to, amount, tips, secret) == Some(e),
        },
{
    if from.as_bytes().len() == 0 {
        return Err(FormError::InvalidOrNullFromPubkey);
    }
    if to.as_bytes().len() == 0 {
        return Err(FormError::InvalidOrNullToPubkey);
    }
    let amount: i64 = match amount {
        Some(a) => a,
        None => {
            return Err(FormError::InvalidOrNullAmount);
        },
    };
    if amount == 0 {
        return Err(FormError::InvalidOrNullAmount);
    }
    let tips: i64 = match tips {
        Some(t) => t,
        None => {
            return Err(FormError::InvalidOrNullTips);
        },
    };
    let from_key = match PubKey::from_hex(from) {
        Ok(key) => key,
        Err(_) => {
            return Err(FormError::InvalidOrNullFromPubkey);
        },
    };
    let to_key = match PubKey::from_hex(to) {
        Ok(key) => key,
        Err(_) => {
            return Err(FormError::InvalidOrNullToPubkey);
        },
    };
    let sec_key = match SecKey::from_hex(secret) {
        Ok(key) => key,
        Err(_) => {
            return Err(FormError::InvalidOrNullSecret);
        },
    };
    Ok((Transaction::new(from_key, to_key, amount, Some(tips), config), sec_key))
}

/// What became of a transfer that was handed to the parties.
#[derive(Debug, Clone, Copy, PartialEq, Eq, Structural)]
pub enum Dispatch {
    /// No party other than the mint has the sender's key.
    UnknownSender,
    /// The sender's own ledger does not accept the transfer.
    Invalid,
    /// Every party but the mint has heard of the transfer.
    Accepted,
}

/// Whether a party other than the mint has the key `key`.
pub open spec fn holds_key(user: &UserMeta, key: Seq<u8>) -> bool {
    user.role != Role::Mint && user.public_key@ == key
}

/// Whether `key` names the party, so that a block need not be handed to it.
pub open spec fn is_named(user: &UserMeta, key: Option<&PubKey>) -> bool {
    match key {
        Some(k) => k@ == user.public_key@,
        None => false,
    }
}

/// The party that mines for a seed: the one at the seed's remainder, or
/// the next in the round where that is the mint. `None` where that is the
/// mint again.
pub open spec fn miner_index(users: Seq<UserMeta>, seed: i64) -> Option<int> {
    let first = twos_complement(seed) as int % (users.len() as int);
    let ind = if users[first].role == Role::Mint {
        (first + 1) % (users.len() as int)
    } else {
        first
    };
    if users[ind].role == Role::Mint {
        None
    } else {
        Some(ind)
    }
}

/// The length of the chain that the party at `k` holds.
pub open spec fn chain_len_at(users: Seq<UserMeta>, k: int) -> nat {
    users[k].chain.chain@.len()
}

/// Whether the party at `ind` is the first to hold a chain that none
/// exceeds.
pub open spec fn first_longest(users: Seq<UserMeta>, ind: int) -> bool {
    &&& 0 <= ind < users.len()
    &&& forall|k: int|
        0 <= k < users.len() ==> #[trigger] chain_len_at(users, k) <= chain_len_at(users, ind)
    &&& forall|k: int| 0 <= k < ind ==> #[trigger] chain_len_at(users, k) < chain_len_at(users, ind)
}

/// Whether the party at `ind` is the first, other than the mint, that has
/// the key `key`.
pub open spec fn first_holder(users: Seq<UserMeta>, key: Seq<u8>, ind: int) -> bool {
    &&& 0 <= ind < users.len()
    &&& holds_key(&users[ind], key)
    &&& forall|k: int| 0 <= k < ind ==> !holds_key(&#[trigger] users[k], key)
}

/// Whether the party at `ind` is the first that is the mint.
pub open spec fn first_mint(users: Seq<UserMeta>, ind: int) -> bool {
    &&& 0 <= ind < users.len()
    &&& users[ind].role == Role::Mint
    &&& forall|k: int| 0 <= k < ind ==> (#[trigger] users[k]).role != Role::Mint
}

/// Calls `chrono::Utc::now`, then `timestamp_nanos_opt`: the time of the
/// call in nanoseconds since the Unix epoch, where an `i64` holds it.
/// Nothing is promised of it.
#[verifier::external_body]
fn now_nanos() -> (now: Option<i64>) {
    chrono::Utc::now().timestamp_nanos_opt()
}

/// The parties of one ledger.
pub struct App {
    pub users: Vec<UserMeta>,
}

impl App {
    /// Whether every party that may mine has a ledger in working order,
    /// with room for one more transaction and a reward.
    pub open spec fn ready_to_mine(&self) -> bool {
        &&& self.users@.len() > 0
        &&& forall|k: int|
            0 <= k < self.users@.len() && (#[trigger] self.users@[k]).role != Role::Mint ==> {
                &&& self.users@[k].chain.wf()
                &&& history_len(self.users@[k].chain.chain@)
                    + self.users@[k].chain.transactions@.len() + 2 <= MAX_HISTORY
            }
    }

    /// What `random_mine` does for a seed and two readings of the clock.
    /// The party that the seed picks takes `trans` into its pool, where its
    /// ledger accepts it, and mines the pool for itself; `result` is the
    /// block and the miner's key. Nothing happens where the seed picks the
    /// mint twice, and only the pool changes where mining fails.
    pub open spec fn mined_by(
        &self,
        before: &App,
        config: &Config,
        trans: Transaction,
        seed: i64,
        created: i64,
        finished: i64,
        result: Option<(Block, PubKey)>,
    ) -> bool {
        &&& self.users@.len() == before.users@.len()
        &&& match miner_index(before.users@, seed) {
            None => result is None && self.users@ == before.users@,
            Some(i) => {
                let miner = before.users@[i];
                let pool = if trans.valid_in(&miner.chain) {
                    miner.chain.transactions@.push(trans)
                } else {
                    miner.chain.transactions@
                };
                &&& forall|k: int|
                    0 <= k < before.users@.len() && k != i ==> self.users@[k] == before.users@[k]
                &&& self.users@[i].same_party(&miner)
                &&& self.users@[i].transactions == miner.transactions
                &&& self.users@[i].chain.mined_from(
                    &miner.chain,
                    pool,
                    config,
                    miner.public_key,
                    created,
                    finished,
                    match result {
                        Some(pair) => Some(pair.0),
                        None => None,
                    },
                )
                &&& result matches Some(pair) ==> pair.1 == miner.public_key
            },
        }
    }

    /// What `create_user` does. The first party to join is the mint, with
    /// the keys of `config` and a fresh ledger; it is granted nothing. The
    /// second is the owner, with new keys and a copy of the mint's ledger;
    /// every later party is a user, with new keys and a copy of the longest
    /// ledger. `grant` is the unsigned transfer of the first units from the
    /// first mint to the new party, unless the new key is the mint's.
    pub open spec fn joined(
        &self,
        before: &App,
        config: &Config,
        user_name: String,
        grant: Option<Transaction>,
    ) -> bool {
        let new = self.users@.last();
        let n = before.users@.len();
        &&& self.users@.len() == n + 1
        &&& self.users@.drop_last() == before.users@
        &&& new.transactions@.len() == 0
        &&& if n == 0 {
            &&& new.role == Role::Mint
            &&& new.name@ == "MINT"@
            &&& new.avatar@ == "assets/rust.png"@
            &&& new.public_key == config.mint_address
            &&& new.secret_key == config.mint_secret
            &&& exists|timestamp: i64| new.chain.is_fresh(config, timestamp)
            &&& grant is None
        } else {
            &&& new.role == (if n == 1 {
                Role::Owner
            } else {
                Role::User
            })
            &&& new.name == user_name
            &&& new.avatar@ == (if n == 1 {
                "assets/rust.png"@
            } else {
                "assets/rust-user.png"@
            })
            &&& ecdsa_public_key(new.secret_key@) == Some(new.public_key@)
            &&& if n == 1 {
                new.chain.restarted_copy_of(&before.users@[0].chain)
            } else {
                exists|ind: int|
                    #[trigger] first_longest(before.users@, ind) && new.chain.restarted_copy_of(
                        &before.users@[ind].chain,
                    )
            }
            &&& exists|m: int|
                #[trigger] first_mint(before.users@, m) && grant == (if before.users@[m].public_key@
                    == new.public_key@ {
                    None
                } else {
                    Some(
                        Transaction {
                            from: before.users@[m].public_key,
                            to: new.public_key,
                            amount: USER_GRANT,
                            tips: 0,
                            signature: config.mint_signature,
                        },
                    )
                })
        }
    }

    /// Lets a party join under `user_name`, and returns the grant that is
    /// to be handed out for it.
    pub fn create_user(&mut self, config: &Config, user_name: String) -> (grant: Option<Transaction>)
        requires
            old(self).users@.len() > 0 ==> exists|m: int| first_mint(old(self).users@, m),
        ensures
            final(self).joined(old(self), config, user_name, grant),
    {
        if self.users.len() == 0 {
            let mint = UserMeta {
                role: Role::Mint,
                name: "MINT".to_owned(),
                avatar: "assets/rust.png".to_owned(),
                public_key: config.mint_address,
                secret_key: config.mint_secret,
                transactions: Vec::new(),
                chain: BlockChain::new(config),
            };
            let ghost joiner = mint;
            self.users.push(mint);
            assert(final(self).users@.drop_last() =~= old(self).users@);
            assert(final(self).users@.last() == joiner);
            let ghost timestamp = choose|timestamp: i64| joiner.chain.is_fresh(config, timestamp);
            assert(final(self).users@.last().chain.is_fresh(config, timestamp));
            return None;
        }
        let mint_key = match self.find_mint() {
            Some(mint) => mint.public_key,
            None => {
                return None;
            },
        };
        let mut secp = Secp256K1::new();
        let (secret_key, public_key) = secp.gen_keypair();
        let user = if self.users.len() == 1 {
            UserMeta {
                role: Role::Owner,
                name: user_name,
                avatar: "assets/rust.png".to_owned(),
                public_key,
                secret_key,
                transactions: Vec::new(),
                chain: self.users[0].chain.clone(),
            }
        } else {
            UserMeta {
                role: Role::User,
                name: user_name,
                avatar: "assets/rust-user.png".to_owned(),
                public_key,
                secret_key,
                transactions: Vec::new(),
                chain: self.longest_chain(),
            }
        };
        self.users.push(user);
        assert(final(self).users@.drop_last() =~= old(self).users@);
        if mint_key.same(&public_key) {
            None
        } else {
            Some(Transaction::new(mint_key, public_key, USER_GRANT, None, config))
        }
    }

    /// Whether the ledgers of all parties but the mint can be asked for
    /// balances.
    pub open spec fn countable(&self) -> bool {
        forall|k: int|
            0 <= k < self.users@.len() && (#[trigger] self.users@[k]).role != Role::Mint
                ==> self.users@[k].chain.within_capacity()
    }

    /// Whether every party but the mint has heard of `trans` in addition,
    /// and nothing else has changed since `before`.
    pub open spec fn heard(&self, before: &App, trans: Transaction) -> bool {
        &&& self.users@.len() == before.users@.len()
        &&& forall|k: int|
            0 <= k < before.users@.len() ==> if before.users@[k].role == Role::Mint {
                (#[trigger] self.users@[k]) == before.users@[k]
            } else {
                &&& self.users@[k].same_party(&before.users@[k])
                &&& self.users@[k].chain == before.users@[k].chain
                &&& self.users@[k].transactions@ == before.users@[k].transactions@.push(trans)
            }
    }

    /// The first party that holds `key`, whatever its role: its name as it
    /// is shown, whether it is the mint, and whether it is the owner.
    /// An empty name where no party holds the key.
    pub fn get_user_name(&self, pubkey: &PubKey) -> (r: (String, bool, bool))
        ensures
            (exists|ind: int|
                {
                    &&& 0 <= ind < self.users@.len()
                    &&& self.users@[ind].public_key@ == pubkey@
                    &&& forall|k: int|
                        0 <= k < ind ==> (#[trigger] self.users@[k]).public_key@ != pubkey@
                    &&& r.0@ == (if self.users@[ind].role == Role::Mint {
                        "MINT"@
                    } else {
                        self.users@[ind].name@
                    })
                    &&& r.1 == (self.users@[ind].role == Role::Mint)
                    &&& r.2 == (self.users@[ind].role == Role::Owner)
                }) || {
                &&& forall|k: int|
                    0 <= k < self.users@.len() ==> (#[trigger] self.users@[k]).public_key@
                        != pubkey@
                &&& r.0@ == ""@
                &&& !r.1
                &&& !r.2
            },
    {
        let mut i: usize = 0;
        while i < self.users.len()
            invariant
                i <= self.users@.len(),
                forall|k: int| 0 <= k < i ==> (#[trigger] self.users@[k]).public_key@ != pubkey@,
            decreases self.users@.len() - i,
        {
            let user = &self.users[i];
            if user.public_key.same(pubkey) {
                let is_mint = match user.role {
                    Role::Mint => true,
                    _ => false,
                };
                let is_owner = match user.role {
                    Role::Owner => true,
                    _ => false,
                };
                return (user.get_name(), is_mint, is_owner);
            }
            i += 1;
        }
        ("".to_owned(), false, false)
    }

    /// Lets every party but the mint hear of `trans`.
    pub fn announce(&mut self, trans: &Transaction)
        ensures
            final(self).heard(old(self), *trans),
    {
        let mut i: usize = 0;
        while i < self.users.len()
            invariant
                i <= self.users@.len(),
                self.users@.len() == old(self).users@.len(),
                forall|k: int|
                    0 <= k < i ==> if old(self).users@[k].role == Role::Mint {
                        (#[trigger] self.users@[k]) == old(self).users@[k]
                    } else {
                        &&& self.users@[k].same_party(&old(self).users@[k])
                        &&& self.users@[k].chain == old(self).users@[k].chain
                        &&& self.users@[k].transactions@ == old(self).users@[k].transactions@.push(
                            *trans,
                        )
                    },
                forall|k: int|
                    i <= k < self.users@.len() ==> (#[trigger] self.users@[k]) == old(self).users@[k],
            decreases self.users@.len() - i,
        {
            let is_mint = match self.users[i].role {
                Role::Mint => true,
                _ => false,
            };
            if !is_mint {
                self.users[i].push(trans);
            }
            i += 1;
        }
    }

    /// Takes a transfer that a party has signed: where a party other than
    /// the mint has the sender's key and that party's ledger accepts the
    /// transfer, every party but the mint hears of it.
    pub fn transfer(&mut self, trans: Transaction) -> (r: Dispatch)
        requires
            old(self).countable(),
        ensures
            match r {
                Dispatch::UnknownSender => {
                    &&& final(self).users@ == old(self).users@
                    &&& forall|k: int|
                        0 <= k < old(self).users@.len() ==> !holds_key(
                            &#[trigger] old(self).users@[k],
                            trans.from@,
                        )
                },
                Dispatch::Invalid => {
                    &&& final(self).users@ == old(self).users@
                    &&& exists|ind: int| #[trigger]
                        first_holder(old(self).users@, trans.from@, ind) && !trans.valid_in(
                            &old(self).users@[ind].chain,
                        )
                },
                Dispatch::Accepted => {
                    &&& final(self).heard(old(self), trans)
                    &&& exists|ind: int| #[trigger]
                        first_holder(old(self).users@, trans.from@, ind) && trans.valid_in(
                            &old(self).users@[ind].chain,
                        )
                },
            },
    {
        let accepted = match self.find(&trans.from) {
            None => {
                return Dispatch::UnknownSender;
            },
            Some(chain) => trans.is_valid(chain),
        };
        if !accepted {
            return Dispatch::Invalid;
        }
        self.announce(&trans);
        Dispatch::Accepted
    }

    /// Grants a party that has joined its first units: every party but the
    /// mint hears of the grant, a block stamped `now` is made of it alone,
    /// and a copy of that block ends every party's chain as it is.
    pub fn transfer_initial_user(&mut self, trans: Transaction, now: i64)
        ensures
            final(self).users@.len() == old(self).users@.len(),
            forall|k: int|
                0 <= k < old(self).users@.len() ==> {
                    let before = old(self).users@[k];
                    let after = #[trigger] final(self).users@[k];
                    &&& after.same_party(&before)
                    &&& after.transactions@ == without(
                        if before.role == Role::Mint {
                            before.transactions@
                        } else {
                            before.transactions@.push(trans)
                        },
                        seq![trans],
                    )
                    &&& after.chain.chain@.len() == before.chain.chain@.len() + 1
                    &&& after.chain.chain@.drop_last() == before.chain.chain@
                    &&& after.chain.chain@.last().timestamp == now
                    &&& after.chain.chain@.last().data@ == seq![trans]
                    &&& after.chain.chain@.last().nonce == 0
                    &&& after.chain.chain@.last().hash@ == after.chain.chain@.last().content_hash()
                    &&& after.chain.transactions@ == before.chain.transactions@
                    &&& after.chain.difficulty == before.chain.difficulty
                    &&& after.chain.reward == before.chain.reward
                    &&& after.chain.mint_address == before.chain.mint_address
                },
    {
        self.announce(&trans);
        let mut data: Vec<Transaction> = Vec::new();
        data.push(trans);
        assert(data@ =~= seq![trans]);
        let block = Block::new(now, data);
        let ghost mid = *self;
        self.sync(&block, None);
        proof {
            assert forall|k: int| 0 <= k < old(self).users@.len() implies {
                let before = old(self).users@[k];
                let after = #[trigger] final(self).users@[k];
                &&& after.same_party(&before)
                &&& after.chain.chain@.last().hash@ == after.chain.chain@.last().content_hash()
            } by {
                assert(!is_named(&mid.users@[k], None));
                assert(final(self).users@[k].received(&mid.users@[k], &block));
            }
        }
    }

    /// Hands a block to every party but the one that `pubkey` names: a copy
    /// of the block ends its chain, and what the block holds leaves the
    /// transactions it had heard of.
    pub fn sync(&mut self, bloc: &Block, pubkey: Option<&PubKey>)
        ensures
            final(self).users@.len() == old(self).users@.len(),
            forall|k: int|
                0 <= k < old(self).users@.len() ==> if is_named(&old(self).users@[k], pubkey) {
                    (#[trigger] final(self).users@[k]) == old(self).users@[k]
                } else {
                    final(self).users@[k].received(&old(self).users@[k], bloc)
                },
    {
        let mut i: usize = 0;
        while i < self.users.len()
            invariant
                i <= self.users@.len(),
                self.users@.len() == old(self).users@.len(),
                forall|k: int|
                    0 <= k < i ==> if is_named(&old(self).users@[k], pubkey) {
                        (#[trigger] self.users@[k]) == old(self).users@[k]
                    } else {
                        self.users@[k].received(&old(self).users@[k], bloc)
                    },
                forall|k: int|
                    i <= k < self.users@.len() ==> (#[trigger] self.users@[k]) == old(self).users@[k],
            decreases self.users@.len() - i,
        {
            let named = match pubkey {
                Some(key) => self.users[i].public_key.same(key),
                None => false,
            };
            if !named {
                let ghost before = self.users@[i as int];
                let copy = bloc.duplicate();
                self.users[i].push_bloc(copy);
                self.users[i].rm_trans_bloc(bloc);
                proof {
                    let after = self.users@[i as int];
                    assert(after.chain.chain@.drop_last() =~= before.chain.chain@);
                    assert(after.received(&before, bloc));
                }
            }
            i += 1;
        }
    }

    /// A copy of the longest chain among the parties, of the first of them
    /// where several are longest. The copy starts over at difficulty 1.
    pub fn longest_chain(&self) -> (r: BlockChain)
        requires
            self.users@.len() > 0,
        ensures
            exists|ind: int|
                #[trigger] first_longest(self.users@, ind) && r.restarted_copy_of(
                    &self.users@[ind].chain,
                ),
    {
        let mut ind: usize = 0;
        let mut len: usize = self.users[0].chain_len();
        let mut i: usize = 1;
        while i < self.users.len()
            invariant
                1 <= i <= self.users@.len(),
                ind < i,
                len == chain_len_at(self.users@, ind as int),
                forall|k: int| 0 <= k < i ==> #[trigger] chain_len_at(self.users@, k) <= len,
                forall|k: int| 0 <= k < ind ==> #[trigger] chain_len_at(self.users@, k) < len,
            decreases self.users@.len() - i,
        {
            let n = self.users[i].chain_len();
            if n > len {
                ind = i;
                len = n;
            }
            i += 1;
        }
        let r = self.users[ind].chain.clone();
        assert(first_longest(self.users@, ind as int));
        r
    }

    /// The chain of the first party, other than the mint, that has the key.
    pub fn find(&self, pubkey: &PubKey) -> (r: Option<&BlockChain>)
        ensures
            match r {
                Some(chain) => exists|ind: int| #[trigger]
                    first_holder(self.users@, pubkey@, ind) && *chain == self.users@[ind].chain,
                None => forall|k: int|
                    0 <= k < self.users@.len() ==> !holds_key(&#[trigger] self.users@[k], pubkey@),
            },
    {
        let mut i: usize = 0;
        while i < self.users.len()
            invariant
                i <= self.users@.len(),
                forall|k: int| 0 <= k < i ==> !holds_key(&#[trigger] self.users@[k], pubkey@),
            decreases self.users@.len() - i,
        {
            let user = &self.users[i];
            let is_mint = match user.role {
                Role::Mint => true,
                _ => false,
            };
            if !is_mint && user.public_key.same(pubkey) {
                assert(first_holder(self.users@, pubkey@, i as int));
                return Some(&user.chain);
            }
            i += 1;
        }
        None
    }

    /// The first party that is the mint.
    pub fn find_mint(&self) -> (r: Option<&UserMeta>)
        ensures
            match r {
                Some(mint) => exists|ind: int| #[trigger]
                    first_mint(self.users@, ind) && *mint == self.users@[ind],
                None => forall|k: int|
                    0 <= k < self.users@.len() ==> (#[trigger] self.users@[k]).role != Role::Mint,
            },
    {
        let mut i: usize = 0;
        while i < self.users.len()
            invariant
                i <= self.users@.len(),
                forall|k: int| 0 <= k < i ==> (#[trigger] self.users@[k]).role != Role::Mint,
            decreases self.users@.len() - i,
        {
            let user = &self.users[i];
            match user.role {
                Role::Mint => {
                    assert(first_mint(self.users@, i as int));
                    return Some(user);
                },
                _ => {},
            }
            i += 1;
        }
        None
    }

    /// The party that mines for `seed`.
    pub fn pick_miner(&self, seed: i64) -> (r: Option<usize>)
        requires
            self.users@.len() > 0,
        ensures
            match r {
                Some(i) => miner_index(self.users@, seed) == Some(i as int) && i < self.users@.len(),
                None => miner_index(self.users@, seed) is None,
            },
    {
        let n: usize = self.users.len();
        let first: usize = (to_unsigned(seed) % (n as u64)) as usize;
        let ind: usize = match self.users[first].role {
            Role::Mint => (first + 1) % n,
            _ => first,
        };
        match self.users[ind].role {
            Role::Mint => None,
            _ => Some(ind),
        }
    }

    /// Lets the party that `seed` picks take `trans` and mine its pool,
    /// with `created` and `finished` for the clock before and after mining.
    pub fn random_mine_at(
        &mut self,
        config: &Config,
        trans: Transaction,
        seed: i64,
        created: i64,
        finished: i64,
    ) -> (r: Option<(Block, PubKey)>)
        requires
            old(self).ready_to_mine(),
        ensures
            final(self).mined_by(old(self), config, trans, seed, created, finished, r),
    {
        let ind = match self.pick_miner(seed) {
            Some(ind) => ind,
            None => {
                return None;
            },
        };
        let ghost miner = self.users@[ind as int];
        let pub_key = self.users[ind].public_key;
        self.users[ind].chain.add_transaction(trans);
        let mined = self.users[ind].chain.mine_transaction_at(config, &pub_key, created, finished);
        match mined {
            Some(bloc) => Some((bloc, pub_key)),
            None => None,
        }
    }

    /// Lets a party picked by the clock take `trans` and mine its pool.
    /// Returns the block and the miner's key.
    pub fn random_mine(&mut self, config: &Config, trans: Transaction) -> (r: Option<(Block, PubKey)>)
        requires
            old(self).ready_to_mine(),
        ensures
            exists|seed: i64, created: i64, finished: i64|
                final(self).mined_by(old(self), config, trans, seed, created, finished, r),
    {
        let seed: i64 = match now_nanos() {
            Some(t) => t,
            None => 0,
        };
        let ind = match self.pick_miner(seed) {
            Some(ind) => ind,
            None => {
                assert(final(self).mined_by(old(self), config, trans, seed, 0, 0, None));
                return None;
            },
        };
        let pub_key = self.users[ind].public_key;
        self.users[ind].chain.add_transaction(trans);
        let ghost mid = self.users@[ind as int].chain;
        let mined = self.users[ind].chain.mine_transaction(config, &pub_key);
        let ghost (created, finished) = choose|created: i64, finished: i64|
            self.users@[ind as int].chain.pool_mined(&mid, config, pub_key, created, finished, mined);
        match mined {
            Some(bloc) => {
                assert(final(self).mined_by(
                    old(self),
                    config,
                    trans,
                    seed,
                    created,
                    finished,
                    Some((bloc, pub_key)),
                ));
                Some((bloc, pub_key))
            },
            None => {
                assert(final(self).mined_by(old(self), config, trans, seed, created, finished, None));
                None
            },
        }
    }
}

} // verus!
