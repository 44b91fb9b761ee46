//! A batch of transactions with its digest, its link to the block before it
//! and the nonce that proves the work.

use crate::blockchain::BlockChain;
use crate::sha256::{has_zero_prefix, sha256_digest, Sha256};
use crate::transaction::Transaction;
use crate::wire::{
    append_bytes, encode_i64, encode_u64, le_bytes, le_bytes_signed, lemma_le_bytes_injective,
    lemma_le_bytes_signed_injective,
};
use vstd::prelude::*;

verus! {

/// The bytes of a run of transactions, one after the other.
pub open spec fn flat_bytes(data: Seq<Transaction>) -> Seq<u8>
    decreases data.len(),
{
    if data.len() == 0 {
        Seq::<u8>::empty()
    } else {
        flat_bytes(data.drop_last()) + data.last().bytes()
    }
}

/// A block's transactions as bytes: their number in eight bytes, then each.
pub open spec fn data_bytes(data: Seq<Transaction>) -> Seq<u8> {
    le_bytes(data.len() as u64) + flat_bytes(data)
}

/// What is hashed for a block: the digest before it, the timestamp, the
/// transactions and the nonce, in that order.
pub open spec fn preimage(prev_hash: Seq<u8>, timestamp: i64, data: Seq<Transaction>, nonce: u64) -> Seq<
    u8,
> {
    prev_hash + le_bytes_signed(timestamp) + data_bytes(data) + le_bytes(nonce)
}

/// The total amount of the transactions in `data` that `mint` sends.
pub open spec fn mint_issued(data: Seq<Transaction>, mint: Seq<u8>) -> int
    decreases data.len(),
{
    if data.len() == 0 {
        0
    } else {
        mint_issued(data.drop_last(), mint) + (if data.last().from@ == mint {
            data.last().amount as int
        } else {
            0
        })
    }
}

/// The total tips that the transactions sent by `mint` carry.
pub open spec fn mint_tips(data: Seq<Transaction>, mint: Seq<u8>) -> int
    decreases data.len(),
{
    if data.len() == 0 {
        0
    } else {
        mint_tips(data.drop_last(), mint) + (if data.last().from@ == mint {
            data.last().tips as int
        } else {
            0
        })
    }
}

/// How many transactions in `data` the mint sends.
pub open spec fn mint_count(data: Seq<Transaction>, mint: Seq<u8>) -> nat
    decreases data.len(),
{
    if data.len() == 0 {
        0
    } else {
        mint_count(data.drop_last(), mint) + (if data.last().from@ == mint {
            1nat
        } else {
            0nat
        })
    }
}

/// Whether some nonce from `from` on gives a block of these fields a digest
/// with `difficulty` leading zero bytes.
pub open spec fn workable(
    prev_hash: Seq<u8>,
    timestamp: i64,
    data: Seq<Transaction>,
    from: u64,
    difficulty: u32,
) -> bool {
    exists|m: u64|
        m >= from && has_zero_prefix(
            #[trigger] sha256_digest(preimage(prev_hash, timestamp, data, m)),
            difficulty as int,
        )
}

/// A run of transactions takes 146 bytes each.
pub proof fn lemma_flat_len(data: Seq<Transaction>)
    ensures
        flat_bytes(data).len() == 146 * data.len(),
    decreases data.len(),
{
    if data.len() > 0 {
        lemma_flat_len(data.drop_last());
        Transaction::lemma_bytes_injective(data.last(), data.last());
    }
}

/// The bytes of a run of transactions hold all of it.
pub proof fn lemma_flat_injective(a: Seq<Transaction>, b: Seq<Transaction>)
    requires
        flat_bytes(a) == flat_bytes(b),
    ensures
        a == b,
    decreases a.len(),
{
    lemma_flat_len(a);
    lemma_flat_len(b);
    if a.len() > 0 {
        let n = a.len() as int;
        lemma_flat_len(a.drop_last());
        lemma_flat_len(b.drop_last());
        Transaction::lemma_bytes_injective(a.last(), b.last());
        Transaction::lemma_bytes_injective(b.last(), a.last());
        assert(flat_bytes(a.drop_last()) =~= flat_bytes(a).subrange(0, 146 * (n - 1)));
        assert(flat_bytes(b.drop_last()) =~= flat_bytes(b).subrange(0, 146 * (n - 1)));
        assert(a.last().bytes() =~= flat_bytes(a).subrange(146 * (n - 1), 146 * n));
        assert(b.last().bytes() =~= flat_bytes(b).subrange(146 * (n - 1), 146 * n));
        lemma_flat_injective(a.drop_last(), b.drop_last());
        assert(a =~= a.drop_last().push(a.last()));
        assert(b =~= b.drop_last().push(b.last()));
    } else {
        assert(a =~= b);
    }
}

/// Tamper evidence of what is hashed. Two blocks are hashed from the same
/// bytes only if they have the same predecessor, time, transactions and
/// nonce: whoever changes one of them changes the bytes, and with them the
/// digest, unless SHA-256 collides.
pub proof fn lemma_preimage_injective(
    prev1: Seq<u8>,
    timestamp1: i64,
    data1: Seq<Transaction>,
    nonce1: u64,
    prev2: Seq<u8>,
    timestamp2: i64,
    data2: Seq<Transaction>,
    nonce2: u64,
)
    requires
        prev1.len() == 32,
        prev2.len() == 32,
        data1.len() <= u64::MAX,
        data2.len() <= u64::MAX,
        preimage(prev1, timestamp1, data1, nonce1) == preimage(prev2, timestamp2, data2, nonce2),
    ensures
        prev1 == prev2,
        timestamp1 == timestamp2,
        data1 == data2,
        nonce1 == nonce2,
{
    let x = preimage(prev1, timestamp1, data1, nonce1);
    let y = preimage(prev2, timestamp2, data2, nonce2);
    let n1 = data1.len() as int;
    let n2 = data2.len() as int;
    lemma_flat_len(data1);
    lemma_flat_len(data2);
    assert(prev1 =~= x.subrange(0, 32));
    assert(prev2 =~= y.subrange(0, 32));
    assert(le_bytes_signed(timestamp1) =~= x.subrange(32, 40));
    assert(le_bytes_signed(timestamp2) =~= y.subrange(32, 40));
    lemma_le_bytes_signed_injective(timestamp1, timestamp2);
    assert(le_bytes(data1.len() as u64) =~= x.subrange(40, 48));
    assert(le_bytes(data2.len() as u64) =~= y.subrange(40, 48));
    lemma_le_bytes_injective(data1.len() as u64, data2.len() as u64);
    assert(n1 == n2);
    assert(flat_bytes(data1) =~= x.subrange(48, 48 + 146 * n1));
    assert(flat_bytes(data2) =~= y.subrange(48, 48 + 146 * n2));
    lemma_flat_injective(data1, data2);
    assert(le_bytes(nonce1) =~= x.subrange(48 + 146 * n1, 56 + 146 * n1));
    assert(le_bytes(nonce2) =~= y.subrange(48 + 146 * n2, 56 + 146 * n2));
    lemma_le_bytes_injective(nonce1, nonce2);
}

/// The last nonce that a search of `attempts` further nonces may try.
pub open spec fn search_end(nonce: u64, attempts: u64) -> u64 {
    if nonce + attempts > u64::MAX {
        u64::MAX
    } else {
        (nonce + attempts) as u64
    }
}

#[derive(Debug, PartialEq)]
pub struct Block {
    /// When the block was made, in milliseconds since the Unix epoch.
    pub timestamp: i64,
    pub data: Vec<Transaction>,
    pub prev_hash: Sha256,
    pub hash: Sha256,
    pub nonce: u64,
}

impl Block {
    /// The bytes that this block's digest is taken of.
    pub open spec fn hashed_bytes(&self) -> Seq<u8> {
        preimage(self.prev_hash@, self.timestamp, self.data@, self.nonce)
    }

    /// The digest that this block would have with nonce `n`.
    pub open spec fn hash_at(&self, n: u64) -> Seq<u8> {
        sha256_digest(preimage(self.prev_hash@, self.timestamp, self.data@, n))
    }

    /// The digest of the block's fields as they stand. The stored digest is
    /// no part of it.
    pub open spec fn content_hash(&self) -> Seq<u8> {
        self.hash_at(self.nonce)
    }

    /// Whether nonce `n` gives a digest with `difficulty` leading zero bytes.
    pub open spec fn mined_at(&self, n: u64, difficulty: u32) -> bool {
        has_zero_prefix(self.hash_at(n), difficulty as int)
    }

    /// Whether the stored digest has `difficulty` leading zero bytes.
    pub open spec fn mined(&self, difficulty: u32) -> bool {
        has_zero_prefix(self.hash@, difficulty as int)
    }

    /// What a search of at most `attempts` further nonces makes of the
    /// block `before`. Only nonce and digest change. A block that is mined
    /// already stays as it is. Otherwise the search stops at the first
    /// nonce after the old one that gives a mined digest, which is then
    /// stored, or without success at the last nonce it may try. Where the
    /// old digest was that of the old fields, the new nonce is the first at
    /// all, from the old one on, that gives a mined digest.
    pub open spec fn searched_from(
        &self,
        before: &Block,
        difficulty: u32,
        attempts: u64,
        found: bool,
    ) -> bool {
        let end = search_end(before.nonce, attempts);
        &&& self.timestamp == before.timestamp
        &&& self.data@ == before.data@
        &&& self.prev_hash == before.prev_hash
        &&& found <==> before.mined(difficulty) || exists|m: u64|
            before.nonce < m <= end && #[trigger] before.mined_at(m, difficulty)
        &&& found ==> self.mined(difficulty)
        &&& before.mined(difficulty) ==> self.nonce == before.nonce && self.hash == before.hash
        &&& !before.mined(difficulty) && found ==> {
            &&& before.nonce < self.nonce <= end
            &&& self.hash@ == self.content_hash()
            &&& forall|m: u64|
                before.nonce < m < self.nonce ==> !#[trigger] before.mined_at(m, difficulty)
        }
        &&& !found ==> self.nonce == end
        &&& !found && before.nonce < end ==> self.hash@ == self.content_hash()
        &&& !found && before.nonce == end ==> self.hash == before.hash
        &&& before.hash@ == before.content_hash() && found ==> {
            &&& self.hash@ == self.content_hash()
            &&& forall|m: u64|
                before.nonce <= m < self.nonce ==> !#[trigger] before.mined_at(m, difficulty)
        }
    }

    /// A block that is not linked yet: its predecessor is the zero digest,
    /// its nonce 0, and its digest that of these fields.
    pub fn new(timestamp: i64, data: Vec<Transaction>) -> (r: Self)
        ensures
            r.timestamp == timestamp,
            r.data@ == data@,
            r.prev_hash@ == Seq::new(32, |k: int| 0u8),
            r.nonce == 0,
            r.hash@ == r.content_hash(),
    {
        let mut item = Block {
            timestamp,
            data,
            prev_hash: Sha256::zero(),
            hash: Sha256::zero(),
            nonce: 0,
        };
        item.hash = item.get_hash();
        item
    }

    /// The digest of the block's fields as they stand.
    pub fn get_hash(&self) -> (r: Sha256)
        ensures
            r@ == self.content_hash(),
    {
        let mut buf: Vec<u8> = Vec::new();
        append_bytes(&mut buf, self.prev_hash.as_ref());
        let timestamp = encode_i64(self.timestamp);
        append_bytes(&mut buf, timestamp.as_slice());
        let count = encode_u64(self.data.len() as u64);
        append_bytes(&mut buf, count.as_slice());
        let ghost head = buf@;
        let mut i: usize = 0;
        while i < self.data.len()
            invariant
                i <= self.data@.len(),
                buf@ == head + flat_bytes(self.data@.subrange(0, i as int)),
            decreases self.data@.len() - i,
        {
            let tx = &self.data[i];
            let payload = tx.encode_payload();
            append_bytes(&mut buf, payload.as_slice());
            append_bytes(&mut buf, tx.signature.as_ref());
            proof {
                assert(self.data@.subrange(0, i + 1).drop_last() =~= self.data@.subrange(
                    0,
                    i as int,
                ));
                assert(buf@ =~= head + flat_bytes(self.data@.subrange(0, i + 1)));
            }
            i += 1;
        }
        assert(self.data@.subrange(0, i as int) =~= self.data@);
        let nonce = encode_u64(self.nonce);
        append_bytes(&mut buf, nonce.as_slice());
        assert(buf@ =~= preimage(self.prev_hash@, self.timestamp, self.data@, self.nonce));
        Sha256::hash(buf.as_slice())
    }

    /// Whether the stored digest starts with `difficulty` zero bytes.
    pub fn is_mined(&self, difficulty: u32) -> (r: bool)
        requires
            difficulty < 32,
        ensures
            r == self.mined(difficulty),
    {
        self.hash.starts_with_zeros(difficulty)
    }

    /// Raises the nonce until the digest starts with `difficulty` zero
    /// bytes, and says whether a nonce was found. A block whose stored
    /// digest already does is left alone. The search ends without success
    /// only when the nonce has reached its largest value.
    pub fn mine(&mut self, difficulty: u32) -> (found: bool)
        requires
            difficulty < 32,
        ensures
            final(self).searched_from(old(self), difficulty, u64::MAX, found),
            !found ==> final(self).nonce == u64::MAX,
            found <==> old(self).mined(difficulty) || exists|m: u64|
                m > old(self).nonce && #[trigger] old(self).mined_at(m, difficulty),
    {
        self.mine_up_to(difficulty, u64::MAX)
    }

    /// `mine`, but giving up after `attempts` further nonces.
    pub fn mine_up_to(&mut self, difficulty: u32, attempts: u64) -> (found: bool)
        requires
            difficulty < 32,
        ensures
            final(self).searched_from(old(self), difficulty, attempts, found),
    {
        let mut left: u64 = attempts;
        while !self.is_mined(difficulty)
            invariant
                difficulty < 32,
                self.timestamp == old(self).timestamp,
                self.data@ == old(self).data@,
                self.prev_hash == old(self).prev_hash,
                self.nonce >= old(self).nonce,
                self.nonce - old(self).nonce == attempts - left,
                self.nonce == old(self).nonce ==> self.hash == old(self).hash,
                self.nonce > old(self).nonce ==> self.hash@ == self.content_hash() && !old(self).mined(
                    difficulty,
                ),
                forall|m: u64|
                    old(self).nonce < m < self.nonce ==> !#[trigger] old(self).mined_at(m, difficulty),
            decreases left,
        {
            if left == 0 || self.nonce == u64::MAX {
                assert forall|m: u64|
                    old(self).nonce < m <= search_end(old(self).nonce, attempts) implies !#[trigger] old(self).mined_at(m, difficulty) by {
                    if m == self.nonce {
                        assert(old(self).hash_at(m) == self.content_hash());
                    }
                }
                return false;
            }
            left = left - 1;
            self.nonce = self.nonce + 1;
            self.hash = self.get_hash();
        }
        proof {
            if self.nonce > old(self).nonce {
                assert(old(self).hash_at(self.nonce) == self.content_hash());
                assert(old(self).mined_at(self.nonce, difficulty));
            }
            if old(self).hash@ == old(self).content_hash() {
                assert(old(self).mined_at(old(self).nonce, difficulty) == old(self).mined(
                    difficulty,
                ));
            }
        }
        true
    }

    /// Whether this block is a block of the given time, transactions and
    /// starting nonce, linked behind `prev_hash` and mined: its digest is
    /// that of its fields and has `difficulty` leading zero bytes, and its
    /// nonce is the first from `nonce` on for which that is so.
    pub open spec fn sealed_from(
        &self,
        timestamp: i64,
        data: Seq<Transaction>,
        nonce: u64,
        prev_hash: Seq<u8>,
        difficulty: u32,
    ) -> bool {
        &&& self.timestamp == timestamp
        &&& self.data@ == data
        &&& self.prev_hash@ == prev_hash
        &&& self.hash@ == self.content_hash()
        &&& self.mined(difficulty)
        &&& self.nonce >= nonce
        &&& forall|m: u64| nonce <= m < self.nonce ==> !#[trigger] self.mined_at(m, difficulty)
    }

    /// Whether a ledger accepts this block's transactions: what the mint
    /// issues here, less the tips that its transactions carry, is the
    /// ledger's reward; every transaction is valid in the ledger; and
    /// exactly one is sent by the mint.
    pub open spec fn transactions_valid_in(&self, chain: &BlockChain) -> bool {
        &&& mint_issued(self.data@, chain.mint_address@) - mint_tips(
            self.data@,
            chain.mint_address@,
        ) == chain.reward
        &&& forall|k: int| 0 <= k < self.data@.len() ==> (#[trigger] self.data@[k]).valid_in(chain)
        &&& mint_count(self.data@, chain.mint_address@) == 1
    }

    /// Whether two blocks agree in every field.
    pub open spec fn same_fields(&self, other: &Block) -> bool {
        &&& self.timestamp == other.timestamp
        &&& self.data@ == other.data@
        &&& self.prev_hash == other.prev_hash
        &&& self.hash == other.hash
        &&& self.nonce == other.nonce
    }

    /// Hash determinism. The digest of a block is a function of its
    /// predecessor, time, transactions and nonce: two blocks that agree in
    /// these have one digest, whatever digest each has stored.
    pub proof fn lemma_content_hash_of_fields(a: &Block, b: &Block)
        requires
            a.prev_hash@ == b.prev_hash@,
            a.timestamp == b.timestamp,
            a.data@ == b.data@,
            a.nonce == b.nonce,
        ensures
            a.content_hash() == b.content_hash(),
    {
    }

    /// Tamper evidence. Two blocks that are hashed from the same bytes have
    /// the same predecessor, time, transactions and nonce. So a block whose
    /// stored digest is still that of its fields was changed in none of
    /// them, unless SHA-256 collides.
    pub proof fn lemma_tamper_evident(a: &Block, b: &Block)
        requires
            a.data@.len() <= u64::MAX,
            b.data@.len() <= u64::MAX,
            a.hashed_bytes() == b.hashed_bytes(),
        ensures
            a.prev_hash == b.prev_hash,
            a.timestamp == b.timestamp,
            a.data@ == b.data@,
            a.nonce == b.nonce,
    {
        Sha256::lemma_view_injective(a.prev_hash, b.prev_hash);
        lemma_preimage_injective(
            a.prev_hash@,
            a.timestamp,
            a.data@,
            a.nonce,
            b.prev_hash@,
            b.timestamp,
            b.data@,
            b.nonce,
        );
    }

    /// Being sealed is a matter of the fields: a block with the fields of a
    /// sealed block is sealed in the same way.
    pub proof fn lemma_sealed_same_fields(
        a: &Block,
        b: &Block,
        timestamp: i64,
        data: Seq<Transaction>,
        nonce: u64,
        prev_hash: Seq<u8>,
        difficulty: u32,
    )
        requires
            a.sealed_from(timestamp, data, nonce, prev_hash, difficulty),
            b.timestamp == a.timestamp,
            b.data@ == a.data@,
            b.prev_hash@ == a.prev_hash@,
            b.hash@ == a.hash@,
            b.nonce == a.nonce,
        ensures
            b.sealed_from(timestamp, data, nonce, prev_hash, difficulty),
    {
        assert forall|m: u64| nonce <= m < b.nonce implies !#[trigger] b.mined_at(m, difficulty) by {
            assert(b.mined_at(m, difficulty) == a.mined_at(m, difficulty));
        }
    }

    /// A copy with the same fields.
    pub fn duplicate(&self) -> (r: Self)
        ensures
            r.same_fields(self),
    {
        let mut data: Vec<Transaction> = Vec::new();
        let mut i: usize = 0;
        while i < self.data.len()
            invariant
                i <= self.data@.len(),
                data@ == self.data@.subrange(0, i as int),
            decreases self.data@.len() - i,
        {
            data.push(self.data[i]);
            assert(data@ =~= self.data@.subrange(0, i + 1));
            i += 1;
        }
        assert(self.data@.subrange(0, i as int) =~= self.data@);
        Block {
            timestamp: self.timestamp,
            data,
            prev_hash: self.prev_hash,
            hash: self.hash,
            nonce: self.nonce,
        }
    }

    /// Whether the block holds `tx`.
    pub fn holds(&self, tx: &Transaction) -> (r: bool)
        ensures
            r == self.data@.contains(*tx),
    {
        let mut i: usize = 0;
        while i < self.data.len()
            invariant
                i <= self.data@.len(),
                forall|k: int| 0 <= k < i ==> self.data@[k] != *tx,
            decreases self.data@.len() - i,
        {
            if self.data[i].same(tx) {
                return true;
            }
            i += 1;
        }
        false
    }

    /// Whether `chain` accepts this block's transactions.
    pub fn has_valid_transaction(&self, chain: &BlockChain) -> (r: bool)
        requires
            chain.within_capacity(),
        ensures
            r == self.transactions_valid_in(chain),
    {
        let ghost mint = chain.mint_address@;
        let mut issued: i128 = 0;
        let mut tips: i128 = 0;
        let mut count: usize = 0;
        let mut all_valid = true;
        let mut i: usize = 0;
        while i < self.data.len()
            invariant
                i <= self.data@.len(),
                mint == chain.mint_address@,
                chain.within_capacity(),
                issued == mint_issued(self.data@.subrange(0, i as int), mint),
                tips == mint_tips(self.data@.subrange(0, i as int), mint),
                count == mint_count(self.data@.subrange(0, i as int), mint),
                count <= i,
                -0x8000_0000_0000_0000 * i <= issued <= 0x8000_0000_0000_0000 * i,
                -0x8000_0000_0000_0000 * i <= tips <= 0x8000_0000_0000_0000 * i,
                all_valid == (forall|k: int|
                    0 <= k < i ==> (#[trigger] self.data@[k]).valid_in(chain)),
            decreases self.data@.len() - i,
        {
            let tx = &self.data[i];
            proof {
                assert(self.data@.subrange(0, i + 1).drop_last() =~= self.data@.subrange(
                    0,
                    i as int,
                ));
            }
            if tx.from.same(&chain.mint_address) {
                issued = issued + tx.amount as i128;
                tips = tips + tx.tips as i128;
                count = count + 1;
            }
            if !tx.is_valid(chain) {
                all_valid = false;
            }
            i += 1;
        }
        assert(self.data@.subrange(0, i as int) =~= self.data@);
        issued == tips + chain.reward as i128 && all_valid && count == 1
    }
}

impl Clone for Block {
    fn clone(&self) -> (r: Self)
        ensures
            r.same_fields(self),
    {
        self.duplicate()
    }
}

} // verus!
