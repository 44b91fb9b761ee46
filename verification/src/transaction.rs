//! A transfer of value from one key to another, and its signature.

use crate::blockchain::BlockChain;
use crate::constant::Config;
use crate::secp256k1::{
    bytes_equal, ecdsa_public_key, ecdsa_signature, ecdsa_verdict, is_zero_key,
    verifies_under_own_key, Error, KeyPair, PubKey, Signature,
};
use crate::sha256::{sha256_digest, Sha256};
use crate::wire::{append_bytes, encode_i64, le_bytes_signed, lemma_le_bytes_signed_injective};
use vstd::prelude::*;

verus! {

/// A transfer of `amount` units from `from` to `to`, with `tips` units more
/// that the sender gives up for the miner.
#[derive(Debug, Clone, Copy, PartialEq)]
pub struct Transaction {
    pub from: PubKey,
    pub to: PubKey,
    pub amount: i64,
    pub tips: i64,
    pub signature: Signature,
}

impl Transaction {
    /// The bytes that are signed: sender, recipient, amount and tips. The
    /// signature is no part of them.
    pub open spec fn payload(&self) -> Seq<u8> {
        self.from@ + self.to@ + le_bytes_signed(self.amount) + le_bytes_signed(self.tips)
    }

    /// The digest that the sender signs.
    pub open spec fn message(&self) -> Seq<u8> {
        sha256_digest(self.payload())
    }

    /// All the bytes of a transaction, as they enter a block's digest.
    pub open spec fn bytes(&self) -> Seq<u8> {
        self.payload() + self.signature@
    }

    /// Whether the signature is the sender's signature of the message.
    pub open spec fn is_signed(&self) -> bool {
        ecdsa_verdict(self.from@, self.message(), self.signature@) == Some(true)
    }

    /// Whether a ledger accepts this transaction: both keys are real, the
    /// amount is not zero, the sender is the mint or can afford amount and
    /// tips, and the signature is the sender's.
    pub open spec fn valid_in(&self, chain: &BlockChain) -> bool {
        &&& !is_zero_key(self.from@)
        &&& !is_zero_key(self.to@)
        &&& self.amount != 0
        &&& (self.from@ == chain.mint_address@ || chain.balance_of(self.from@) >= self.amount
            + self.tips)
        &&& self.is_signed()
    }

    /// The signature that `sign` stores for a key pair: the pair's signature
    /// of the message, 64 bytes, where the pair is the sender's, holds a
    /// secret key that signs, and the signature verifies under the sender's
    /// key. `None` where nothing is stored.
    pub open spec fn signing_outcome(&self, key_pair: &KeyPair) -> Option<Seq<u8>> {
        if key_pair.public_key() == Some(self.from@) && key_pair.secret_key() is Some {
            match ecdsa_signature(key_pair.secret_key().unwrap(), self.message()) {
                Some(sig) => if sig.len() == 64 && ecdsa_verdict(self.from@, self.message(), sig)
                    == Some(true) {
                    Some(sig)
                } else {
                    None
                },
                None => None,
            }
        } else {
            None
        }
    }

    /// The transaction as `sign` leaves it for a key pair.
    pub open spec fn signed_with(&self, key_pair: &KeyPair) -> Transaction {
        Transaction {
            from: self.from,
            to: self.to,
            amount: self.amount,
            tips: self.tips,
            signature: match self.signing_outcome(key_pair) {
                Some(sig) => Signature::of_bytes(sig),
                None => self.signature,
            },
        }
    }

    /// What `signed_with` leaves. Where the pair signs, the transaction
    /// carries that signature and is signed; where it does not, nothing has
    /// changed. Sender, recipient, amount and tips stay in either case.
    pub proof fn lemma_signed_with(tx: Transaction, key_pair: &KeyPair)
        ensures
            tx.signed_with(key_pair).from == tx.from,
            tx.signed_with(key_pair).to == tx.to,
            tx.signed_with(key_pair).amount == tx.amount,
            tx.signed_with(key_pair).tips == tx.tips,
            tx.signed_with(key_pair).message() == tx.message(),
            match tx.signing_outcome(key_pair) {
                Some(sig) => tx.signed_with(key_pair).signature@ == sig && tx.signed_with(
                    key_pair,
                ).is_signed(),
                None => tx.signed_with(key_pair) == tx,
            },
    {
        match tx.signing_outcome(key_pair) {
            Some(sig) => {
                Signature::lemma_of_bytes_view(sig);
            },
            None => {},
        }
    }

    /// A pair that was made of the sender's own secret key signs whatever
    /// that key signs: the signature is accepted under the sender's key.
    pub proof fn lemma_own_pair_signs(tx: Transaction, key_pair: &KeyPair, sig: Seq<u8>)
        requires
            key_pair.public_key() == Some(tx.from@),
            key_pair.secret_key() is Some,
            ecdsa_public_key(key_pair.secret_key().unwrap()) == Some(tx.from@),
            ecdsa_signature(key_pair.secret_key().unwrap(), tx.message()) == Some(sig),
            sig.len() == 64,
            verifies_under_own_key(key_pair.secret_key().unwrap(), tx.message(), sig),
        ensures
            tx.signing_outcome(key_pair) == Some(sig),
    {
    }

    /// An unsigned transaction: it carries the mint's placeholder signature.
    /// Without `tips` it offers none.
    pub fn new(from: PubKey, to: PubKey, amount: i64, tips: Option<i64>, config: &Config) -> (r:
        Self)
        ensures
            r.from == from,
            r.to == to,
            r.amount == amount,
            r.tips == (match tips {
                Some(t) => t,
                None => 0,
            }),
            r.signature == config.mint_signature,
    {
        let tips: i64 = match tips {
            Some(t) => t,
            None => 0,
        };
        Transaction { from, to, amount, tips, signature: config.mint_signature }
    }

    /// Whether two transactions are the same in every field.
    pub fn same(&self, other: &Transaction) -> (r: bool)
        ensures
            r == (*self == *other),
    {
        proof {
            PubKey::lemma_view_injective(self.from, other.from);
            PubKey::lemma_view_injective(self.to, other.to);
            Signature::lemma_view_injective(self.signature, other.signature);
        }
        self.from.same(&other.from) && self.to.same(&other.to) && self.amount == other.amount
            && self.tips == other.tips && bytes_equal(
            self.signature.as_ref(),
            other.signature.as_ref(),
        )
    }

    /// The signed bytes.
    pub fn encode_payload(&self) -> (r: Vec<u8>)
        ensures
            r@ == self.payload(),
    {
        let mut buf: Vec<u8> = Vec::new();
        append_bytes(&mut buf, self.from.as_ref());
        append_bytes(&mut buf, self.to.as_ref());
        let amount = encode_i64(self.amount);
        append_bytes(&mut buf, amount.as_slice());
        let tips = encode_i64(self.tips);
        append_bytes(&mut buf, tips.as_slice());
        assert(buf@ =~= self.payload());
        buf
    }

    /// The digest that is signed. It never fails.
    pub fn transaction_msg(&self) -> (r: Result<Sha256, Error>)
        ensures
            r is Ok,
            r.unwrap()@ == self.message(),
    {
        let payload = self.encode_payload();
        Ok(Sha256::hash(payload.as_slice()))
    }

    /// Whether `chain` accepts this transaction.
    pub fn is_valid(&self, chain: &BlockChain) -> (r: bool)
        requires
            chain.within_capacity(),
        ensures
            r == self.valid_in(chain),
    {
        if self.from.is_zero() || self.to.is_zero() || self.amount == 0 {
            return false;
        }
        if !self.from.same(&chain.mint_address) {
            let balance: i128 = chain.get_balance(&self.from);
            let cost: i128 = self.amount as i128 + self.tips as i128;
            if balance < cost {
                return false;
            }
        }
        let payload = self.encode_payload();
        let msg = Sha256::hash(payload.as_slice());
        self.from.verify(msg.as_ref(), &self.signature).is_ok()
    }

    /// Signs with `key_pair`, and says whether a signature was stored. A
    /// pair that is not the sender's, holds no secret key or cannot sign
    /// leaves the transaction as it was; so does a signature that fails its
    /// own verification.
    pub fn sign(&mut self, key_pair: &KeyPair) -> (signed: bool)
        ensures
            signed == old(self).signing_outcome(key_pair) is Some,
            final(self).from == old(self).from,
            final(self).to == old(self).to,
            final(self).amount == old(self).amount,
            final(self).tips == old(self).tips,
            final(self).signature@ == (match old(self).signing_outcome(key_pair) {
                Some(sig) => sig,
                None => old(self).signature@,
            }),
            signed ==> final(self).is_signed(),
            *final(self) == old(self).signed_with(key_pair),
    {
        let public = match key_pair.to_public_key() {
            Ok(p) => p,
            Err(_) => {
                return false;
            },
        };
        if !public.same(&self.from) {
            return false;
        }
        let secret = match key_pair.to_secret_key() {
            Ok(s) => s,
            Err(_) => {
                return false;
            },
        };
        let payload = self.encode_payload();
        let msg = Sha256::hash(payload.as_slice());
        let signature = match secret.try_sign(msg.as_ref()) {
            Some(s) => s,
            None => {
                return false;
            },
        };
        proof {
            Signature::lemma_view_injective(signature, signature);
        }
        if self.from.verify(msg.as_ref(), &signature).is_ok() {
            proof {
                Signature::lemma_of_bytes(signature);
            }
            self.signature = signature;
            true
        } else {
            false
        }
    }

    /// Rejection without regard to the ledger: a transaction of amount
    /// zero, one from or to the zero key, and one whose signature is not the
    /// sender's signature of its message are valid in no ledger.
    pub proof fn lemma_rejected_everywhere(tx: Transaction, chain: &BlockChain)
        requires
            tx.amount == 0 || is_zero_key(tx.from@) || is_zero_key(tx.to@) || !tx.is_signed(),
        ensures
            !tx.valid_in(chain),
    {
    }

    /// The signed bytes say who sends how much to whom: two transactions
    /// with the same payload differ in their signatures at most.
    pub proof fn lemma_payload_injective(a: Transaction, b: Transaction)
        requires
            a.payload() == b.payload(),
        ensures
            a.from == b.from,
            a.to == b.to,
            a.amount == b.amount,
            a.tips == b.tips,
    {
        PubKey::lemma_view_injective(a.from, b.from);
        PubKey::lemma_view_injective(a.to, b.to);
        let x = a.payload();
        let y = b.payload();
        assert(a.from@ =~= x.subrange(0, 33));
        assert(b.from@ =~= y.subrange(0, 33));
        assert(a.to@ =~= x.subrange(33, 66));
        assert(b.to@ =~= y.subrange(33, 66));
        assert(le_bytes_signed(a.amount) =~= x.subrange(66, 74));
        assert(le_bytes_signed(b.amount) =~= y.subrange(66, 74));
        assert(le_bytes_signed(a.tips) =~= x.subrange(74, 82));
        assert(le_bytes_signed(b.tips) =~= y.subrange(74, 82));
        lemma_le_bytes_signed_injective(a.amount, b.amount);
        lemma_le_bytes_signed_injective(a.tips, b.tips);
    }

    /// A transaction is 146 bytes, and they hold all of it.
    pub proof fn lemma_bytes_injective(a: Transaction, b: Transaction)
        ensures
            a.bytes().len() == 146,
            a.bytes() == b.bytes() ==> a == b,
    {
        PubKey::lemma_view_injective(a.from, b.from);
        PubKey::lemma_view_injective(a.to, b.to);
        Signature::lemma_view_injective(a.signature, b.signature);
        assert(a.payload().len() == 82);
        assert(b.payload().len() == 82);
        if a.bytes() == b.bytes() {
            assert(a.payload() =~= a.bytes().subrange(0, 82));
            assert(b.payload() =~= b.bytes().subrange(0, 82));
            assert(a.signature@ =~= a.bytes().subrange(82, 146));
            assert(b.signature@ =~= b.bytes().subrange(82, 146));
            Self::lemma_payload_injective(a, b);
        }
    }
}

} // verus!
