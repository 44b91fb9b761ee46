//! The settings of one ledger: who mints, how much a block pays, and what
//! the first block grants. A `Config` is made once and only read afterwards.

use crate::secp256k1::{ecdsa_public_key, ecdsa_signature, KeyPair, PubKey, SecKey, Secp256K1, Signature};
use vstd::prelude::*;

verus! {

/// What a mined block pays its miner, before tips.
pub const REWARD: i64 = 100;

/// What the first block grants the owner.
pub const INITIAL_GRANT: i64 = 100_000;

/// The intended time between two blocks, in milliseconds.
pub const BLOCK_TIME: u32 = 30_000;

/// The bytes that the mint signs once, to have a signature that new
/// transactions carry until their sender signs them.
pub open spec fn placeholder_text() -> Seq<u8> {
    Seq::new(64, |k: int| 123u8)
}

pub struct Config {
    pub mint_secret: SecKey,
    pub mint_address: PubKey,
    pub mint_key_pair: KeyPair,
    /// The placeholder that unsigned transactions carry.
    pub mint_signature: Signature,
    pub reward: i64,
    pub owner: PubKey,
    pub initial_grant: i64,
}

impl Config {
    /// The parts of a `Config` belong together: the address and the key
    /// pair are those of the mint's secret key, and the placeholder is the
    /// mint's signature of `placeholder_text`.
    pub open spec fn wf(&self) -> bool {
        &&& ecdsa_public_key(self.mint_secret@) == Some(self.mint_address@)
        &&& self.mint_key_pair.secret_key() == Some(self.mint_secret@)
        &&& self.mint_key_pair.public_key() == Some(self.mint_address@)
        &&& ecdsa_signature(self.mint_secret@, placeholder_text()) == Some(self.mint_signature@)
    }

    /// What `new` makes of its arguments, where it makes anything.
    pub open spec fn made_from(
        &self,
        mint_secret: SecKey,
        owner: PubKey,
        reward: i64,
        initial_grant: i64,
    ) -> bool {
        &&& self.wf()
        &&& self.mint_secret == mint_secret
        &&& self.owner == owner
        &&& self.reward == reward
        &&& self.initial_grant == initial_grant
    }

    /// Settings around a given mint key. `None` where the key is no valid
    /// scalar or cannot sign the placeholder text.
    pub fn new(mint_secret: &SecKey, owner: PubKey, reward: i64, initial_grant: i64) -> (r: Option<
        Config,
    >)
        ensures
            r is Some <==> ecdsa_public_key(mint_secret@) is Some && ecdsa_signature(
                mint_secret@,
                placeholder_text(),
            ) is Some,
            r matches Some(c) ==> c.made_from(*mint_secret, owner, reward, initial_grant),
    {
        let text = [123u8; 64];
        assert(text@ =~= placeholder_text());
        let pair = KeyPair::try_from(mint_secret);
        let signature = mint_secret.try_sign(text.as_slice());
        match (pair, signature) {
            (Some(mint_key_pair), Some(mint_signature)) => {
                let mint_address = mint_secret.public_key().unwrap();
                Some(
                    Config {
                        mint_secret: *mint_secret,
                        mint_address,
                        mint_key_pair,
                        mint_signature,
                        reward,
                        owner,
                        initial_grant,
                    },
                )
            },
            _ => None,
        }
    }

    /// Settings around a mint key drawn at random, with the usual reward and
    /// grant. The key that is drawn is a valid scalar; the settings are
    /// those that `new` makes of it. `None` only where that key, valid as it
    /// is, cannot sign the placeholder text.
    pub fn generate(secp: &mut Secp256K1, owner: PubKey) -> (r: Option<Config>)
        ensures
            match r {
                Some(c) => c.made_from(c.mint_secret, owner, REWARD, INITIAL_GRANT),
                None => exists|secret: Seq<u8>|
                    {
                        &&& #[trigger] ecdsa_public_key(secret) is Some
                        &&& ecdsa_signature(secret, placeholder_text()) is None
                    },
            },
    {
        let (secret, _) = secp.gen_keypair();
        let made = Config::new(&secret, owner, REWARD, INITIAL_GRANT);
        proof {
            if made is None {
                assert(ecdsa_public_key(secret@) is Some);
                assert(ecdsa_signature(secret@, placeholder_text()) is None);
            }
        }
        made
    }
}

} // verus!
