//! Key material and ECDSA signatures over secp256k1.
//!
//! Keys and signatures are fixed-size byte strings. The curve arithmetic is
//! done by `k256`; what it returns is named by the uninterpreted functions
//! below, and the contracts of this module are stated over those names.

use crate::hex::{decode_hex, encode_hex, hex_bytes, hex_text, is_hex, reads_as};
use vstd::prelude::*;
use vstd::string::*;

verus! {

/// The compressed SEC1 encoding (33 bytes) of the public key that belongs to
/// a big-endian secret scalar; `None` where the 32 bytes are not a scalar
/// that `k256::ecdsa::SigningKey::from_bytes` accepts.
pub uninterp spec fn ecdsa_public_key(secret: Seq<u8>) -> Option<Seq<u8>>;

/// The 64 bytes (`r` then `s`) that `k256` signs `msg` with under `secret`,
/// by SHA-256 and a deterministic nonce; `None` where signing fails.
pub uninterp spec fn ecdsa_signature(secret: Seq<u8>, msg: Seq<u8>) -> Option<Seq<u8>>;

/// How `k256` judges a signature: `None` where `public` is no SEC1 point of
/// the curve, else whether `sig` is a signature of `msg` under that key.
pub uninterp spec fn ecdsa_verdict(public: Seq<u8>, msg: Seq<u8>, sig: Seq<u8>) -> Option<bool>;

/// Calls `SigningKey::from_bytes`, then `verifying_key` and `to_bytes`:
/// the compressed public key of a secret scalar, where the scalar decodes.
#[verifier::external_body]
fn derive_public(secret: &[u8; 32]) -> (r: Option<[u8; 33]>)
    ensures
        match r {
            Some(p) => ecdsa_public_key(secret@) == Some(p@),
            None => ecdsa_public_key(secret@) is None,
        },
{
    let key = k256::ecdsa::SigningKey::from_bytes(secret).ok()?;
    let mut out = [0u8; 33];
    out.copy_from_slice(&key.verifying_key().to_bytes()[..]);
    Some(out)
}

/// Whether `sig` is accepted for `msg` under the public key that belongs
/// to `secret`.
pub open spec fn verifies_under_own_key(secret: Seq<u8>, msg: Seq<u8>, sig: Seq<u8>) -> bool {
    match ecdsa_public_key(secret) {
        Some(public) => ecdsa_verdict(public, msg, sig) == Some(true),
        None => false,
    }
}

/// Calls `SigningKey::from_bytes`, then `Signer::try_sign`: the signature of
/// `msg`, which is a function of key and message alone because the nonce is
/// derived from them. A signature that comes out is one that `k256`
/// accepts for the same message under the public key of the same scalar:
/// it is made with `s` in the low half, which is what verification asks.
#[verifier::external_body]
fn sign_bytes(secret: &[u8; 32], msg: &[u8]) -> (r: Option<[u8; 64]>)
    ensures
        match r {
            Some(s) => ecdsa_signature(secret@, msg@) == Some(s@) && verifies_under_own_key(
                secret@,
                msg@,
                s@,
            ),
            None => ecdsa_signature(secret@, msg@) is None,
        },
{
    let key = k256::ecdsa::SigningKey::from_bytes(secret).ok()?;
    let sig: k256::ecdsa::Signature = k256::ecdsa::signature::Signer::try_sign(&key, msg).ok()?;
    let mut out = [0u8; 64];
    out.copy_from_slice(sig.as_ref());
    Some(out)
}

/// Calls `VerifyingKey::from_sec1_bytes`, then `Signature::try_from` and
/// `Verifier::verify`. 64 bytes that are no signature at all count as a
/// signature that does not match.
#[verifier::external_body]
fn verify_bytes(public: &[u8; 33], msg: &[u8], sig: &[u8; 64]) -> (r: Option<bool>)
    ensures
        r == ecdsa_verdict(public@, msg@, sig@),
{
    let key = k256::ecdsa::VerifyingKey::from_sec1_bytes(public).ok()?;
    match k256::ecdsa::Signature::try_from(&sig[..]) {
        Ok(s) => Some(k256::ecdsa::signature::Verifier::verify(&key, msg, &s).is_ok()),
        Err(_) => Some(false),
    }
}

/// Calls `SigningKey::random` on the operating system's generator. Whatever
/// is drawn is a scalar that decodes. Panics only where the operating system
/// gives no random bytes.
#[verifier::external_body]
fn random_secret() -> (r: [u8; 32])
    ensures
        ecdsa_public_key(r@) is Some,
{
    let key = k256::ecdsa::SigningKey::random(rand_core::OsRng);
    let mut out = [0u8; 32];
    out.copy_from_slice(&key.to_bytes()[..]);
    out
}

/// Makes the JSON Web Key of a secret scalar and reads both halves back
/// from it: calls `SigningKey::from_bytes`, `SecretKey::from` and
/// `JwkEcKey::from`, then `JwkEcKey::to_secret_key` and
/// `JwkEcKey::to_public_key`. The JWK yields the scalar it was made of, bit
/// for bit, and the compressed public key that belongs to it.
#[verifier::external_body]
fn jwk_halves(secret: &[u8; 32]) -> (r: Option<([u8; 32], [u8; 33])>)
    ensures
        match r {
            Some(halves) => halves.0@ == secret@ && ecdsa_public_key(secret@) == Some(halves.1@),
            None => ecdsa_public_key(secret@) is None,
        },
{
    let key = k256::ecdsa::SigningKey::from_bytes(secret).ok()?;
    let jwk = k256::elliptic_curve::JwkEcKey::from(k256::SecretKey::from(&key));
    let back: k256::SecretKey = jwk.to_secret_key().ok()?;
    let public: k256::PublicKey = jwk.to_public_key().ok()?;
    let mut halves = ([0u8; 32], [0u8; 33]);
    halves.0.copy_from_slice(&back.to_be_bytes()[..]);
    halves.1.copy_from_slice(&k256::ecdsa::VerifyingKey::from(public).to_bytes()[..]);
    Some(halves)
}

/// The `N` bytes of `bytes` as an array.
pub fn to_array<const N: usize>(bytes: &[u8]) -> (r: [u8; N])
    requires
        bytes@.len() == N,
    ensures
        r@ == bytes@,
{
    let mut r = [0u8; N];
    let mut i: usize = 0;
    while i < N
        invariant
            i <= N,
            bytes@.len() == N,
            forall|k: int| 0 <= k < i ==> r@[k] == bytes@[k],
        decreases N - i,
    {
        r[i] = bytes[i];
        i += 1;
    }
    assert(r@ =~= bytes@);
    r
}

/// Whether two byte strings are the same.
pub fn bytes_equal(a: &[u8], b: &[u8]) -> (r: bool)
    ensures
        r == (a@ == b@),
{
    if a.len() != b.len() {
        return false;
    }
    let mut i: usize = 0;
    while i < a.len()
        invariant
            a@.len() == b@.len(),
            i <= a@.len(),
            forall|k: int| 0 <= k < i ==> a@[k] == b@[k],
        decreases a@.len() - i,
    {
        if a[i] != b[i] {
            return false;
        }
        i += 1;
    }
    assert(a@ =~= b@);
    true
}

/// Whether every byte is zero.
pub fn all_zero(a: &[u8]) -> (r: bool)
    ensures
        r == (forall|k: int| 0 <= k < a@.len() ==> a@[k] == 0),
{
    let mut i: usize = 0;
    while i < a.len()
        invariant
            i <= a@.len(),
            forall|k: int| 0 <= k < i ==> a@[k] == 0,
        decreases a@.len() - i,
    {
        if a[i] != 0 {
            return false;
        }
        i += 1;
    }
    true
}

/// A failure to read a key, with its reason in words.
#[derive(Debug)]
pub struct Error {
    pub desc: String,
}

impl Error {
    /// The failure in one line.
    pub fn to_string(&self) -> (s: String)
        ensures
            s@ == "Error { "@ + self.desc@ + " }"@,
    {
        let head = String::from_str("Error { ");
        head.concat(self.desc.as_str()).concat(" }")
    }
}

/// Why a signature was not accepted.
#[derive(Debug, Clone, Copy, PartialEq, Eq, Structural)]
pub enum VerifyError {
    /// The public key bytes are no point of the curve.
    InvalidPublicKey,
    /// The key is good, but the signature is not one of the message under it.
    SignatureMismatch,
}

/// What `PubKey::verify` returns for each verdict.
pub open spec fn verdict_result(verdict: Option<bool>) -> Result<(), VerifyError> {
    match verdict {
        None => Err(VerifyError::InvalidPublicKey),
        Some(false) => Err(VerifyError::SignatureMismatch),
        Some(true) => Ok(()),
    }
}

/// Turns a verdict into the result that callers see.
pub fn verify_outcome(verdict: Option<bool>) -> (r: Result<(), VerifyError>)
    ensures
        r == verdict_result(verdict),
{
    match verdict {
        None => Err(VerifyError::InvalidPublicKey),
        Some(false) => Err(VerifyError::SignatureMismatch),
        Some(true) => Ok(()),
    }
}

/// Fixed-size byte strings that can be shown as lowercase hex.
pub trait ToHex {
    /// The bytes that are shown.
    spec fn octets(&self) -> Seq<u8>;

    /// The bytes in lowercase hex, two digits each. Read as hex, the text
    /// gives the bytes back.
    fn to_hex(&self) -> (s: String)
        ensures
            s@ == hex_text(self.octets()),
            s@.len() == 2 * self.octets().len(),
            reads_as(s@, self.octets()),
    ;

    fn to_bytes(&self) -> (b: &[u8])
        ensures
            b@ == self.octets(),
    ;
}

/// A source of fresh keypairs.
pub struct Secp256K1 {}

impl Secp256K1 {
    pub fn new() -> (r: Self) {
        Secp256K1 {  }
    }

    /// Draws a secret key at random and derives its public key.
    pub fn gen_keypair(&mut self) -> (pair: (SecKey, PubKey))
        ensures
            ecdsa_public_key(pair.0@) == Some(pair.1@),
    {
        let secret = random_secret();
        let public = derive_public(&secret).unwrap();
        (SecKey { bytes: secret }, PubKey { bytes: public })
    }
}

/// A 32-byte secret scalar, big-endian.
#[derive(Debug, Clone, Copy, PartialEq)]
pub struct SecKey {
    bytes: [u8; 32],
}

impl View for SecKey {
    type V = Seq<u8>;

    closed spec fn view(&self) -> Seq<u8> {
        self.bytes@
    }
}

impl SecKey {
    pub fn new(key: &[u8; 32]) -> (r: Self)
        ensures
            r@ == key@,
    {
        SecKey { bytes: *key }
    }

    pub fn from_slice(slice: &[u8; 32]) -> (r: Self)
        ensures
            r@ == slice@,
    {
        SecKey { bytes: *slice }
    }

    /// Reads a secret key from 64 hex digits of either case.
    pub fn from_hex(hex: &str) -> (r: Result<Self, Error>)
        ensures
            r is Ok <==> hex.spec_bytes().len() == 64 && is_hex(hex.spec_bytes()),
            r matches Ok(key) ==> key@ == hex_bytes(hex.spec_bytes()),
            r matches Err(e) ==> e.desc@ == (if hex.spec_bytes().len() != 64 {
                "a secret key takes 64 hex digits"@
            } else {
                "not a hex digit"@
            }),
    {
        let text = hex.as_bytes();
        if text.len() != 64 {
            return Err(Error { desc: "a secret key takes 64 hex digits".to_owned() });
        }
        match decode_hex(text) {
            None => Err(Error { desc: "not a hex digit".to_owned() }),
            Some(v) => Ok(SecKey { bytes: to_array::<32>(v.as_slice()) }),
        }
    }

    /// Secret keys are their 32 bytes: two keys with one view are one value.
    pub proof fn lemma_view_injective(a: SecKey, b: SecKey)
        ensures
            a@ == b@ <==> a == b,
            a@.len() == 32,
            b@.len() == 32,
    {
        if a@ == b@ {
            assert(a.bytes =~= b.bytes);
        }
    }

    /// Whether the bytes are a scalar that can sign.
    pub fn is_valid(&self) -> (r: bool)
        ensures
            r == ecdsa_public_key(self@) is Some,
    {
        derive_public(&self.bytes).is_some()
    }

    /// The public key that belongs to this secret key, where there is one.
    pub fn public_key(&self) -> (r: Option<PubKey>)
        ensures
            match r {
                Some(p) => ecdsa_public_key(self@) == Some(p@),
                None => ecdsa_public_key(self@) is None,
            },
    {
        match derive_public(&self.bytes) {
            Some(public) => Some(PubKey { bytes: public }),
            None => None,
        }
    }

    /// Whether the key can sign `msg`.
    pub fn can_sign(&self, msg: &[u8]) -> (r: bool)
        ensures
            r == ecdsa_signature(self@, msg@) is Some,
    {
        sign_bytes(&self.bytes, msg).is_some()
    }

    /// Signs `msg`, where the key can sign it. The signature is accepted
    /// for `msg` under the public key that belongs to this key.
    pub fn try_sign(&self, msg: &[u8]) -> (r: Option<Signature>)
        ensures
            match r {
                Some(sig) => ecdsa_signature(self@, msg@) == Some(sig@) && verifies_under_own_key(
                    self@,
                    msg@,
                    sig@,
                ),
                None => ecdsa_signature(self@, msg@) is None,
            },
    {
        if self.can_sign(msg) {
            Some(self.sign(msg))
        } else {
            None
        }
    }

    /// Signs `msg` with a key that is known to sign it. The signature is
    /// accepted for `msg` under the public key that belongs to this key.
    pub fn sign(&self, msg: &[u8]) -> (sig: Signature)
        requires
            ecdsa_signature(self@, msg@) is Some,
        ensures
            ecdsa_signature(self@, msg@) == Some(sig@),
            verifies_under_own_key(self@, msg@, sig@),
    {
        let bytes = sign_bytes(&self.bytes, msg).unwrap();
        Signature { bytes }
    }
}

impl ToHex for SecKey {
    /// The bytes that are shown are the value's own: its view.
    open spec fn octets(&self) -> Seq<u8> {
        self@
    }

    fn to_hex(&self) -> (s: String)
        ensures
            s@.len() == 64,
            self@.len() == 32,
    {
        encode_hex(self.bytes.as_slice())
    }

    fn to_bytes(&self) -> (b: &[u8])
        ensures
            b@.len() == 32,
    {
        self.bytes.as_slice()
    }
}

/// A 33-byte compressed curve point.
#[derive(Debug, Clone, Copy, PartialEq)]
pub struct PubKey {
    bytes: [u8; 33],
}

impl View for PubKey {
    type V = Seq<u8>;

    closed spec fn view(&self) -> Seq<u8> {
        self.bytes@
    }
}

impl PubKey {
    pub fn new(key: &[u8; 33]) -> (r: Self)
        ensures
            r@ == key@,
    {
        PubKey { bytes: *key }
    }

    pub fn from_slice(slice: &[u8; 33]) -> (r: Self)
        ensures
            r@ == slice@,
    {
        PubKey { bytes: *slice }
    }

    /// Reads a public key from 66 hex digits of either case.
    pub fn from_hex(hex: &str) -> (r: Result<Self, Error>)
        ensures
            r is Ok <==> hex.spec_bytes().len() == 66 && is_hex(hex.spec_bytes()),
            r matches Ok(key) ==> key@ == hex_bytes(hex.spec_bytes()),
            r matches Err(e) ==> e.desc@ == (if hex.spec_bytes().len() != 66 {
                "a public key takes 66 hex digits"@
            } else {
                "not a hex digit"@
            }),
    {
        let text = hex.as_bytes();
        if text.len() != 66 {
            return Err(Error { desc: "a public key takes 66 hex digits".to_owned() });
        }
        match decode_hex(text) {
            None => Err(Error { desc: "not a hex digit".to_owned() }),
            Some(v) => Ok(PubKey { bytes: to_array::<33>(v.as_slice()) }),
        }
    }

    /// Checks `signature` against `msg` under this key.
    pub fn verify(&self, msg: &[u8], signature: &Signature) -> (r: Result<(), VerifyError>)
        ensures
            r == verdict_result(ecdsa_verdict(self@, msg@, signature@)),
    {
        verify_outcome(verify_bytes(&self.bytes, msg, &signature.bytes))
    }

    pub fn as_ref(&self) -> (b: &[u8])
        ensures
            b@ == self@,
    {
        self.bytes.as_slice()
    }

    /// Whether this is the key of 33 zero bytes, which stands for no key.
    pub fn is_zero(&self) -> (r: bool)
        ensures
            r == is_zero_key(self@),
    {
        all_zero(self.bytes.as_slice())
    }

    /// Whether two keys hold the same bytes.
    pub fn same(&self, other: &PubKey) -> (r: bool)
        ensures
            r == (self@ == other@),
    {
        bytes_equal(self.bytes.as_slice(), other.bytes.as_slice())
    }

    /// Keys are their bytes: two keys with one view are one value.
    pub proof fn lemma_view_injective(a: PubKey, b: PubKey)
        ensures
            a@ == b@ <==> a == b,
            a@.len() == 33,
            b@.len() == 33,
    {
        if a@ == b@ {
            assert(a.bytes =~= b.bytes);
        }
    }
}

/// Whether a key is made of zero bytes only.
pub open spec fn is_zero_key(key: Seq<u8>) -> bool {
    forall|k: int| 0 <= k < key.len() ==> key[k] == 0
}

impl ToHex for PubKey {
    /// The bytes that are shown are the value's own: its view.
    open spec fn octets(&self) -> Seq<u8> {
        self@
    }

    fn to_hex(&self) -> (s: String)
        ensures
            s@.len() == 66,
            self@.len() == 33,
    {
        encode_hex(self.bytes.as_slice())
    }

    fn to_bytes(&self) -> (b: &[u8])
        ensures
            b@.len() == 33,
    {
        self.bytes.as_slice()
    }
}

/// An array whose first `n` bytes are those of `bytes`.
spec fn array_holding(bytes: Seq<u8>, n: nat) -> [u8; 64]
    decreases n,
{
    if n == 0 {
        arbitrary()
    } else {
        vstd::array::spec_array_update(array_holding(bytes, (n - 1) as nat), n - 1, bytes[n - 1])
    }
}

proof fn lemma_array_holding(bytes: Seq<u8>, n: nat)
    requires
        n <= 64,
        bytes.len() == 64,
    ensures
        forall|i: int| 0 <= i < n ==> array_holding(bytes, n)@[i] == bytes[i],
    decreases n,
{
    if n > 0 {
        lemma_array_holding(bytes, (n - 1) as nat);
    }
}

/// A 64-byte ECDSA signature: `r`, then `s`, both big-endian.
#[derive(Debug, Clone, Copy, PartialEq)]
pub struct Signature {
    bytes: [u8; 64],
}

impl View for Signature {
    type V = Seq<u8>;

    closed spec fn view(&self) -> Seq<u8> {
        self.bytes@
    }
}

impl Signature {
    pub fn from_slice(slice: &[u8; 64]) -> (r: Self)
        ensures
            r@ == slice@,
    {
        Signature { bytes: *slice }
    }

    /// Reads a signature from 128 hex digits of either case.
    pub fn from_hex(hex: &str) -> (r: Result<Self, Error>)
        ensures
            r is Ok <==> hex.spec_bytes().len() == 128 && is_hex(hex.spec_bytes()),
            r matches Ok(sig) ==> sig@ == hex_bytes(hex.spec_bytes()),
            r matches Err(e) ==> e.desc@ == (if hex.spec_bytes().len() != 128 {
                "a signature takes 128 hex digits"@
            } else {
                "not a hex digit"@
            }),
    {
        let text = hex.as_bytes();
        if text.len() != 128 {
            return Err(Error { desc: "a signature takes 128 hex digits".to_owned() });
        }
        match decode_hex(text) {
            None => Err(Error { desc: "not a hex digit".to_owned() }),
            Some(v) => Ok(Signature { bytes: to_array::<64>(v.as_slice()) }),
        }
    }

    pub fn as_ref(&self) -> (b: &[u8])
        ensures
            b@ == self@,
    {
        self.bytes.as_slice()
    }

    /// The signature that holds `bytes`, for 64 bytes.
    pub closed spec fn of_bytes(bytes: Seq<u8>) -> Signature {
        choose|s: Signature| s@ == bytes
    }

    /// Every 64 bytes are the bytes of a signature value: `of_bytes` has
    /// the view it was given.
    pub proof fn lemma_of_bytes_view(bytes: Seq<u8>)
        requires
            bytes.len() == 64,
        ensures
            Signature::of_bytes(bytes)@ == bytes,
    {
        lemma_array_holding(bytes, 64);
        let witness = Signature { bytes: array_holding(bytes, 64) };
        assert(witness@ =~= bytes);
    }

    /// `of_bytes` gives a signature back from its own bytes.
    pub proof fn lemma_of_bytes(s: Signature)
        ensures
            Signature::of_bytes(s@) == s,
    {
        Self::lemma_view_injective(Signature::of_bytes(s@), s);
    }

    /// Signatures are their bytes: two signatures with one view are one value.
    pub proof fn lemma_view_injective(a: Signature, b: Signature)
        ensures
            a@ == b@ <==> a == b,
            a@.len() == 64,
            b@.len() == 64,
    {
        if a@ == b@ {
            assert(a.bytes =~= b.bytes);
        }
    }
}

impl ToHex for Signature {
    /// The bytes that are shown are the value's own: its view.
    open spec fn octets(&self) -> Seq<u8> {
        self@
    }

    fn to_hex(&self) -> (s: String)
        ensures
            s@.len() == 128,
            self@.len() == 64,
    {
        encode_hex(self.bytes.as_slice())
    }

    fn to_bytes(&self) -> (b: &[u8])
        ensures
            b@.len() == 64,
    {
        self.bytes.as_slice()
    }
}

/// What a JSON Web Key carries: the portable form of a keypair, or of a
/// public key alone.
#[derive(Debug, Clone, Copy, PartialEq)]
pub struct KeyPair {
    secret: Option<SecKey>,
    public: Option<PubKey>,
}

impl KeyPair {
    /// The secret key that the pair yields, where it carries one.
    pub closed spec fn secret_key(&self) -> Option<Seq<u8>> {
        match self.secret {
            Some(key) => Some(key@),
            None => None,
        }
    }

    /// The public key that the pair yields, where it carries one.
    pub closed spec fn public_key(&self) -> Option<Seq<u8>> {
        match self.public {
            Some(key) => Some(key@),
            None => None,
        }
    }

    /// Whether the pair carries a private part.
    pub open spec fn has_private(&self) -> bool {
        self.secret_key() is Some
    }

    /// A pair of the given halves, as they were read from a JWK.
    pub fn from_parts(secret: Option<SecKey>, public: Option<PubKey>) -> (pair: KeyPair)
        ensures
            pair.secret_key() == (match secret {
                Some(key) => Some(key@),
                None => None,
            }),
            pair.public_key() == (match public {
                Some(key) => Some(key@),
                None => None,
            }),
    {
        KeyPair { secret, public }
    }

    /// The portable form of a secret key, where the key is a valid scalar.
    /// It yields that secret key again, and the public key that belongs to it.
    pub fn try_from(sec_key: &SecKey) -> (r: Option<KeyPair>)
        ensures
            r is Some <==> ecdsa_public_key(sec_key@) is Some,
            r matches Some(pair) ==> {
                &&& pair.secret_key() == Some(sec_key@)
                &&& pair.public_key() == ecdsa_public_key(sec_key@)
                &&& pair.has_private()
            },
    {
        if sec_key.is_valid() {
            Some(KeyPair::from(sec_key))
        } else {
            None
        }
    }

    /// The portable form of a secret key that is known to be a valid scalar.
    pub fn from(sec_key: &SecKey) -> (pair: KeyPair)
        requires
            ecdsa_public_key(sec_key@) is Some,
        ensures
            pair.secret_key() == Some(sec_key@),
            pair.public_key() == ecdsa_public_key(sec_key@),
            pair.has_private(),
    {
        let halves = jwk_halves(&sec_key.bytes).unwrap();
        KeyPair { secret: Some(SecKey { bytes: halves.0 }), public: Some(PubKey { bytes: halves.1 }) }
    }

    /// Is this a keypair that includes a private key?
    pub fn is_keypair(&self) -> (r: bool)
        ensures
            r == self.has_private(),
    {
        self.secret.is_some()
    }

    pub fn to_public_key(&self) -> (r: Result<PubKey, Error>)
        ensures
            match r {
                Ok(key) => self.public_key() == Some(key@),
                Err(e) => self.public_key() is None && e.desc@ == "the JWK holds no public key"@,
            },
    {
        match self.public {
            Some(key) => Ok(key),
            None => Err(Error { desc: "the JWK holds no public key".to_owned() }),
        }
    }

    pub fn to_secret_key(&self) -> (r: Result<SecKey, Error>)
        ensures
            match r {
                Ok(key) => self.secret_key() == Some(key@),
                Err(e) => self.secret_key() is None && e.desc@ == "the JWK holds no secret key"@,
            },
    {
        match self.secret {
            Some(key) => Ok(key),
            None => Err(Error { desc: "the JWK holds no secret key".to_owned() }),
        }
    }
}

} // verus!
