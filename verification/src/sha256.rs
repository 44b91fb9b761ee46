//! SHA-256 digests as 32-byte values.

use crate::hex::{encode_hex, hex_text};
use crate::secp256k1::{bytes_equal, ToHex};
use vstd::prelude::*;

verus! {

/// The SHA-256 digest of a byte string, as `bitcoin_hashes` computes it.
pub uninterp spec fn sha256_digest(data: Seq<u8>) -> Seq<u8>;

/// Calls `bitcoin_hashes::sha256::Hash::hash`, then `into_inner`: the 32
/// bytes of the digest of `data`.
#[verifier::external_body]
fn digest_bytes(data: &[u8]) -> (digest: [u8; 32])
    ensures
        digest@ == sha256_digest(data@),
{
    bitcoin_hashes::Hash::into_inner(<bitcoin_hashes::sha256::Hash as bitcoin_hashes::Hash>::hash(data))
}

/// A SHA-256 digest.
#[derive(Debug, Clone, Copy, PartialEq)]
pub struct Sha256 {
    bytes: [u8; 32],
}

impl View for Sha256 {
    type V = Seq<u8>;

    closed spec fn view(&self) -> Seq<u8> {
        self.bytes@
    }
}

/// Whether the first `n` bytes of `digest` are zero.
pub open spec fn has_zero_prefix(digest: Seq<u8>, n: int) -> bool {
    forall|k: int| 0 <= k < n ==> digest[k] == 0
}

impl Sha256 {
    /// The digest of `data`.
    pub fn hash(data: &[u8]) -> (r: Self)
        ensures
            r@ == sha256_digest(data@),
    {
        Sha256 { bytes: digest_bytes(data) }
    }

    /// The digest of 32 zero bytes, which stands for "no predecessor".
    pub fn zero() -> (r: Self)
        ensures
            r@ == Seq::new(32, |k: int| 0u8),
    {
        let r = Sha256 { bytes: [0u8; 32] };
        assert(r@ =~= Seq::new(32, |k: int| 0u8));
        r
    }

    pub fn from_slice(slice: &[u8; 32]) -> (r: Self)
        ensures
            r@ == slice@,
    {
        Sha256 { bytes: *slice }
    }

    pub fn as_ref(&self) -> (b: &[u8])
        ensures
            b@ == self@,
    {
        self.bytes.as_slice()
    }

    pub fn to_vec(&self) -> (v: Vec<u8>)
        ensures
            v@ == self@,
    {
        let mut v: Vec<u8> = Vec::new();
        let mut i: usize = 0;
        while i < 32
            invariant
                i <= 32,
                v@ == self.bytes@.subrange(0, i as int),
            decreases 32 - i,
        {
            v.push(self.bytes[i]);
            assert(v@ =~= self.bytes@.subrange(0, i + 1));
            i += 1;
        }
        assert(self.bytes@.subrange(0, 32) =~= self.bytes@);
        v
    }

    /// Whether two digests hold the same bytes.
    pub fn same(&self, other: &Sha256) -> (r: bool)
        ensures
            r == (self@ == other@),
    {
        bytes_equal(self.bytes.as_slice(), other.bytes.as_slice())
    }

    /// Whether the first `n` bytes are zero.
    pub fn starts_with_zeros(&self, n: u32) -> (r: bool)
        requires
            n <= 32,
        ensures
            r == has_zero_prefix(self@, n as int),
    {
        let mut i: u32 = 0;
        while i < n
            invariant
                i <= n <= 32,
                has_zero_prefix(self@, i as int),
            decreases n - i,
        {
            if self.bytes[i as usize] != 0 {
                return false;
            }
            i += 1;
        }
        true
    }

    /// Digests are their bytes: two digests with one view are one value.
    pub proof fn lemma_view_injective(a: Sha256, b: Sha256)
        ensures
            a@ == b@ <==> a == b,
            a@.len() == 32,
            b@.len() == 32,
    {
        if a@ == b@ {
            assert(a.bytes =~= b.bytes);
        }
    }
}

impl ToHex for Sha256 {
    /// The bytes that are shown are the digest's own: its view.
    open spec fn octets(&self) -> Seq<u8> {
        self@
    }

    fn to_hex(&self) -> (s: String)
        ensures
            s@.len() == 64,
            self@.len() == 32,
    {
        encode_hex(self.bytes.as_slice())
    }

    fn to_bytes(&self) -> (b: &[u8])
        ensures
            b@.len() == 32,
    {
        self.bytes.as_slice()
    }
}

} // verus!
