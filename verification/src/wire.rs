//! The byte layout of what gets hashed: fixed-width little-endian integers
//! and length-prefixed sequences.

use vstd::prelude::*;

verus! {

/// The eight bytes of `v`, least significant first.
pub open spec fn le_bytes(v: u64) -> Seq<u8> {
    seq![
        (v & 0xff) as u8,
        ((v >> 8) & 0xff) as u8,
        ((v >> 16) & 0xff) as u8,
        ((v >> 24) & 0xff) as u8,
        ((v >> 32) & 0xff) as u8,
        ((v >> 40) & 0xff) as u8,
        ((v >> 48) & 0xff) as u8,
        ((v >> 56) & 0xff) as u8,
    ]
}

/// The unsigned number with the same 64 bits as `v` in two's complement.
pub open spec fn twos_complement(v: i64) -> u64 {
    if v >= 0 {
        v as u64
    } else {
        (v + 0x1_0000_0000_0000_0000) as u64
    }
}

/// The eight bytes of a signed number: its two's complement, least
/// significant byte first.
pub open spec fn le_bytes_signed(v: i64) -> Seq<u8> {
    le_bytes(twos_complement(v))
}

/// Calls `bincode::serialize` on a `u64`. With the default options that is
/// the fixed-width encoding: eight bytes, little-endian. It cannot fail,
/// since there is no size limit to exceed.
#[verifier::external_body]
fn bincode_u64(v: u64) -> (r: Option<Vec<u8>>)
    ensures
        r is Some,
        r.unwrap()@ == le_bytes(v),
{
    bincode::serialize(&v).ok()
}

/// Encodes an unsigned number in eight bytes.
pub fn encode_u64(v: u64) -> (r: Vec<u8>)
    ensures
        r@ == le_bytes(v),
{
    bincode_u64(v).unwrap()
}

/// The unsigned number with the same bits as `v`.
pub fn to_unsigned(v: i64) -> (r: u64)
    ensures
        r == twos_complement(v),
{
    if v >= 0 {
        v as u64
    } else {
        let below: u64 = (-(v + 1)) as u64;
        u64::MAX - below
    }
}

/// Encodes a signed number in eight bytes.
pub fn encode_i64(v: i64) -> (r: Vec<u8>)
    ensures
        r@ == le_bytes_signed(v),
{
    encode_u64(to_unsigned(v))
}

/// Appends `src` to `buf`.
pub fn append_bytes(buf: &mut Vec<u8>, src: &[u8])
    ensures
        final(buf)@ == old(buf)@ + src@,
{
    let mut i: usize = 0;
    while i < src.len()
        invariant
            i <= src@.len(),
            buf@ == old(buf)@ + src@.subrange(0, i as int),
        decreases src@.len() - i,
    {
        buf.push(src[i]);
        assert(buf@ =~= old(buf)@ + src@.subrange(0, i + 1));
        i += 1;
    }
    assert(src@.subrange(0, i as int) =~= src@);
}

/// Eight bytes hold one number only.
pub proof fn lemma_le_bytes_injective(a: u64, b: u64)
    requires
        le_bytes(a) == le_bytes(b),
    ensures
        a == b,
{
    let x = le_bytes(a);
    let y = le_bytes(b);
    assert(x[0] == y[0] && x[1] == y[1] && x[2] == y[2] && x[3] == y[3]);
    assert(x[4] == y[4] && x[5] == y[5] && x[6] == y[6] && x[7] == y[7]);
    assert(forall|v: u64, k: u64| k < 64 ==> #[trigger] ((v >> k) & 0xff) < 0x100) by (bit_vector);
    assert(a & 0xff == (a >> 0) & 0xff && b & 0xff == (b >> 0) & 0xff) by (bit_vector);
    assert(a == b) by (bit_vector)
        requires
            (a >> 0) & 0xff == (b >> 0) & 0xff,
            (a >> 8) & 0xff == (b >> 8) & 0xff,
            (a >> 16) & 0xff == (b >> 16) & 0xff,
            (a >> 24) & 0xff == (b >> 24) & 0xff,
            (a >> 32) & 0xff == (b >> 32) & 0xff,
            (a >> 40) & 0xff == (b >> 40) & 0xff,
            (a >> 48) & 0xff == (b >> 48) & 0xff,
            (a >> 56) & 0xff == (b >> 56) & 0xff,
    ;
}

/// Two signed numbers with the same bytes are equal.
pub proof fn lemma_le_bytes_signed_injective(a: i64, b: i64)
    requires
        le_bytes_signed(a) == le_bytes_signed(b),
    ensures
        a == b,
{
    lemma_le_bytes_injective(twos_complement(a), twos_complement(b));
}

} // verus!
