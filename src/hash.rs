//! Keccak-256, as the hosting chain computes it.
use vstd::prelude::*;

verus! {

/// The Keccak-256 digest of a byte string.
pub uninterp spec fn keccak256(data: Seq<u8>) -> Seq<u8>;

/// Relies on `anchor_lang::solana_program::keccak::hash`: the 32-byte
/// Keccak-256 digest of `data`, a function of `data` alone.
#[verifier::external_body]
pub(crate) fn keccak(data: &[u8]) -> (r: [u8; 32])
    ensures
        r@ == keccak256(data@),
{
    anchor_lang::solana_program::keccak::hash(data).to_bytes()
}

/// `a` followed by `b`.
pub(crate) fn concat32(a: &[u8; 32], b: &[u8; 32]) -> (r: Vec<u8>)
    ensures
        r@ == a@ + b@,
{
    let mut r: Vec<u8> = Vec::new();
    let mut i: usize = 0;
    while i < 32
        invariant
            i <= 32,
            r@ == a@.subrange(0, i as int),
        decreases 32 - i,
    {
        r.push(a[i]);
        i = i + 1;
        assert(r@ =~= a@.subrange(0, i as int));
    }
    let mut k: usize = 0;
    while k < 32
        invariant
            k <= 32,
            r@ == a@ + b@.subrange(0, k as int),
        decreases 32 - k,
    {
        r.push(b[k]);
        k = k + 1;
        assert(r@ =~= a@ + b@.subrange(0, k as int));
    }
    assert(a@.subrange(0, 32) =~= a@);
    assert(b@.subrange(0, 32) =~= b@);
    r
}

} // verus!
