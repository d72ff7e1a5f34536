//! The Keccak-256 Merkle commitment to a deck: a leaf is the hash of a
//! card's bytes, an inner node the hash of its children side by side, and a
//! proof lists the siblings from the leaf up, the low bit of the index
//! telling on which side each one stands.
use vstd::prelude::*;
use crate::cipher::EncryptedCard;
use crate::game::GameState;
use crate::hash::{keccak, keccak256, concat32};

verus! {

/// The hash reached from `h` at position `index` after climbing past the
/// siblings in `proof`.
pub open spec fn climb(h: Seq<u8>, proof: Seq<[u8; 32]>, index: nat) -> Seq<u8>
    decreases proof.len(),
{
    if proof.len() == 0 {
        h
    } else {
        let s = proof[0]@;
        let up = if index % 2 == 0 {
            keccak256(h + s)
        } else {
            keccak256(s + h)
        };
        climb(up, proof.drop_first(), index / 2)
    }
}

/// The root that a leaf and its proof commit to.
pub open spec fn merkle_root(leaf: Seq<u8>, proof: Seq<[u8; 32]>, index: nat) -> Seq<u8> {
    climb(keccak256(leaf), proof, index)
}

impl GameState {
    /// Whether `proof` shows `card` at position `index` of the tree whose root is `root`.
    pub fn verify_merkle_proof(
        card: &EncryptedCard,
        proof: &[[u8; 32]],
        root: &[u8; 32],
        index: usize,
    ) -> (r: bool)
        ensures
            r == (merkle_root(card.data@, proof@, index as nat) == root@),
    {
        let mut current: [u8; 32] = keccak(&card.data);
        let mut idx: usize = index;
        let mut i: usize = 0;
        assert(proof@.skip(0) =~= proof@);
        while i < proof.len()
            invariant
                i <= proof@.len(),
                climb(current@, proof@.skip(i as int), idx as nat) == merkle_root(
                    card.data@,
                    proof@,
                    index as nat,
                ),
            decreases proof@.len() - i,
        {
            proof {
                assert(proof@.skip(i as int).drop_first() =~= proof@.skip(i as int + 1));
            }
            let sibling = &proof[i];
            let data = if idx % 2 == 0 {
                concat32(&current, sibling)
            } else {
                concat32(sibling, &current)
            };
            current = keccak(data.as_slice());
            idx = idx / 2;
            i = i + 1;
        }
        assert(proof@.skip(proof@.len() as int) =~= Seq::<[u8; 32]>::empty());
        let mut same = true;
        let mut k: usize = 0;
        while k < 32
            invariant
                k <= 32,
                same <==> forall|m: int| 0 <= m < k ==> current@[m] == root@[m],
            decreases 32 - k,
        {
            if current[k] != root[k] {
                same = false;
            }
            k = k + 1;
        }
        if same {
            assert(current@ =~= root@);
        }
        same
    }
}

} // verus!
