//! Merkle proof verification over sorted-pair Keccak-256 hashing, and the
//! tree model it is checked against: a proof is an ordered list of sibling
//! nodes, and the verifier folds the leaf up to a root without needing
//! left/right position bits, because each pair is ordered before hashing.

use vstd::prelude::*;

use crate::hash::bytes32_eq;
use crate::hash::hash_pair_sorted;
use crate::hash::lemma_sorted_pair_hash_commutative;
use crate::hash::sorted_pair_hash;

verus! {

/// The proof elements as byte strings.
pub open spec fn proof_views(siblings: Seq<[u8; 32]>) -> Seq<Seq<u8>> {
    siblings.map_values(|e: [u8; 32]| e@)
}

/// The root reached by folding the leaf with each sibling in proof order.
pub open spec fn merkle_root_from(leaf: Seq<u8>, siblings: Seq<Seq<u8>>) -> Seq<u8>
    decreases siblings.len(),
{
    if siblings.len() == 0 {
        leaf
    } else {
        merkle_root_from(sorted_pair_hash(leaf, siblings[0]), siblings.drop_first())
    }
}

/// Whether the proof connects the leaf to the root.
pub open spec fn proof_verifies(leaf: Seq<u8>, root: Seq<u8>, siblings: Seq<Seq<u8>>) -> bool {
    merkle_root_from(leaf, siblings) == root
}

/// Decides membership: folds the leaf with each sibling, ordering every
/// pair before hashing, and compares the result to the root.
pub fn merkle_verify(siblings: Vec<[u8; 32]>, root: [u8; 32], leaf: [u8; 32]) -> (r: bool)
    ensures
        r == proof_verifies(leaf@, root@, proof_views(siblings@)),
{
    let mut computed_hash: [u8; 32] = leaf;
    let mut i: usize = 0;
    proof {
        assert(proof_views(siblings@.skip(0)) =~= proof_views(siblings@));
    }
    while i < siblings.len()
        invariant
            i <= siblings@.len(),
            merkle_root_from(leaf@, proof_views(siblings@)) == merkle_root_from(
                computed_hash@,
                proof_views(siblings@.skip(i as int)),
            ),
        decreases siblings@.len() - i,
    {
        proof {
            assert(proof_views(siblings@.skip(i as int))[0] == siblings@[i as int]@);
            assert(proof_views(siblings@.skip(i as int)).drop_first() =~= proof_views(
                siblings@.skip(i + 1),
            ));
        }
        computed_hash = hash_pair_sorted(&computed_hash, &siblings[i]);
        i = i + 1;
    }
    proof {
        assert(proof_views(siblings@.skip(siblings@.len() as int)) =~= Seq::<Seq<u8>>::empty());
    }
    bytes32_eq(&computed_hash, &root)
}

/// A single-leaf tree: the empty proof connects a leaf to itself.
pub proof fn lemma_single_leaf_verifies(leaf: Seq<u8>)
    ensures
        proof_verifies(leaf, leaf, Seq::<Seq<u8>>::empty()),
{
}

/// The empty proof connects a leaf exactly to itself: against any other
/// root it fails.
pub proof fn lemma_empty_proof_exact(leaf: Seq<u8>, root: Seq<u8>)
    ensures
        proof_verifies(leaf, root, Seq::<Seq<u8>>::empty()) <==> leaf == root,
{
}

/// Whether `n` is a power of two, i.e. a full binary tree can be built
/// over `n` leaves.
pub open spec fn is_pow2(n: nat) -> bool
    decreases n,
{
    if n == 0 {
        false
    } else if n == 1 {
        true
    } else {
        n % 2 == 0 && is_pow2(n / 2)
    }
}

/// One level up in the tree: each adjacent pair of nodes, hashed in sorted
/// order.
pub open spec fn level_up(level: Seq<Seq<u8>>) -> Seq<Seq<u8>> {
    Seq::new(level.len() / 2, |i: int| sorted_pair_hash(level[2 * i], level[2 * i + 1]))
}

/// The root of the full binary tree built over the given leaves by
/// sorted-pair hashing.
pub open spec fn merkle_root_of(leaves: Seq<Seq<u8>>) -> Seq<u8>
    decreases leaves.len(),
{
    if leaves.len() <= 1 {
        if leaves.len() == 1 {
            leaves[0]
        } else {
            Seq::<u8>::empty()
        }
    } else {
        merkle_root_of(level_up(leaves))
    }
}

/// The proof for the leaf at position `i`: its sibling at every level,
/// bottom up.
pub open spec fn merkle_proof_of(leaves: Seq<Seq<u8>>, i: int) -> Seq<Seq<u8>>
    decreases leaves.len(),
{
    if leaves.len() <= 1 {
        Seq::<Seq<u8>>::empty()
    } else {
        let sibling = if i % 2 == 0 {
            i + 1
        } else {
            i - 1
        };
        seq![leaves[sibling]] + merkle_proof_of(level_up(leaves), i / 2)
    }
}

/// Round-trip: in any full binary tree built by sorted-pair hashing, the
/// proof generated for a leaf connects that leaf to the tree's root.
pub proof fn lemma_merkle_round_trip(leaves: Seq<Seq<u8>>, i: int)
    requires
        is_pow2(leaves.len()),
        0 <= i < leaves.len(),
    ensures
        proof_verifies(leaves[i], merkle_root_of(leaves), merkle_proof_of(leaves, i)),
    decreases leaves.len(),
{
    if leaves.len() == 1 {
    } else {
        let up = level_up(leaves);
        let sibling = if i % 2 == 0 {
            i + 1
        } else {
            i - 1
        };
        assert(leaves.len() % 2 == 0);
        assert(0 <= sibling < leaves.len()) by {
            if i % 2 == 0 {
                assert(i != leaves.len() - 1);
            }
        }
        assert(0 <= i / 2 < up.len());
        assert(up[i / 2] == sorted_pair_hash(leaves[2 * (i / 2)], leaves[2 * (i / 2) + 1]));
        if i % 2 == 0 {
            assert(2 * (i / 2) == i);
            assert(sorted_pair_hash(leaves[i], leaves[sibling]) == up[i / 2]);
        } else {
            assert(2 * (i / 2) == sibling);
            assert(2 * (i / 2) + 1 == i);
            lemma_sorted_pair_hash_commutative(leaves[i], leaves[sibling]);
            assert(sorted_pair_hash(leaves[i], leaves[sibling]) == up[i / 2]);
        }
        lemma_merkle_round_trip(up, i / 2);
        let rest = merkle_proof_of(up, i / 2);
        let whole = merkle_proof_of(leaves, i);
        assert(whole == seq![leaves[sibling]] + rest);
        assert(whole[0] == leaves[sibling]);
        assert(whole.drop_first() =~= rest);
        assert(merkle_root_from(leaves[i], whole) == merkle_root_from(up[i / 2], rest));
        assert(merkle_root_of(leaves) == merkle_root_of(up));
    }
}

} // verus!
