//! The eligibility verifier: a recipient and an amount are checked against a
//! committed Merkle root, with sibling pairs hashed in byte order.

use vstd::prelude::*;
use crate::bytes::{
    lex_le, le_bytes, bytes32_eq, bytes32_le, u64_le_bytes, lemma_lex_le_is_total,
    lemma_lex_le_is_antisymmetric,
};

verus! {

/// The Keccak-256 digest of `first` followed by `second`.
pub uninterp spec fn keccak256_pair(first: Seq<u8>, second: Seq<u8>) -> Seq<u8>;

/// Calls `anchor_lang::solana_program::keccak::hashv` on the two byte strings,
/// in this order, and hands back the 32 bytes of the digest. Nothing is proved
/// of the hash function: the contract only names its result, which depends on
/// the two arguments alone.
#[verifier::external_body]
fn hashv_pair(first: &[u8], second: &[u8]) -> (digest: [u8; 32])
    ensures
        digest@ == keccak256_pair(first@, second@),
{
    anchor_lang::solana_program::keccak::hashv(&[first, second]).to_bytes()
}

/// The leaf that commits `amount` to `recipient`: the digest of the recipient's
/// bytes followed by the amount, least significant byte first.
pub open spec fn leaf_digest(recipient: Seq<u8>, amount: u64) -> Seq<u8> {
    keccak256_pair(recipient, le_bytes(amount))
}

/// The parent of two sibling nodes: the digest of the two with the
/// lexicographically smaller one first.
pub open spec fn parent_digest(node: Seq<u8>, sibling: Seq<u8>) -> Seq<u8> {
    if lex_le(node, sibling) {
        keccak256_pair(node, sibling)
    } else {
        keccak256_pair(sibling, node)
    }
}

/// The node reached from `leaf` by joining it, bottom-up, with each sibling of
/// `proof` in turn.
pub open spec fn climb(leaf: Seq<u8>, proof: Seq<[u8; 32]>) -> Seq<u8>
    decreases proof.len(),
{
    if proof.len() == 0 {
        leaf
    } else {
        parent_digest(climb(leaf, proof.drop_last()), proof.last()@)
    }
}

/// `proof` leads from `leaf` to `root`.
pub open spec fn proof_holds(leaf: Seq<u8>, proof: Seq<[u8; 32]>, root: Seq<u8>) -> bool {
    climb(leaf, proof) == root
}

/// Computes the leaf of a recipient and an amount.
pub fn leaf_hash(recipient: &[u8; 32], amount: u64) -> (leaf: [u8; 32])
    ensures
        leaf@ == leaf_digest(recipient@, amount),
{
    let amount_bytes = u64_le_bytes(amount);
    hashv_pair(recipient, &amount_bytes)
}

/// Computes the parent of two sibling nodes.
pub fn parent_hash(node: &[u8; 32], sibling: &[u8; 32]) -> (parent: [u8; 32])
    ensures
        parent@ == parent_digest(node@, sibling@),
{
    if bytes32_le(node, sibling) {
        hashv_pair(node, sibling)
    } else {
        hashv_pair(sibling, node)
    }
}

/// Verifies a Merkle proof: true exactly when folding `proof` over `leaf`
/// gives `root`.
pub fn verify_merkle_proof(proof: &[[u8; 32]], root: &[u8; 32], leaf: &[u8; 32]) -> (ok: bool)
    ensures
        ok == proof_holds(leaf@, proof@, root@),
{
    let mut computed_hash: [u8; 32] = *leaf;
    let mut i: usize = 0;
    while i < proof.len()
        invariant
            i <= proof.len(),
            computed_hash@ == climb(leaf@, proof@.take(i as int)),
        decreases proof.len() - i,
    {
        computed_hash = parent_hash(&computed_hash, &proof[i]);
        proof {
            let upto = proof@.take(i + 1);
            assert(upto.drop_last() =~= proof@.take(i as int));
            assert(upto.last() == proof@[i as int]);
        }
        i += 1;
    }
    assert(proof@.take(i as int) =~= proof@);
    bytes32_eq(&computed_hash, root)
}

/// A Merkle tree with the digest of every node written on it.
pub ghost enum MerkleTree {
    Leaf { digest: [u8; 32] },
    Node { left: Box<MerkleTree>, right: Box<MerkleTree>, digest: [u8; 32] },
}

impl MerkleTree {
    /// The digest written on the root.
    pub open spec fn root(self) -> [u8; 32] {
        match self {
            MerkleTree::Leaf { digest } => digest,
            MerkleTree::Node { digest, .. } => digest,
        }
    }

    /// Every node carries the digest of its two children, the smaller first.
    pub open spec fn well_formed(self) -> bool
        decreases self,
    {
        match self {
            MerkleTree::Leaf { .. } => true,
            MerkleTree::Node { left, right, digest } => {
                &&& left.well_formed()
                &&& right.well_formed()
                &&& digest@ == parent_digest(left.root()@, right.root()@)
            },
        }
    }

    /// The leaf at the end of `path`, which goes down from the root and turns
    /// right where it says `true`; none where the path does not end on a leaf.
    pub open spec fn leaf_at(self, path: Seq<bool>) -> Option<[u8; 32]>
        decreases self,
    {
        match self {
            MerkleTree::Leaf { digest } => if path.len() == 0 {
                Some(digest)
            } else {
                None
            },
            MerkleTree::Node { left, right, .. } => if path.len() == 0 {
                None
            } else if path[0] {
                right.leaf_at(path.drop_first())
            } else {
                left.leaf_at(path.drop_first())
            },
        }
    }

    /// The proof of the leaf at the end of `path`: the siblings passed on the
    /// way, from the leaf's own up to the one below the root.
    pub open spec fn proof_of(self, path: Seq<bool>) -> Seq<[u8; 32]>
        decreases self,
    {
        match self {
            MerkleTree::Leaf { .. } => Seq::empty(),
            MerkleTree::Node { left, right, .. } => if path.len() == 0 {
                Seq::empty()
            } else if path[0] {
                right.proof_of(path.drop_first()).push(left.root())
            } else {
                left.proof_of(path.drop_first()).push(right.root())
            },
        }
    }
}

/// The parent of two nodes of one length does not depend on which of them is
/// given first.
pub proof fn lemma_parent_ignores_order(node: Seq<u8>, sibling: Seq<u8>)
    requires
        node.len() == sibling.len(),
    ensures
        parent_digest(node, sibling) == parent_digest(sibling, node),
{
    lemma_lex_le_is_total(node, sibling);
    if lex_le(node, sibling) && lex_le(sibling, node) {
        lemma_lex_le_is_antisymmetric(node, sibling);
    }
}

/// Every leaf of a tree verifies against the tree's root with its proof,
/// whatever the shape of the tree and wherever the leaf stands in it.
pub proof fn lemma_every_leaf_verifies(tree: MerkleTree, path: Seq<bool>)
    requires
        tree.well_formed(),
        tree.leaf_at(path) is Some,
    ensures
        proof_holds(tree.leaf_at(path).unwrap()@, tree.proof_of(path), tree.root()@),
    decreases tree,
{
    match tree {
        MerkleTree::Leaf { .. } => {},
        MerkleTree::Node { left, right, digest } => {
            let rest = path.drop_first();
            let leaf = tree.leaf_at(path).unwrap()@;
            if path[0] {
                lemma_every_leaf_verifies(*right, rest);
                let below = right.proof_of(rest);
                assert(tree.proof_of(path).drop_last() =~= below);
                assert(tree.proof_of(path).last() == left.root());
                lemma_parent_ignores_order(right.root()@, left.root()@);
            } else {
                lemma_every_leaf_verifies(*left, rest);
                let below = left.proof_of(rest);
                assert(tree.proof_of(path).drop_last() =~= below);
                assert(tree.proof_of(path).last() == right.root());
            }
        },
    }
}

/// A proof leads to one root only: held against any other root it fails.
pub proof fn lemma_proof_fits_one_root(
    leaf: Seq<u8>,
    proof: Seq<[u8; 32]>,
    root: Seq<u8>,
    other: Seq<u8>,
)
    requires
        proof_holds(leaf, proof, root),
        other != root,
    ensures
        !proof_holds(leaf, proof, other),
{
}

/// Two sibling nodes as they are hashed: the smaller one first.
pub open spec fn ordered_pair(node: Seq<u8>, sibling: Seq<u8>) -> (Seq<u8>, Seq<u8>) {
    if lex_le(node, sibling) {
        (node, sibling)
    } else {
        (sibling, node)
    }
}

/// The hash function does not take the two pairs to one digest, unless they
/// are one pair.
pub open spec fn collision_free(first: (Seq<u8>, Seq<u8>), second: (Seq<u8>, Seq<u8>)) -> bool {
    keccak256_pair(first.0, first.1) == keccak256_pair(second.0, second.1) ==> first == second
}

/// The hash function does not collide on the two pairs that two climbs hash
/// at step `i`.
pub open spec fn step_collision_free(
    leaf: Seq<u8>,
    proof: Seq<[u8; 32]>,
    other_leaf: Seq<u8>,
    other_proof: Seq<[u8; 32]>,
    i: int,
) -> bool {
    collision_free(
        ordered_pair(climb(leaf, proof.take(i)), proof[i]@),
        ordered_pair(climb(other_leaf, other_proof.take(i)), other_proof[i]@),
    )
}

/// The hash function does not collide on the pairs that two climbs of one
/// length hash, step by step.
pub open spec fn climbs_collision_free(
    leaf: Seq<u8>,
    proof: Seq<[u8; 32]>,
    other_leaf: Seq<u8>,
    other_proof: Seq<[u8; 32]>,
) -> bool {
    forall|i: int|
        0 <= i < proof.len() ==> #[trigger] step_collision_free(
            leaf,
            proof,
            other_leaf,
            other_proof,
            i,
        )
}

/// Two pairs of siblings that differ in one place, in the node or in the
/// sibling, have different parents where the hash function does not collide
/// on them.
pub proof fn lemma_parents_differ(
    node: Seq<u8>,
    sibling: Seq<u8>,
    other_node: Seq<u8>,
    other_sibling: Seq<u8>,
)
    requires
        collision_free(ordered_pair(node, sibling), ordered_pair(other_node, other_sibling)),
        (node != other_node && sibling == other_sibling) || (node == other_node && sibling
            != other_sibling),
    ensures
        parent_digest(node, sibling) != parent_digest(other_node, other_sibling),
{
}

/// The steps of a climb below its last are the steps of the climb without its
/// last sibling.
proof fn lemma_collision_free_below(
    leaf: Seq<u8>,
    proof: Seq<[u8; 32]>,
    other_leaf: Seq<u8>,
    other_proof: Seq<[u8; 32]>,
)
    requires
        proof.len() == other_proof.len(),
        proof.len() > 0,
        climbs_collision_free(leaf, proof, other_leaf, other_proof),
    ensures
        climbs_collision_free(leaf, proof.drop_last(), other_leaf, other_proof.drop_last()),
        collision_free(
            ordered_pair(climb(leaf, proof.drop_last()), proof.last()@),
            ordered_pair(climb(other_leaf, other_proof.drop_last()), other_proof.last()@),
        ),
{
    let below = proof.drop_last();
    let other_below = other_proof.drop_last();
    assert forall|i: int| 0 <= i < below.len() implies #[trigger] step_collision_free(
        leaf,
        below,
        other_leaf,
        other_below,
        i,
    ) by {
        assert(step_collision_free(leaf, proof, other_leaf, other_proof, i));
        assert(below.take(i) =~= proof.take(i));
        assert(other_below.take(i) =~= other_proof.take(i));
    }
    let top = proof.len() - 1;
    assert(step_collision_free(leaf, proof, other_leaf, other_proof, top));
    assert(proof.take(top) =~= below);
    assert(other_proof.take(top) =~= other_below);
}

/// Another leaf climbs elsewhere: with the same siblings, a leaf that differs
/// in any bit ends on another node, where the hash function does not collide
/// on the pairs hashed on the way.
pub proof fn lemma_other_leaf_climbs_elsewhere(
    leaf: Seq<u8>,
    other_leaf: Seq<u8>,
    proof: Seq<[u8; 32]>,
)
    requires
        leaf != other_leaf,
        climbs_collision_free(leaf, proof, other_leaf, proof),
    ensures
        climb(leaf, proof) != climb(other_leaf, proof),
    decreases proof.len(),
{
    if proof.len() > 0 {
        lemma_collision_free_below(leaf, proof, other_leaf, proof);
        lemma_other_leaf_climbs_elsewhere(leaf, other_leaf, proof.drop_last());
        lemma_parents_differ(
            climb(leaf, proof.drop_last()),
            proof.last()@,
            climb(other_leaf, proof.drop_last()),
            proof.last()@,
        );
    }
}

/// Another sibling climbs elsewhere: from the same leaf, a proof that differs
/// from `proof` in any bit of its sibling `at` ends on another node, where the
/// hash function does not collide on the pairs hashed on the way.
pub proof fn lemma_other_sibling_climbs_elsewhere(
    leaf: Seq<u8>,
    proof: Seq<[u8; 32]>,
    at: int,
    sibling: [u8; 32],
)
    requires
        0 <= at < proof.len(),
        sibling@ != proof[at]@,
        climbs_collision_free(leaf, proof, leaf, proof.update(at, sibling)),
    ensures
        climb(leaf, proof) != climb(leaf, proof.update(at, sibling)),
    decreases proof.len(),
{
    let other = proof.update(at, sibling);
    lemma_collision_free_below(leaf, proof, leaf, other);
    if at == proof.len() - 1 {
        assert(other.drop_last() =~= proof.drop_last());
        lemma_parents_differ(
            climb(leaf, proof.drop_last()),
            proof.last()@,
            climb(leaf, proof.drop_last()),
            sibling@,
        );
    } else {
        assert(other.drop_last() =~= proof.drop_last().update(at, sibling));
        lemma_other_sibling_climbs_elsewhere(leaf, proof.drop_last(), at, sibling);
        lemma_parents_differ(
            climb(leaf, proof.drop_last()),
            proof.last()@,
            climb(leaf, other.drop_last()),
            proof.last()@,
        );
    }
}

/// A proof that holds for a leaf fails for any leaf that differs from it in
/// any bit, where the hash function does not collide on the pairs hashed on
/// the way.
pub proof fn lemma_flipped_leaf_fails(
    leaf: Seq<u8>,
    proof: Seq<[u8; 32]>,
    root: Seq<u8>,
    other_leaf: Seq<u8>,
)
    requires
        proof_holds(leaf, proof, root),
        other_leaf != leaf,
        climbs_collision_free(leaf, proof, other_leaf, proof),
    ensures
        !proof_holds(other_leaf, proof, root),
{
    lemma_other_leaf_climbs_elsewhere(leaf, other_leaf, proof);
}

/// A proof that holds fails as soon as any bit of one of its siblings is
/// flipped, where the hash function does not collide on the pairs hashed on
/// the way.
pub proof fn lemma_flipped_sibling_fails(
    leaf: Seq<u8>,
    proof: Seq<[u8; 32]>,
    root: Seq<u8>,
    at: int,
    sibling: [u8; 32],
)
    requires
        proof_holds(leaf, proof, root),
        0 <= at < proof.len(),
        sibling@ != proof[at]@,
        climbs_collision_free(leaf, proof, leaf, proof.update(at, sibling)),
    ensures
        !proof_holds(leaf, proof.update(at, sibling), root),
{
    lemma_other_sibling_climbs_elsewhere(leaf, proof, at, sibling);
}

} // verus!
