//! Merkle tree over transaction hashes: root construction, inclusion proofs,
//! and proof verification.
//!
//! Levels are built by pairing adjacent nodes and hashing their
//! concatenation; a node without a right neighbour is paired with itself.
//! Proof verification recomputes the path bottom-up and the library proves
//! that every proof generated from a tree verifies against its root.
use vstd::prelude::*;

use crate::bytesutil::{append_bytes, bytes32_eq};
use crate::crypto::{blake3_of, hash_data};
use crate::transaction::{spec_tx_hash, Transaction};

verus! {

/// The sequence of byte sequences held by a vector of hashes.
pub open spec fn spec_hashes(s: Seq<crate::Hash>) -> Seq<Seq<u8>> {
    Seq::new(s.len(), |i: int| s[i]@)
}

/// The combination of two nodes: the digest of left then right.
pub open spec fn spec_combine(left: Seq<u8>, right: Seq<u8>) -> Seq<u8> {
    blake3_of(left + right)
}

/// One level up: adjacent nodes pairwise combined, an unpaired final node
/// combined with itself.
pub open spec fn spec_next_level(level: Seq<Seq<u8>>) -> Seq<Seq<u8>> {
    Seq::new(
        ((level.len() + 1) / 2) as nat,
        |i: int|
            if 2 * i + 1 < level.len() {
                spec_combine(level[2 * i], level[2 * i + 1])
            } else {
                spec_combine(level[2 * i], level[2 * i])
            },
    )
}

/// The root obtained by combining a non-empty level upward until one node
/// remains.
pub open spec fn spec_root_from(level: Seq<Seq<u8>>) -> Seq<u8>
    recommends
        level.len() > 0,
    decreases level.len(),
{
    if level.len() <= 1 {
        level[0]
    } else {
        spec_root_from(spec_next_level(level))
    }
}

/// The marker hashed as the root of an empty tree.
pub open spec fn spec_empty_marker() -> Seq<u8> {
    seq![101u8, 109u8, 112u8, 116u8, 121u8]
}

/// The Merkle root of a list of leaf hashes; the digest of a fixed marker
/// when the list is empty.
pub open spec fn spec_merkle_root(leaves: Seq<Seq<u8>>) -> Seq<u8> {
    if leaves.len() == 0 {
        blake3_of(spec_empty_marker())
    } else {
        spec_root_from(leaves)
    }
}

/// How many siblings an inclusion proof carries in a tree of `n` leaves:
/// one per level, none for a single leaf.
pub open spec fn spec_proof_len(n: nat) -> nat
    decreases n,
{
    if n <= 1 {
        0
    } else {
        (1 + spec_proof_len(((n + 1) / 2) as nat)) as nat
    }
}

/// The node reached from a leaf by folding a sibling path bottom-up, with
/// the index at the level where the fold stopped.
pub open spec fn spec_fold_state(leaf: Seq<u8>, path: Seq<Seq<u8>>, index: nat) -> (Seq<u8>, nat)
    decreases path.len(),
{
    if path.len() == 0 {
        (leaf, index)
    } else {
        let c = if index % 2 == 0 {
            spec_combine(leaf, path[0])
        } else {
            spec_combine(path[0], leaf)
        };
        spec_fold_state(c, path.skip(1), index / 2)
    }
}

/// The node reached from a leaf by folding a sibling path bottom-up.
pub open spec fn spec_fold(leaf: Seq<u8>, path: Seq<Seq<u8>>, index: nat) -> Seq<u8> {
    spec_fold_state(leaf, path, index).0
}

/// Folding one more sibling applies one combination step to the state the
/// shorter path reaches.
proof fn lemma_fold_snoc(leaf: Seq<u8>, path: Seq<Seq<u8>>, index: nat, sibling: Seq<u8>)
    ensures
        spec_fold_state(leaf, path.push(sibling), index) == ({
            let (h, i) = spec_fold_state(leaf, path, index);
            (
                if i % 2 == 0 {
                    spec_combine(h, sibling)
                } else {
                    spec_combine(sibling, h)
                },
                i / 2,
            )
        }),
    decreases path.len(),
{
    if path.len() == 0 {
        let c = if index % 2 == 0 {
            spec_combine(leaf, sibling)
        } else {
            spec_combine(sibling, leaf)
        };
        assert(path.push(sibling)[0] == sibling);
        assert(path.push(sibling).skip(1) =~= Seq::<Seq<u8>>::empty());
        assert(spec_fold_state(leaf, path.push(sibling), index) == spec_fold_state(
            c,
            path.push(sibling).skip(1),
            (index / 2) as nat,
        ));
        assert(spec_fold_state(c, path.push(sibling).skip(1), (index / 2) as nat) == (
            c,
            (index / 2) as nat,
        ));
        assert(spec_fold_state(leaf, path, index) == (leaf, index));
    } else {
        let c = if index % 2 == 0 {
            spec_combine(leaf, path[0])
        } else {
            spec_combine(path[0], leaf)
        };
        assert(path.push(sibling)[0] == path[0]);
        assert(path.push(sibling).skip(1) =~= path.skip(1).push(sibling));
        assert(spec_fold_state(leaf, path.push(sibling), index) == spec_fold_state(
            c,
            path.skip(1).push(sibling),
            (index / 2) as nat,
        ));
        assert(spec_fold_state(leaf, path, index) == spec_fold_state(
            c,
            path.skip(1),
            (index / 2) as nat,
        ));
        lemma_fold_snoc(c, path.skip(1), (index / 2) as nat, sibling);
    }
}

/// A Merkle inclusion proof: the leaf, its sibling path to the root, and the
/// leaf's position.
#[derive(Clone, Debug)]
pub struct MerkleProof {
    /// Hash of the transaction the proof is about.
    pub leaf_hash: crate::Hash,
    /// Sibling hashes from the leaf level upward.
    pub path: Vec<crate::Hash>,
    /// Position of the leaf in the tree.
    pub index: usize,
}

/// A Merkle tree: the leaf hashes and the root computed from them.
#[derive(Debug)]
pub struct MerkleTree {
    root: crate::Hash,
    leaves: Vec<crate::Hash>,
}

impl MerkleTree {
    /// The root always matches the leaves.
    #[verifier::type_invariant]
    pub closed spec fn wf(self) -> bool {
        self.root@ == spec_merkle_root(spec_hashes(self.leaves@))
    }

    /// The leaf hashes of the tree.
    pub closed spec fn spec_leaves(self) -> Seq<Seq<u8>> {
        spec_hashes(self.leaves@)
    }

    /// The root of the tree.
    pub closed spec fn spec_root(self) -> Seq<u8> {
        self.root@
    }

    /// Builds the tree whose leaves are the canonical hashes of the given
    /// transactions, in order.
    pub fn from_transactions(transactions: &[Transaction]) -> (r: Self)
        ensures
            r.spec_leaves() == Seq::new(
                transactions@.len(),
                |i: int| spec_tx_hash(transactions@[i]@),
            ),
            r.spec_root() == spec_merkle_root(r.spec_leaves()),
    {
        let mut leaves: Vec<crate::Hash> = Vec::new();
        let mut i: usize = 0;
        while i < transactions.len()
            invariant
                i <= transactions@.len(),
                leaves@.len() == i,
                forall|j: int| 0 <= j < i ==> leaves@[j]@ == spec_tx_hash(transactions@[j]@),
            decreases transactions@.len() - i,
        {
            let tx = &transactions[i];
            let content = tx.content_bytes();
            let h = hash_data(content.as_slice());
            leaves.push(h);
            i += 1;
        }
        let root = if leaves.len() == 0 {
            let marker: [u8; 5] = [101u8, 109u8, 112u8, 116u8, 121u8];
            proof {
                assert(marker@ =~= spec_empty_marker());
            }
            hash_data(marker.as_slice())
        } else {
            Self::build_tree(leaves.as_slice())
        };
        proof {
            assert(root@ == spec_merkle_root(spec_hashes(leaves@)));
        }
        let r = MerkleTree { root, leaves };
        proof {
            assert(r.spec_leaves() =~= Seq::new(
                transactions@.len(),
                |i: int| spec_tx_hash(transactions@[i]@),
            ));
        }
        r
    }

    /// Combines two nodes into their parent.
    fn combine_hashes(left: &crate::Hash, right: &crate::Hash) -> (r: crate::Hash)
        ensures
            r@ == spec_combine(left@, right@),
    {
        let mut combined: Vec<u8> = Vec::new();
        append_bytes(&mut combined, left.as_slice());
        append_bytes(&mut combined, right.as_slice());
        hash_data(combined.as_slice())
    }

    /// Builds the level above the given one.
    fn next_level(level: &[crate::Hash]) -> (r: Vec<crate::Hash>)
        requires
            level@.len() > 0,
        ensures
            spec_hashes(r@) == spec_next_level(spec_hashes(level@)),
    {
        let n = level.len();
        let m = n / 2 + n % 2;
        let mut next: Vec<crate::Hash> = Vec::new();
        let mut j: usize = 0;
        proof {
            assert(m == (n + 1) / 2);
        }
        while j < m
            invariant
                j <= m,
                n == level@.len(),
                m == (n + 1) / 2,
                next@.len() == j,
                forall|k: int|
                    0 <= k < j ==> next@[k]@ == spec_next_level(spec_hashes(level@))[k],
            decreases m - j,
        {
            proof {
                assert(2 * (j as int) + 1 <= n);
            }
            let i = 2 * j;
            if i + 1 < n {
                let combined = Self::combine_hashes(&level[i], &level[i + 1]);
                next.push(combined);
            } else {
                let combined = Self::combine_hashes(&level[i], &level[i]);
                next.push(combined);
            }
            j += 1;
        }
        proof {
            assert(spec_hashes(next@) =~= spec_next_level(spec_hashes(level@)));
        }
        next
    }

    /// Combines a non-empty list of hashes level by level into the root.
    pub fn build_tree(hashes: &[crate::Hash]) -> (r: crate::Hash)
        requires
            hashes@.len() > 0,
        ensures
            r@ == spec_root_from(spec_hashes(hashes@)),
    {
        let mut current: Vec<crate::Hash> = vstd::slice::slice_to_vec(hashes);
        while current.len() > 1
            invariant
                current@.len() > 0,
                spec_root_from(spec_hashes(current@)) == spec_root_from(spec_hashes(hashes@)),
            decreases current@.len(),
        {
            let next = Self::next_level(current.as_slice());
            proof {
                assert(spec_hashes(next@).len() == (current@.len() + 1) / 2);
            }
            current = next;
        }
        current[0]
    }

    /// The root of this tree.
    pub fn root(&self) -> (r: crate::Hash)
        ensures
            r@ == self.spec_root(),
            r@ == spec_merkle_root(self.spec_leaves()),
    {
        proof {
            use_type_invariant(self);
        }
        self.root
    }

    /// Generates the inclusion proof for a transaction hash: succeeds exactly
    /// when the hash is one of the leaves, and the proof it returns folds
    /// back to the root.
    pub fn generate_proof(&self, tx_hash: crate::Hash) -> (r: Option<MerkleProof>)
        ensures
            r is Some <==> exists|i: int| 0 <= i < self.spec_leaves().len() && self.spec_leaves()[i]
                == tx_hash@,
            r matches Some(p) ==> {
                &&& p.leaf_hash@ == tx_hash@
                &&& p.index < self.spec_leaves().len()
                &&& self.spec_leaves()[p.index as int] == tx_hash@
                &&& p.path@.len() == spec_proof_len(self.spec_leaves().len())
                &&& spec_fold(p.leaf_hash@, spec_hashes(p.path@), p.index as nat)
                    == self.spec_root()
            },
    {
        proof {
            use_type_invariant(self);
        }
        // Find the index of the leaf.
        let mut index: usize = 0;
        let mut found = false;
        while index < self.leaves.len() && !found
            invariant
                index <= self.leaves@.len(),
                !found ==> forall|j: int| 0 <= j < index ==> self.leaves@[j]@ != tx_hash@,
                found ==> index < self.leaves@.len() && self.leaves@[index as int]@ == tx_hash@,
            decreases self.leaves@.len() - index + (if found { 0int } else { 1int }),
        {
            if bytes32_eq(&self.leaves[index], &tx_hash) {
                found = true;
            } else {
                index += 1;
            }
        }
        if !found {
            return None;
        }

        let ghost orig_index = index as nat;
        let mut proof_path: Vec<crate::Hash> = Vec::new();
        let mut current_index: usize = index;
        let mut current_level: Vec<crate::Hash> = vstd::slice::slice_to_vec(
            self.leaves.as_slice(),
        );
        proof {
            assert(spec_hashes(proof_path@) =~= Seq::<Seq<u8>>::empty());
            assert(spec_hashes(current_level@) =~= spec_hashes(self.leaves@));
        }
        while current_level.len() > 1
            invariant
                current_index < current_level@.len(),
                current_level@.len() <= usize::MAX,
                proof_path@.len() + spec_proof_len(current_level@.len()) == spec_proof_len(
                    self.leaves@.len(),
                ),
                spec_root_from(spec_hashes(current_level@)) == spec_root_from(
                    spec_hashes(self.leaves@),
                ),
                spec_fold_state(tx_hash@, spec_hashes(proof_path@), orig_index) == (
                    current_level@[current_index as int]@,
                    current_index as nat,
                ),
            decreases current_level@.len(),
        {
            let ghost lvl = spec_hashes(current_level@);
            let sibling_index = if current_index % 2 == 0 {
                if current_index + 1 < current_level.len() {
                    current_index + 1
                } else {
                    current_index
                }
            } else {
                current_index - 1
            };
            let sibling = current_level[sibling_index];
            proof {
                lemma_fold_snoc(tx_hash@, spec_hashes(proof_path@), orig_index, sibling@);
                assert(spec_hashes(proof_path@.push(sibling)) =~= spec_hashes(proof_path@).push(
                    sibling@,
                ));
                // The combined node is the parent in the next level.
                let up = spec_next_level(lvl);
                let ci = current_index as int;
                assert(sibling@ == lvl[sibling_index as int]);
                if ci % 2 == 0 {
                    assert(2 * (ci / 2) == ci);
                    if ci + 1 < lvl.len() {
                        assert(up[ci / 2] == spec_combine(lvl[ci], lvl[ci + 1]));
                    } else {
                        assert(up[ci / 2] == spec_combine(lvl[ci], lvl[ci]));
                    }
                } else {
                    assert(2 * (ci / 2) == ci - 1);
                    assert(up[ci / 2] == spec_combine(lvl[ci - 1], lvl[ci]));
                }
                assert(spec_fold_state(tx_hash@, spec_hashes(proof_path@).push(sibling@),
                    orig_index) == (up[ci / 2], (ci / 2) as nat));
                // The root is preserved one level up.
                assert(spec_root_from(lvl) == spec_root_from(up));
                assert(ci / 2 < up.len());
                // One sibling is recorded for the level just left behind.
                assert(spec_proof_len(lvl.len()) == 1 + spec_proof_len(
                    ((lvl.len() + 1) / 2) as nat,
                ));
            }
            proof_path.push(sibling);
            let next = Self::next_level(current_level.as_slice());
            current_index = current_index / 2;
            current_level = next;
        }
        proof {
            assert(current_index == 0);
            assert(spec_root_from(spec_hashes(current_level@)) == spec_hashes(current_level@)[0]);
            assert(self.leaves@.len() > 0);
            assert(self.spec_root() == spec_root_from(spec_hashes(self.leaves@)));
            assert(self.spec_leaves()[index as int] == tx_hash@);
        }
        Some(MerkleProof { leaf_hash: tx_hash, path: proof_path, index })
    }

    /// Verifies an inclusion proof against a root: recomputes the path
    /// bottom-up and accepts exactly when the result equals the root.
    pub fn verify_proof(proof: &MerkleProof, root: crate::Hash) -> (r: bool)
        ensures
            r == (spec_fold(proof.leaf_hash@, spec_hashes(proof.path@), proof.index as nat)
                == root@),
    {
        let mut current_hash: crate::Hash = proof.leaf_hash;
        let mut current_index: usize = proof.index;
        let mut k: usize = 0;
        proof {
            assert(spec_hashes(proof.path@).take(0) =~= Seq::<Seq<u8>>::empty());
        }
        while k < proof.path.len()
            invariant
                k <= proof.path@.len(),
                spec_fold_state(
                    proof.leaf_hash@,
                    spec_hashes(proof.path@).take(k as int),
                    proof.index as nat,
                ) == (current_hash@, current_index as nat),
            decreases proof.path@.len() - k,
        {
            let sibling = &proof.path[k];
            proof {
                lemma_fold_snoc(
                    proof.leaf_hash@,
                    spec_hashes(proof.path@).take(k as int),
                    proof.index as nat,
                    sibling@,
                );
                assert(spec_hashes(proof.path@).take(k as int).push(sibling@) =~= spec_hashes(
                    proof.path@,
                ).take(k + 1));
            }
            if current_index % 2 == 0 {
                current_hash = Self::combine_hashes(&current_hash, sibling);
            } else {
                current_hash = Self::combine_hashes(sibling, &current_hash);
            }
            current_index = current_index / 2;
            k += 1;
        }
        proof {
            assert(spec_hashes(proof.path@).take(proof.path@.len() as int) =~= spec_hashes(
                proof.path@,
            ));
        }
        bytes32_eq(&current_hash, &root)
    }
}

/// A tree of one leaf has that leaf as its root, and the proof for it is
/// the empty path at index zero, which folds back to the root.
pub proof fn lemma_single_leaf(leaf: Seq<u8>)
    ensures
        spec_merkle_root(seq![leaf]) == leaf,
        spec_fold(leaf, Seq::<Seq<u8>>::empty(), 0) == leaf,
{
    assert(spec_merkle_root(seq![leaf]) == spec_root_from(seq![leaf]));
    assert(seq![leaf][0] == leaf);
    assert(spec_fold_state(leaf, Seq::<Seq<u8>>::empty(), 0) == (leaf, 0nat));
}

} // verus!
