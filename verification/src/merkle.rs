//! The Merkle commitment engine: tree construction from leaf byte strings,
//! inclusion-proof generation, and proof verification against a root.
//!
//! Levels are built bottom-up; adjacent nodes are paired left-to-right and
//! hashed into the next level, and an unpaired trailing node is promoted
//! unchanged to the next level (the fixed odd-node policy of this scheme:
//! a promoted node contributes no step to an inclusion proof).
use vstd::prelude::*;

use crate::bytes::{bytes_eq, copy_bytes};
use crate::hashing::{combine, combine_of, sha256, sha256_of};

verus! {

/// Which side the sibling occupies relative to the node being folded.
#[derive(Clone, Copy, PartialEq, Eq, Structural, Debug)]
pub enum Side {
    Left,
    Right,
}

/// One step of an inclusion proof: a sibling digest and its side.
#[derive(Clone, Debug)]
pub struct ProofStep {
    pub side: Side,
    pub sibling: Vec<u8>,
}

/// One folding step of verification: the accumulator is hashed together
/// with the sibling, on the side the step names.
pub open spec fn apply_step(acc: Seq<u8>, step: ProofStep) -> Seq<u8> {
    match step.side {
        Side::Left => combine_of(step.sibling@, acc),
        Side::Right => combine_of(acc, step.sibling@),
    }
}

/// Folds a whole sibling path, leaf level first, into a candidate root.
pub open spec fn fold_path(acc: Seq<u8>, steps: Seq<ProofStep>) -> Seq<u8>
    decreases steps.len(),
{
    if steps.len() == 0 {
        acc
    } else {
        fold_path(apply_step(acc, steps[0]), steps.skip(1))
    }
}

/// What a successful verification means: hashing the claimed leaf bytes
/// and folding the whole path reproduces the trusted root exactly.
pub open spec fn verify_of(root: Seq<u8>, leaf_bytes: Seq<u8>, steps: Seq<ProofStep>) -> bool {
    fold_path(sha256_of(leaf_bytes), steps) == root
}

proof fn lemma_fold_path_snoc(acc: Seq<u8>, steps: Seq<ProofStep>, step: ProofStep)
    ensures
        fold_path(acc, steps.push(step)) == apply_step(fold_path(acc, steps), step),
    decreases steps.len(),
{
    reveal_with_fuel(fold_path, 3);
    if steps.len() == 0 {
        assert(steps.push(step)[0] == step);
        assert(steps.push(step).skip(1) =~= Seq::<ProofStep>::empty());
    } else {
        assert(steps.push(step)[0] == steps[0]);
        assert(steps.push(step).skip(1) =~= steps.skip(1).push(step));
        lemma_fold_path_snoc(apply_step(acc, steps[0]), steps.skip(1), step);
    }
}

/// The root is pinned: a leaf and path that verify against one root
/// verify against no other, since folding the path is a function of the
/// leaf and path alone. (Tampering with the leaf, a sibling or a side tag
/// changes the folded digest except on hash collisions, which nothing
/// here assumes anything about; that part is exercised by tests, not
/// proved.)
pub proof fn lemma_verify_pins_root(
    root: Seq<u8>,
    other: Seq<u8>,
    leaf_bytes: Seq<u8>,
    steps: Seq<ProofStep>,
)
    requires
        verify_of(root, leaf_bytes, steps),
        other != root,
    ensures
        !verify_of(other, leaf_bytes, steps),
{
}

/// Recomputes the root from the claimed leaf bytes and the sibling path and
/// compares it against the trusted root. Pure: no state is read or written,
/// and a malformed path only ever yields `false`, never a panic.
pub fn verify(root: &Vec<u8>, leaf_bytes: &Vec<u8>, proof_steps: &Vec<ProofStep>) -> (ok: bool)
    ensures
        ok == verify_of(root@, leaf_bytes@, proof_steps@),
{
    let mut acc = sha256(leaf_bytes);
    let mut i: usize = 0;
    while i < proof_steps.len()
        invariant
            i <= proof_steps@.len(),
            acc@ == fold_path(sha256_of(leaf_bytes@), proof_steps@.take(i as int)),
        decreases proof_steps@.len() - i,
    {
        let step = &proof_steps[i];
        let next = match step.side {
            Side::Left => combine(&step.sibling, &acc),
            Side::Right => combine(&acc, &step.sibling),
        };
        proof {
            lemma_fold_path_snoc(
                sha256_of(leaf_bytes@),
                proof_steps@.take(i as int),
                proof_steps@[i as int],
            );
            assert(proof_steps@.take(i + 1) =~= proof_steps@.take(i as int).push(
                proof_steps@[i as int],
            ));
        }
        acc = next;
        i += 1;
    }
    proof {
        assert(proof_steps@.take(proof_steps@.len() as int) =~= proof_steps@);
    }
    bytes_eq(&acc, root)
}

/// The digests of a sequence of byte vectors, as mathematical sequences.
pub open spec fn digests_of(v: Seq<Vec<u8>>) -> Seq<Seq<u8>> {
    v.map_values(|d: Vec<u8>| d@)
}

/// The leaf level: each leaf byte string hashed once.
pub open spec fn leaf_hashes_of(leaves: Seq<Seq<u8>>) -> Seq<Seq<u8>> {
    leaves.map_values(|l: Seq<u8>| sha256_of(l))
}

/// One level folded into the next: adjacent nodes are paired left-to-right
/// and hashed; an unpaired trailing node is promoted unchanged.
pub open spec fn next_level_of(level: Seq<Seq<u8>>) -> Seq<Seq<u8>>
    decreases level.len(),
{
    if level.len() >= 2 {
        seq![combine_of(level[0], level[1])] + next_level_of(level.skip(2))
    } else {
        level
    }
}

proof fn lemma_next_level_len(level: Seq<Seq<u8>>)
    ensures
        next_level_of(level).len() == (level.len() + 1) / 2,
    decreases level.len(),
{
    if level.len() >= 2 {
        lemma_next_level_len(level.skip(2));
    }
}

proof fn lemma_next_level_index(level: Seq<Seq<u8>>, j: int)
    requires
        0 <= j,
        2 * j < level.len(),
    ensures
        2 * j + 1 < level.len() ==> next_level_of(level)[j] == combine_of(
            level[2 * j],
            level[2 * j + 1],
        ),
        2 * j + 1 == level.len() ==> next_level_of(level)[j] == level[2 * j],
    decreases level.len(),
{
    lemma_next_level_len(level);
    if level.len() >= 2 && j >= 1 {
        lemma_next_level_index(level.skip(2), j - 1);
        lemma_next_level_len(level.skip(2));
    }
}

/// A Merkle tree: the committed leaf byte strings and every level of
/// digests above them, from the hashed leaves up to the single root.
pub struct MerkleTree {
    leaves: Vec<Vec<u8>>,
    levels: Vec<Vec<Vec<u8>>>,
}

impl MerkleTree {
    /// The committed leaf byte strings, in commitment order.
    pub closed spec fn leaves_of(self) -> Seq<Seq<u8>> {
        digests_of(self.leaves@)
    }

    /// The digests at level `k` (level 0 holds the leaf hashes).
    pub closed spec fn level_of(self, k: int) -> Seq<Seq<u8>> {
        digests_of(self.levels@[k]@)
    }

    /// How many levels the tree holds.
    pub closed spec fn height_of(self) -> int {
        self.levels@.len() as int
    }

    /// The root digest: the single node of the topmost level.
    pub closed spec fn root_of(self) -> Seq<u8> {
        self.level_of(self.height_of() - 1)[0]
    }

    /// Structural well-formedness: at least one leaf, level 0 is the
    /// hashed leaves, every level above is the fold of the one below, and
    /// only the topmost level has shrunk to a single node.
    pub closed spec fn wf(self) -> bool {
        &&& self.levels@.len() >= 1
        &&& self.leaves_of().len() >= 1
        &&& self.level_of(0) == leaf_hashes_of(self.leaves_of())
        &&& forall|k: int|
            0 <= k < self.height_of() - 1 ==> self.level_of(k + 1) == next_level_of(
                #[trigger] self.level_of(k),
            )
        &&& forall|k: int| 0 <= k < self.height_of() - 1 ==> #[trigger] self.level_of(k).len() >= 2
        &&& self.level_of(self.height_of() - 1).len() == 1
    }

    /// Builds the tree bottom-up from the given leaf byte strings.
    /// An empty leaf list has no meaningful root and is rejected.
    pub fn create(leaves: Vec<Vec<u8>>) -> (tree: Option<MerkleTree>)
        ensures
            tree is Some <==> leaves@.len() >= 1,
            tree is Some ==> tree.unwrap().wf(),
            tree is Some ==> tree.unwrap().leaves_of() == digests_of(leaves@),
    {
        if leaves.len() == 0 {
            return None;
        }
        let mut first: Vec<Vec<u8>> = Vec::new();
        let mut i: usize = 0;
        while i < leaves.len()
            invariant
                i <= leaves@.len(),
                first@.len() == i,
                forall|j: int| 0 <= j < i ==> #[trigger] first@[j]@ == sha256_of(leaves@[j]@),
            decreases leaves@.len() - i,
        {
            let h = sha256(&leaves[i]);
            first.push(h);
            i += 1;
        }
        assert(digests_of(first@) =~= leaf_hashes_of(digests_of(leaves@)));
        let mut levels: Vec<Vec<Vec<u8>>> = Vec::new();
        levels.push(first);
        while levels[levels.len() - 1].len() > 1
            invariant
                levels@.len() >= 1,
                digests_of(levels@[0]@) == leaf_hashes_of(digests_of(leaves@)),
                forall|k: int|
                    0 <= k < levels@.len() - 1 ==> digests_of(levels@[k + 1]@) == next_level_of(
                        #[trigger] digests_of(levels@[k]@),
                    ),
                forall|k: int|
                    0 <= k < levels@.len() - 1 ==> #[trigger] digests_of(levels@[k]@).len() >= 2,
                digests_of(levels@[levels@.len() - 1]@).len() >= 1,
            decreases digests_of(levels@[levels@.len() - 1]@).len(),
        {
            let next = Self::build_next(&levels[levels.len() - 1]);
            proof {
                lemma_next_level_len(digests_of(levels@[levels@.len() - 1]@));
            }
            levels.push(next);
        }
        let tree = MerkleTree { leaves, levels };
        assert(tree.wf());
        Some(tree)
    }

    /// Folds one level into the next.
    fn build_next(cur: &Vec<Vec<u8>>) -> (next: Vec<Vec<u8>>)
        ensures
            digests_of(next@) == next_level_of(digests_of(cur@)),
    {
        let ghost cv = digests_of(cur@);
        proof {
            lemma_next_level_len(cv);
        }
        let mut next: Vec<Vec<u8>> = Vec::new();
        let mut i: usize = 0;
        while i + 1 < cur.len()
            invariant
                i % 2 == 0,
                i <= cur@.len(),
                next@.len() == i / 2,
                forall|j: int| 0 <= j < i / 2 ==> #[trigger] next@[j]@ == next_level_of(cv)[j],
            decreases cur@.len() - i,
        {
            let pair = combine(&cur[i], &cur[i + 1]);
            proof {
                lemma_next_level_index(cv, i as int / 2);
            }
            next.push(pair);
            i += 2;
        }
        if i < cur.len() {
            let promoted = copy_bytes(&cur[i]);
            proof {
                lemma_next_level_index(cv, i as int / 2);
            }
            next.push(promoted);
        }
        assert(digests_of(next@) =~= next_level_of(cv));
        next
    }

    /// The root digest the tree commits to.
    pub fn root_hash(&self) -> (digest: Vec<u8>)
        requires
            self.wf(),
        ensures
            digest@ == self.root_of(),
    {
        copy_bytes(&self.levels[self.levels.len() - 1][0])
    }

    /// The ordered sibling path for the leaf at `index`, leaf level first.
    /// The path it returns verifies against this tree's root and the leaf
    /// bytes committed at `index`: the round-trip property.
    pub fn get_proof(&self, index: usize) -> (path: Vec<ProofStep>)
        requires
            self.wf(),
            index < self.leaves_of().len(),
        ensures
            verify_of(self.root_of(), self.leaves_of()[index as int], path@),
    {
        let ghost leaf_hash = self.level_of(0)[index as int];
        let mut path: Vec<ProofStep> = Vec::new();
        let mut idx: usize = index;
        let mut k: usize = 0;
        while k < self.levels.len() - 1
            invariant
                k < self.levels@.len(),
                idx < self.level_of(k as int).len(),
                fold_path(leaf_hash, path@) == self.level_of(k as int)[idx as int],
            decreases self.levels@.len() - k,
        {
            let cur = &self.levels[k];
            let ghost cv = self.level_of(k as int);
            let ghost path0 = path@;
            proof {
                lemma_next_level_len(cv);
                lemma_next_level_index(cv, idx as int / 2);
            }
            if idx % 2 == 0 {
                if idx + 1 < cur.len() {
                    let sibling = copy_bytes(&cur[idx + 1]);
                    path.push(ProofStep { side: Side::Right, sibling });
                    proof {
                        lemma_fold_path_snoc(leaf_hash, path0, path@[path@.len() - 1]);
                    }
                }
            } else {
                let sibling = copy_bytes(&cur[idx - 1]);
                path.push(ProofStep { side: Side::Left, sibling });
                proof {
                    lemma_fold_path_snoc(leaf_hash, path0, path@[path@.len() - 1]);
                }
            }
            idx = idx / 2;
            k += 1;
        }
        path
    }
}

} // verus!
