//! Binary Merkle trees over 32-byte leaves, and branches that prove a leaf's place under a root.
//!
//! A tree has a depth. Where it holds fewer leaves than fit, the missing ones are zero.

use crate::primitives::{roots_equal, Hash256, ZERO_ROOT};
use crate::sha256::{hash32_concat, hash_pair, sha256};
use vstd::arithmetic::div_mod::{lemma_div_denominator, lemma_mod_breakdown, lemma_small_mod};
use vstd::arithmetic::power2::{lemma_pow2_pos, lemma_pow2_unfold, pow2};
use vstd::prelude::*;

verus! {

/// The deepest tree that is built.
pub const MAX_TREE_DEPTH: usize = 48;

/// Why a branch cannot be read off a tree.
#[derive(Clone, Copy, Debug, PartialEq, Eq, Structural)]
pub enum MerkleTreeError {
    /// The tree is not as deep as the branch that was asked for.
    PleaseNotifyTheDevs,
}

/// The root of a tree of the given depth whose leaves are all zero.
pub open spec fn zero_hash(depth: nat) -> Hash256
    decreases depth,
{
    if depth == 0 {
        ZERO_ROOT
    } else {
        hash_pair(zero_hash((depth - 1) as nat), zero_hash((depth - 1) as nat))
    }
}

/// The leaves of a tree that lie in its left half.
pub open spec fn left_leaves(leaves: Seq<Hash256>, depth: nat) -> Seq<Hash256> {
    let half = pow2((depth - 1) as nat);
    if leaves.len() <= half {
        leaves
    } else {
        leaves.take(half as int)
    }
}

/// The leaves of a tree that lie in its right half.
pub open spec fn right_leaves(leaves: Seq<Hash256>, depth: nat) -> Seq<Hash256> {
    let half = pow2((depth - 1) as nat);
    if leaves.len() <= half {
        Seq::empty()
    } else {
        leaves.skip(half as int)
    }
}

/// The root of the tree of the given depth over `leaves`, with zeros for the leaves that are
/// missing.
pub open spec fn tree_root(leaves: Seq<Hash256>, depth: nat) -> Hash256
    decreases depth,
{
    if leaves.len() == 0 {
        zero_hash(depth)
    } else if depth == 0 {
        leaves[0]
    } else {
        hash_pair(
            tree_root(left_leaves(leaves, depth), (depth - 1) as nat),
            tree_root(right_leaves(leaves, depth), (depth - 1) as nat),
        )
    }
}

/// Whether bit `k` of `index` is set.
pub open spec fn bit(index: nat, k: nat) -> bool {
    (index / pow2(k)) % 2 == 1
}

/// The siblings on the way from leaf `index` up to the root, lowest first.
pub open spec fn branch(leaves: Seq<Hash256>, depth: nat, index: nat) -> Seq<Hash256>
    decreases depth,
{
    if depth == 0 {
        Seq::empty()
    } else {
        let below = (depth - 1) as nat;
        let left = left_leaves(leaves, depth);
        let right = right_leaves(leaves, depth);
        if bit(index, below) {
            branch(right, below, index).push(tree_root(left, below))
        } else {
            branch(left, below, index).push(tree_root(right, below))
        }
    }
}

/// The root that a branch leads to from `leaf`, where the bits of `index` say on which side the
/// leaf lies at each level.
pub open spec fn root_from_branch(leaf: Hash256, siblings: Seq<Hash256>, index: nat) -> Hash256
    decreases siblings.len(),
{
    if siblings.len() == 0 {
        leaf
    } else {
        let below = root_from_branch(leaf, siblings.drop_last(), index);
        if bit(index, (siblings.len() - 1) as nat) {
            hash_pair(siblings.last(), below)
        } else {
            hash_pair(below, siblings.last())
        }
    }
}

/// A Merkle tree.
pub enum MerkleTree {
    /// A single leaf.
    Leaf(Hash256),
    /// The root of two subtrees, and the subtrees.
    Node(Hash256, Box<MerkleTree>, Box<MerkleTree>),
    /// A tree of the given depth whose leaves are all zero.
    Zero(usize),
}

impl MerkleTree {
    /// Whether this is the tree of the given depth over `leaves`.
    pub open spec fn represents(self, leaves: Seq<Hash256>, depth: nat) -> bool
        decreases self,
    {
        match self {
            MerkleTree::Leaf(hash) => depth == 0 && leaves == seq![hash],
            MerkleTree::Node(hash, left, right) => {
                &&& depth > 0
                &&& 0 < leaves.len() <= pow2(depth)
                &&& hash == tree_root(leaves, depth)
                &&& left.represents(left_leaves(leaves, depth), (depth - 1) as nat)
                &&& right.represents(right_leaves(leaves, depth), (depth - 1) as nat)
            },
            MerkleTree::Zero(d) => d == depth && leaves.len() == 0,
        }
    }

    /// Builds the tree of the given depth over `leaves`.
    pub fn create(leaves: &Vec<Hash256>, depth: usize) -> (tree: MerkleTree)
        requires
            depth <= MAX_TREE_DEPTH,
            leaves@.len() <= pow2(depth as nat),
        ensures
            tree.represents(leaves@, depth as nat),
    {
        let mut capacity: u64 = 1;
        let mut d: usize = 0;
        proof {
            vstd::arithmetic::power2::lemma2_to64();
        }
        while d < depth
            invariant
                d <= depth <= MAX_TREE_DEPTH,
                capacity == pow2(d as nat),
            decreases depth - d,
        {
            proof {
                lemma_pow2_unfold((d + 1) as nat);
                vstd::arithmetic::power2::lemma_pow2_strictly_increases(d as nat, 63);
                vstd::arithmetic::power2::lemma2_to64_rest();
            }
            capacity = capacity * 2;
            d += 1;
        }
        assert(leaves@.subrange(0, leaves@.len() as int) =~= leaves@);
        MerkleTree::create_subtree(leaves, 0, leaves.len(), depth, capacity)
    }

    fn create_subtree(
        leaves: &Vec<Hash256>,
        start: usize,
        end: usize,
        depth: usize,
        capacity: u64,
    ) -> (tree: MerkleTree)
        requires
            start <= end <= leaves@.len(),
            capacity == pow2(depth as nat),
            end - start <= capacity,
        ensures
            tree.represents(leaves@.subrange(start as int, end as int), depth as nat),
        decreases depth,
    {
        let ghost here = leaves@.subrange(start as int, end as int);
        if start == end {
            return MerkleTree::Zero(depth);
        }
        if depth == 0 {
            proof {
                vstd::arithmetic::power2::lemma2_to64();
            }
            assert(here =~= seq![leaves@[start as int]]);
            return MerkleTree::Leaf(leaves[start]);
        }
        proof {
            lemma_pow2_unfold(depth as nat);
        }
        let half: u64 = capacity / 2;
        let middle: usize = if (end - start) as u64 <= half {
            end
        } else {
            start + half as usize
        };
        let left = MerkleTree::create_subtree(leaves, start, middle, depth - 1, half);
        let right = MerkleTree::create_subtree(leaves, middle, end, depth - 1, half);
        proof {
            assert(leaves@.subrange(start as int, middle as int) =~= left_leaves(
                here,
                depth as nat,
            ));
            assert(leaves@.subrange(middle as int, end as int) =~= right_leaves(
                here,
                depth as nat,
            ));
            lemma_represents_root(left, left_leaves(here, depth as nat), (depth - 1) as nat);
            lemma_represents_root(right, right_leaves(here, depth as nat), (depth - 1) as nat);
        }
        let hash = hash32_concat(&left.hash(), &right.hash());
        MerkleTree::Node(hash, Box::new(left), Box::new(right))
    }

    /// The root that this tree carries.
    pub open spec fn spec_hash(self) -> Hash256 {
        match self {
            MerkleTree::Leaf(hash) => hash,
            MerkleTree::Node(hash, _, _) => hash,
            MerkleTree::Zero(depth) => zero_hash(depth as nat),
        }
    }

    /// The root of this tree.
    pub fn hash(&self) -> (result: Hash256)
        ensures
            result == self.spec_hash(),
            forall|leaves: Seq<Hash256>, depth: nat| #[trigger]
                self.represents(leaves, depth) ==> result == tree_root(leaves, depth),
    {
        proof {
            assert forall|leaves: Seq<Hash256>, depth: nat| #[trigger]
                self.represents(leaves, depth) implies self.spec_hash() == tree_root(
                leaves,
                depth,
            ) by {
                lemma_represents_root(*self, leaves, depth);
            }
        }
        match self {
            MerkleTree::Leaf(hash) => *hash,
            MerkleTree::Node(hash, _, _) => *hash,
            MerkleTree::Zero(depth) => zero_tree_hash(*depth),
        }
    }

    /// The leaf that the low `depth` bits of `index` lead to, the highest first, and the siblings
    /// on the way, lowest first; nothing where the tree is not that deep there.
    pub open spec fn opening(self, index: nat, depth: nat) -> Option<(Hash256, Seq<Hash256>)>
        decreases depth,
    {
        if depth == 0 {
            Some((self.spec_hash(), Seq::empty()))
        } else {
            match self {
                MerkleTree::Leaf(_) => None,
                MerkleTree::Zero(d) => if d == 0 {
                    None
                } else {
                    let half = MerkleTree::Zero((d - 1) as usize);
                    with_sibling(half.opening(index, (depth - 1) as nat), half.spec_hash())
                },
                MerkleTree::Node(_, left, right) => if bit(index, (depth - 1) as nat) {
                    with_sibling(right.opening(index, (depth - 1) as nat), left.spec_hash())
                } else {
                    with_sibling(left.opening(index, (depth - 1) as nat), right.spec_hash())
                },
            }
        }
    }

    /// The leaf at `index` and its siblings up to the root of a tree of the given depth, lowest
    /// first.
    pub fn generate_proof(&self, index: u64, depth: usize) -> (result: Result<
        (Hash256, Vec<Hash256>),
        MerkleTreeError,
    >)
        requires
            depth <= MAX_TREE_DEPTH,
        ensures
            match result {
                Ok((leaf, siblings)) => self.opening(index as nat, depth as nat) == Some(
                    (leaf, siblings@),
                ),
                Err(e) => self.opening(index as nat, depth as nat) is None && e
                    == MerkleTreeError::PleaseNotifyTheDevs,
            },
        decreases depth, 0nat,
    {
        if depth == 0 {
            let none: Vec<Hash256> = Vec::new();
            assert(none@ =~= Seq::<Hash256>::empty());
            return Ok((self.hash(), none));
        }
        match self {
            MerkleTree::Leaf(_) => Err(MerkleTreeError::PleaseNotifyTheDevs),
            MerkleTree::Zero(d) => {
                if *d == 0 {
                    return Err(MerkleTreeError::PleaseNotifyTheDevs);
                }
                let half = MerkleTree::Zero(*d - 1);
                half.generate_proof_below(&half, index, depth)
            },
            MerkleTree::Node(_, left, right) => if goes_right(index, depth) {
                right.generate_proof_below(left, index, depth)
            } else {
                left.generate_proof_below(right, index, depth)
            },
        }
    }

    /// The proof of a leaf of this half of a tree of the given depth, whose other half is `beside`.
    fn generate_proof_below(
        &self,
        beside: &MerkleTree,
        index: u64,
        depth: usize,
    ) -> (result: Result<(Hash256, Vec<Hash256>), MerkleTreeError>)
        requires
            0 < depth <= MAX_TREE_DEPTH,
        ensures
            match result {
                Ok((leaf, siblings)) => with_sibling(
                    self.opening(index as nat, (depth - 1) as nat),
                    beside.spec_hash(),
                ) == Some((leaf, siblings@)),
                Err(e) => self.opening(index as nat, (depth - 1) as nat) is None && e
                    == MerkleTreeError::PleaseNotifyTheDevs,
            },
        decreases depth - 1, 1nat,
    {
        let (leaf, mut siblings) = match self.generate_proof(index, depth - 1) {
            Ok(found) => found,
            Err(e) => return Err(e),
        };
        siblings.push(beside.hash());
        Ok((leaf, siblings))
    }
}

/// An opening of half of a tree, with the root of the other half as one more sibling.
pub open spec fn with_sibling(
    opening: Option<(Hash256, Seq<Hash256>)>,
    sibling: Hash256,
) -> Option<(Hash256, Seq<Hash256>)> {
    match opening {
        Some((leaf, siblings)) => Some((leaf, siblings.push(sibling))),
        None => None,
    }
}

/// Whether the leaf at `index` of a tree of the given depth lies in its right half.
fn goes_right(index: u64, depth: usize) -> (result: bool)
    requires
        0 < depth <= MAX_TREE_DEPTH,
    ensures
        result == bit(index as nat, (depth - 1) as nat),
{
    let mut half: u64 = 1;
    let mut d: usize = 1;
    proof {
        vstd::arithmetic::power2::lemma2_to64();
    }
    while d < depth
        invariant
            1 <= d <= depth <= MAX_TREE_DEPTH,
            half == pow2((d - 1) as nat),
        decreases depth - d,
    {
        proof {
            lemma_pow2_unfold(d as nat);
            vstd::arithmetic::power2::lemma_pow2_strictly_increases(d as nat, 63);
            vstd::arithmetic::power2::lemma2_to64_rest();
        }
        half = half * 2;
        d += 1;
    }
    proof {
        lemma_pow2_pos((depth - 1) as nat);
    }
    (index / half) % 2 == 1
}

/// A tree over leaves opens at every index, with the leaf and the branch there.
pub proof fn law_tree_opens_everywhere(
    tree: MerkleTree,
    leaves: Seq<Hash256>,
    depth: nat,
    index: nat,
)
    requires
        tree.represents(leaves, depth),
    ensures
        tree.opening(index, depth) == Some(
            (tree_leaf(leaves, depth, index), branch(leaves, depth, index)),
        ),
    decreases depth,
{
    if depth == 0 {
        vstd::arithmetic::power2::lemma2_to64();
        lemma_represents_root(tree, leaves, depth);
    } else {
        let below = (depth - 1) as nat;
        lemma_pow2_unfold(depth);
        let left = left_leaves(leaves, depth);
        let right = right_leaves(leaves, depth);
        match tree {
            MerkleTree::Leaf(_) => {},
            MerkleTree::Zero(d) => {
                let half = MerkleTree::Zero((d - 1) as usize);
                assert(leaves =~= Seq::<Hash256>::empty());
                assert(half.represents(Seq::empty(), below));
                law_tree_opens_everywhere(half, Seq::empty(), below, index);
                lemma_represents_root(half, Seq::empty(), below);
                assert(left =~= Seq::<Hash256>::empty());
                assert(right =~= Seq::<Hash256>::empty());
            },
            MerkleTree::Node(_, inner_left, inner_right) => {
                lemma_tree_leaf_step(leaves, depth, index);
                law_tree_opens_everywhere(*inner_left, left, below, index);
                law_tree_opens_everywhere(*inner_right, right, below, index);
                lemma_represents_root(*inner_left, left, below);
                lemma_represents_root(*inner_right, right, below);
            },
        }
    }
}

/// The leaf of the tree of the given depth over `leaves` that the low bits of `index` lead to.
pub open spec fn tree_leaf(leaves: Seq<Hash256>, depth: nat, index: nat) -> Hash256 {
    let place = index % pow2(depth);
    if place < leaves.len() {
        leaves[place as int]
    } else {
        ZERO_ROOT
    }
}

proof fn lemma_tree_leaf_step(leaves: Seq<Hash256>, depth: nat, index: nat)
    requires
        depth > 0,
        leaves.len() <= pow2(depth),
    ensures
        tree_leaf(leaves, depth, index) == tree_leaf(
            if bit(index, (depth - 1) as nat) {
                right_leaves(leaves, depth)
            } else {
                left_leaves(leaves, depth)
            },
            (depth - 1) as nat,
            index,
        ),
{
    lemma_place_step(depth, index);
}

/// How the place that an index leads to splits into the half of the tree and the place there.
proof fn lemma_place_step(depth: nat, index: nat)
    requires
        depth > 0,
    ensures
        pow2(depth) == 2 * pow2((depth - 1) as nat),
        index % pow2((depth - 1) as nat) < pow2((depth - 1) as nat),
        index % pow2(depth) == index % pow2((depth - 1) as nat) + if bit(
            index,
            (depth - 1) as nat,
        ) {
            pow2((depth - 1) as nat)
        } else {
            0
        },
{
    let half = pow2((depth - 1) as nat);
    lemma_pow2_unfold(depth);
    lemma_pow2_pos((depth - 1) as nat);
    lemma_mod_breakdown(index as int, half as int, 2);
    assert(half * 2 == pow2(depth));
    let place = (index % pow2(depth)) as int;
    let low = (index % half) as int;
    if bit(index, (depth - 1) as nat) {
        assert(place == half + low) by (nonlinear_arith)
            requires
                place == half * ((index as int / half as int) % 2) + low,
                (index as int / half as int) % 2 == 1,
        ;
    } else {
        assert(place == low) by (nonlinear_arith)
            requires
                place == half * ((index as int / half as int) % 2) + low,
                (index as int / half as int) % 2 == 0,
        ;
    }
}

/// The root of a tree of zeros.
fn zero_tree_hash(depth: usize) -> (result: Hash256)
    ensures
        result == zero_hash(depth as nat),
{
    let mut hash: Hash256 = ZERO_ROOT;
    let mut d: usize = 0;
    while d < depth
        invariant
            d <= depth,
            hash == zero_hash(d as nat),
        decreases depth - d,
    {
        hash = hash32_concat(&hash, &hash);
        d += 1;
    }
    hash
}

/// The root that a branch leads to from `leaf`.
pub fn merkle_root_from_branch(leaf: Hash256, siblings: &[Hash256], index: u64) -> (result: Hash256)
    ensures
        result == root_from_branch(leaf, siblings@, index as nat),
{
    let mut hash = leaf;
    let mut rest: u64 = index;
    let mut i: usize = 0;
    proof {
        vstd::arithmetic::power2::lemma2_to64();
        assert(siblings@.take(0) =~= Seq::<Hash256>::empty());
    }
    while i < siblings.len()
        invariant
            i <= siblings@.len(),
            rest == index as nat / pow2(i as nat),
            hash == root_from_branch(leaf, siblings@.take(i as int), index as nat),
        decreases siblings@.len() - i,
    {
        let sibling = siblings[i];
        proof {
            let upto = siblings@.take(i + 1);
            assert(upto.drop_last() =~= siblings@.take(i as int));
            assert(upto.last() == sibling);
            lemma_pow2_unfold((i + 1) as nat);
            lemma_pow2_pos(i as nat);
            lemma_div_denominator(index as int, pow2(i as nat) as int, 2);
            assert(pow2(i as nat) * 2 == pow2((i + 1) as nat));
        }
        if rest % 2 == 1 {
            hash = hash32_concat(&sibling, &hash);
        } else {
            hash = hash32_concat(&hash, &sibling);
        }
        rest = rest / 2;
        i += 1;
    }
    assert(siblings@.take(siblings@.len() as int) =~= siblings@);
    hash
}

/// Whether a branch of the given depth leads from `leaf` to `root`.
pub open spec fn branch_verifies(
    leaf: Hash256,
    siblings: Seq<Hash256>,
    depth: nat,
    index: nat,
    root: Hash256,
) -> bool {
    siblings.len() == depth && root_from_branch(leaf, siblings, index) == root
}

/// Verifies that `leaf` lies at `index` under `root`: whether the branch has the given depth and
/// leads from the leaf to the root. Only the low `depth` bits of `index` matter.
pub fn verify_merkle_proof(
    leaf: Hash256,
    siblings: &[Hash256],
    depth: usize,
    index: u64,
    root: Hash256,
) -> (result: bool)
    ensures
        result == branch_verifies(leaf, siblings@, depth as nat, index as nat, root),
{
    if siblings.len() == depth {
        roots_equal(&merkle_root_from_branch(leaf, siblings, index), &root)
    } else {
        false
    }
}

proof fn lemma_represents_root(tree: MerkleTree, leaves: Seq<Hash256>, depth: nat)
    requires
        tree.represents(leaves, depth),
    ensures
        tree.spec_hash() == tree_root(leaves, depth),
{
}

/// A branch has as many siblings as the tree has levels.
pub proof fn lemma_branch_len(leaves: Seq<Hash256>, depth: nat, index: nat)
    ensures
        branch(leaves, depth, index).len() == depth,
    decreases depth,
{
    if depth > 0 {
        lemma_branch_len(left_leaves(leaves, depth), (depth - 1) as nat, index);
        lemma_branch_len(right_leaves(leaves, depth), (depth - 1) as nat, index);
    }
}

/// The branch of a leaf leads from that leaf to the root of its tree.
pub proof fn lemma_branch_leads_to_root(leaves: Seq<Hash256>, depth: nat, index: nat)
    requires
        leaves.len() <= pow2(depth),
        index % pow2(depth) < leaves.len(),
    ensures
        root_from_branch(
            leaves[(index % pow2(depth)) as int],
            branch(leaves, depth, index),
            index,
        ) == tree_root(leaves, depth),
    decreases depth,
{
    if depth == 0 {
        vstd::arithmetic::power2::lemma2_to64();
    } else {
        let below = (depth - 1) as nat;
        let half = pow2(below);
        lemma_place_step(depth, index);
        let place = (index % pow2(depth)) as int;
        let low = (index % half) as int;
        let left = left_leaves(leaves, depth);
        let right = right_leaves(leaves, depth);
        let siblings = branch(leaves, depth, index);
        lemma_branch_len(leaves, depth, index);
        if bit(index, below) {
            lemma_branch_leads_to_root(right, below, index);
            assert(siblings.drop_last() =~= branch(right, below, index));
            assert(right[low] == leaves[place]);
        } else {
            lemma_branch_leads_to_root(left, below, index);
            assert(siblings.drop_last() =~= branch(left, below, index));
            assert(left[low] == leaves[place]);
        }
    }
}

/// Every leaf of a tree verifies under the tree's root, at its own place and with its own branch.
pub proof fn law_every_leaf_verifies(leaves: Seq<Hash256>, depth: nat, index: nat)
    requires
        leaves.len() <= pow2(depth),
        index < leaves.len(),
    ensures
        branch_verifies(
            leaves[index as int],
            branch(leaves, depth, index),
            depth,
            index,
            tree_root(leaves, depth),
        ),
{
    lemma_small_mod(index, pow2(depth));
    lemma_branch_len(leaves, depth, index);
    lemma_branch_leads_to_root(leaves, depth, index);
}

/// A tree of one leaf has the leaf as its root.
pub proof fn law_a_leaf_is_its_root(leaf: Hash256)
    ensures
        tree_root(seq![leaf], 0) == leaf,
{
}

/// The root of a tree is the digest of the roots of its halves, the left one first.
pub proof fn law_a_root_is_the_digest_of_its_halves(
    left: Seq<Hash256>,
    right: Seq<Hash256>,
    depth: nat,
)
    requires
        left.len() == pow2(depth),
        right.len() <= pow2(depth),
    ensures
        tree_root(left + right, depth + 1) == sha256(
            tree_root(left, depth)@ + tree_root(right, depth)@,
        ),
{
    let leaves = left + right;
    lemma_pow2_pos(depth);
    assert(left_leaves(leaves, depth + 1) =~= left);
    assert(right_leaves(leaves, depth + 1) =~= right);
}

/// A leaf that is missing counts as zero.
pub proof fn law_missing_leaves_are_zero(leaves: Seq<Hash256>, depth: nat)
    requires
        leaves.len() < pow2(depth),
    ensures
        tree_root(leaves, depth) == tree_root(leaves.push(ZERO_ROOT), depth),
    decreases depth,
{
    let more = leaves.push(ZERO_ROOT);
    if depth == 0 {
        vstd::arithmetic::power2::lemma2_to64();
    } else {
        let below = (depth - 1) as nat;
        let half = pow2(below);
        lemma_pow2_unfold(depth);
        lemma_pow2_pos(below);
        let left = left_leaves(leaves, depth);
        let right = right_leaves(leaves, depth);
        if leaves.len() < half {
            law_missing_leaves_are_zero(leaves, below);
            assert(left_leaves(more, depth) =~= more);
            assert(right_leaves(more, depth) =~= Seq::empty());
            if leaves.len() == 0 {
                assert(left =~= Seq::empty());
                assert(leaves =~= Seq::empty());
                assert(tree_root(Seq::empty(), below) == zero_hash(below));
            }
        } else {
            assert(left_leaves(more, depth) =~= leaves.take(half as int));
            assert(left =~= leaves.take(half as int));
            assert(right =~= leaves.skip(half as int));
            assert(right_leaves(more, depth) =~= right.push(ZERO_ROOT));
            law_missing_leaves_are_zero(right, below);
        }
    }
}

/// A branch leads one level up by the digest of two roots: that of the sibling comes first where
/// the index has its bit of that level set, and second where it does not.
pub proof fn law_a_branch_climbs_level_by_level(
    leaf: Hash256,
    siblings: Seq<Hash256>,
    above: Hash256,
    index: nat,
)
    ensures
        root_from_branch(leaf, Seq::empty(), index) == leaf,
        ({
            let below = root_from_branch(leaf, siblings, index);
            root_from_branch(leaf, siblings.push(above), index) == if (index / pow2(
                siblings.len(),
            )) % 2 == 1 {
                sha256(above@ + below@)
            } else {
                sha256(below@ + above@)
            }
        }),
{
    assert(siblings.push(above).drop_last() =~= siblings);
}

/// A branch verifies exactly where it is as long as the tree is deep, and leads to the root.
pub proof fn law_a_branch_verifies_under_one_root(
    leaf: Hash256,
    siblings: Seq<Hash256>,
    depth: nat,
    index: nat,
    root: Hash256,
)
    ensures
        branch_verifies(leaf, siblings, depth, index, root) <==> siblings.len() == depth && root
            == root_from_branch(leaf, siblings, index),
{
}

/// The leaf that a tree opens to at an index is the leaf there, and zero where there is none.
pub proof fn law_a_tree_opens_to_its_leaves(leaves: Seq<Hash256>, depth: nat, index: nat)
    requires
        index < pow2(depth),
    ensures
        tree_leaf(leaves, depth, index) == if index < leaves.len() {
            leaves[index as int]
        } else {
            ZERO_ROOT
        },
{
    lemma_small_mod(index, pow2(depth));
}

} // verus!
