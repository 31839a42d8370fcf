//! Claim batching: many claim digests under one 32-byte Merkle root, with inclusion
//! proofs.
//!
//! Leaves bind their index, `leaf(i) = keccak(0x00 ++ be32(i) ++ digest)`, and internal
//! nodes are `keccak(0x01 ++ left ++ right)`. A level with an odd count promotes its last
//! node unchanged instead of duplicating it.
use vstd::prelude::*;

use crate::bytes::{be_u32, be_u32_injective, push_bytes, push_u32, split_equal_prefix};
use crate::commit::{hash_bytes, Digest};
use crate::keccak::keccak256;

verus! {

/// Hash of the leaf for the digest at `index`.
pub open spec fn leaf_hash(index: u32, d: Seq<u8>) -> Seq<u8> {
    keccak256(leaf_preimage(index, d))
}

/// What a leaf hash is taken over: a `0` byte, the claim's position, its digest.
pub open spec fn leaf_preimage(index: u32, d: Seq<u8>) -> Seq<u8> {
    seq![0u8] + be_u32(index) + d
}

/// What a node hash is taken over: a `1` byte, then the two children.
pub open spec fn node_preimage(left: Seq<u8>, right: Seq<u8>) -> Seq<u8> {
    seq![1u8] + left + right
}

/// Leaves and nodes are hashed over different preimages, so an internal node can never
/// pass for a claim; and a leaf's preimage fixes both the claim and its position, so a
/// claim cannot be moved to another index, and equal claims at different positions make
/// different leaves.
pub proof fn leaves_are_bound_to_their_position(i: u32, d: Seq<u8>, j: u32, e: Seq<u8>, l: Seq<u8>, r: Seq<u8>)
    ensures
        leaf_preimage(i, d) != node_preimage(l, r),
        leaf_preimage(i, d) == leaf_preimage(j, e) ==> i == j && d == e,
{
    assert(leaf_preimage(i, d)[0] == 0u8);
    assert(node_preimage(l, r)[0] == 1u8);
    if leaf_preimage(i, d) == leaf_preimage(j, e) {
        assert(leaf_preimage(i, d) =~= seq![0u8] + (be_u32(i) + d));
        assert(leaf_preimage(j, e) =~= seq![0u8] + (be_u32(j) + e));
        split_equal_prefix(seq![0u8], be_u32(i) + d, seq![0u8], be_u32(j) + e);
        split_equal_prefix(be_u32(i), d, be_u32(j), e);
        be_u32_injective(i, j);
    }
}

/// Hash of an internal node.
pub open spec fn node_hash(left: Seq<u8>, right: Seq<u8>) -> Seq<u8> {
    keccak256(node_preimage(left, right))
}

/// The bytes of each digest.
pub open spec fn digest_bytes(ds: Seq<Digest>) -> Seq<Seq<u8>> {
    ds.map(|i: int, d: Digest| d.0@)
}

/// The leaf level of a batch.
pub open spec fn level0(leaves: Seq<Digest>) -> Seq<Seq<u8>> {
    Seq::new(leaves.len(), |i: int| leaf_hash(i as u32, leaves[i].0@))
}

/// The level above: adjacent pairs hashed, a trailing odd node promoted.
pub open spec fn next_level(level: Seq<Seq<u8>>) -> Seq<Seq<u8>> {
    Seq::new(
        ((level.len() + 1) / 2) as nat,
        |j: int| if 2 * j + 1 < level.len() { node_hash(level[2 * j], level[2 * j + 1]) } else { level[2 * j] },
    )
}

/// The root of a non-empty level.
pub open spec fn root_of(level: Seq<Seq<u8>>) -> Seq<u8>
    decreases level.len(),
{
    if level.len() <= 1 {
        level[0]
    } else {
        root_of(next_level(level))
    }
}

/// One step of an inclusion proof, as bytes: the sibling, and whether it is on the left.
pub type StepView = (Seq<u8>, bool);

/// The inclusion path of the node at `pos`, from this level up to the root.
pub open spec fn path_of(level: Seq<Seq<u8>>, pos: int) -> Seq<StepView>
    decreases level.len(),
{
    if level.len() <= 1 {
        Seq::empty()
    } else {
        let step: Seq<StepView> = if pos % 2 == 1 {
            seq![(level[pos - 1], true)]
        } else if pos + 1 < level.len() {
            seq![(level[pos + 1], false)]
        } else {
            Seq::empty()
        };
        step + path_of(next_level(level), pos / 2)
    }
}

/// Apply one proof step to a node.
pub open spec fn apply_step(node: Seq<u8>, step: StepView) -> Seq<u8> {
    if step.1 { node_hash(step.0, node) } else { node_hash(node, step.0) }
}

/// Recompute a root from a node and a path.
pub open spec fn fold_path(node: Seq<u8>, steps: Seq<StepView>) -> Seq<u8>
    decreases steps.len(),
{
    if steps.len() == 0 {
        node
    } else {
        fold_path(apply_step(node, steps[0]), steps.drop_first())
    }
}

/// One step of an inclusion proof.
#[derive(Debug, Clone, Copy, PartialEq, Eq)]
pub struct ProofStep {
    pub sibling: Digest,
    /// True when the sibling sits on the left. Hashing is not commutative: order carries
    /// the position.
    pub sibling_is_left: bool,
}

/// The byte view of proof steps.
pub open spec fn steps_view(steps: Seq<ProofStep>) -> Seq<StepView> {
    steps.map(|i: int, s: ProofStep| (s.sibling.0@, s.sibling_is_left))
}

/// Whether a digest at `index` with these steps recomputes to `root`.
pub open spec fn proves(digest: Seq<u8>, index: u32, steps: Seq<StepView>, root: Seq<u8>) -> bool {
    fold_path(leaf_hash(index, digest), steps) == root
}

fn hash_leaf(index: u32, digest: &Digest) -> (d: Digest)
    ensures
        d.0@ == leaf_hash(index, digest.0@),
{
    let mut pre: Vec<u8> = Vec::new();
    pre.push(0u8);
    push_u32(&mut pre, index);
    push_bytes(&mut pre, &digest.0);
    assert(pre@ =~= seq![0u8] + be_u32(index) + digest.0@);
    hash_bytes(pre.as_slice())
}

fn hash_node(left: &Digest, right: &Digest) -> (d: Digest)
    ensures
        d.0@ == node_hash(left.0@, right.0@),
{
    let mut pre: Vec<u8> = Vec::new();
    pre.push(1u8);
    push_bytes(&mut pre, &left.0);
    push_bytes(&mut pre, &right.0);
    assert(pre@ =~= seq![1u8] + left.0@ + right.0@);
    hash_bytes(pre.as_slice())
}

/// Hash one level into the next.
fn hash_level(level: &Vec<Digest>) -> (next: Vec<Digest>)
    ensures
        digest_bytes(next@) == next_level(digest_bytes(level@)),
        next@.len() == (level@.len() + 1) / 2,
{
    let ghost lv = digest_bytes(level@);
    let mut next: Vec<Digest> = Vec::new();
    let mut i: usize = 0;
    while i + 1 < level.len()
        invariant
            lv == digest_bytes(level@),
            i % 2 == 0,
            i <= level@.len(),
            digest_bytes(next@) == next_level(lv).take(i as int / 2),
        decreases level@.len() - i,
    {
        let n = hash_node(&level[i], &level[i + 1]);
        let ghost old_i = i as int;
        assert(2 * (old_i / 2) == old_i);
        assert(next_level(lv)[old_i / 2] == node_hash(lv[old_i], lv[old_i + 1]));
        assert(lv[old_i] == level@[old_i].0@);
        assert(lv[old_i + 1] == level@[old_i + 1].0@);
        let ghost before = next@;
        next.push(n);
        assert(next@ == before.push(n));
        assert(digest_bytes(next@) =~= digest_bytes(before).push(n.0@));
        i = i + 2;
        assert((old_i + 2) / 2 == old_i / 2 + 1);
        assert(digest_bytes(next@) =~= next_level(lv).take(i as int / 2));
    }
    if i < level.len() {
        assert(2 * (i as int / 2) == i as int);
        assert(next_level(lv)[i as int / 2] == lv[i as int]);
        next.push(level[i]);
        assert(digest_bytes(next@) =~= next_level(lv).take(i as int / 2 + 1));
        assert(next_level(lv).take(i as int / 2 + 1) =~= next_level(lv));
    } else {
        assert(next_level(lv).take(i as int / 2) =~= next_level(lv));
    }
    next
}

/// An accumulating batch of claim digests.
#[derive(Debug, Clone, Default)]
pub struct ClaimBatch {
    leaves: Vec<Digest>,
}

impl ClaimBatch {
    /// The digests pushed so far, in order.
    pub closed spec fn view(&self) -> Seq<Digest> {
        self.leaves@
    }

    pub fn new() -> (b: ClaimBatch)
        ensures
            b.view() == Seq::<Digest>::empty(),
    {
        ClaimBatch { leaves: Vec::new() }
    }

    /// Append a claim digest. Returns its index, which is part of its leaf hash.
    pub fn push(&mut self, digest: Digest) -> (i: usize)
        requires
            old(self).view().len() < usize::MAX,
        ensures
            final(self).view() == old(self).view().push(digest),
            i == old(self).view().len(),
    {
        self.leaves.push(digest);
        self.leaves.len() - 1
    }

    pub fn len(&self) -> (n: usize)
        ensures
            n == self.view().len(),
    {
        self.leaves.len()
    }

    pub fn is_empty(&self) -> (b: bool)
        ensures
            b == (self.view().len() == 0),
    {
        self.leaves.len() == 0
    }

    pub fn clear(&mut self)
        ensures
            final(self).view() == Seq::<Digest>::empty(),
    {
        self.leaves.clear();
    }

    pub fn digests(&self) -> (d: &[Digest])
        ensures
            d@ == self.view(),
    {
        self.leaves.as_slice()
    }

    /// The leaf level.
    fn level0(&self) -> (level: Vec<Digest>)
        ensures
            digest_bytes(level@) == level0(self.view()),
            level@.len() == self.view().len(),
    {
        let mut level: Vec<Digest> = Vec::new();
        let mut i: usize = 0;
        while i < self.leaves.len()
            invariant
                i <= self.leaves@.len(),
                digest_bytes(level@) == level0(self.leaves@).take(i as int),
                level@.len() == i,
            decreases self.leaves@.len() - i,
        {
            let idx: u32 = #[verifier::truncate] (i as u32);
            assert(idx == (i as int) as u32);
            let h = hash_leaf(idx, &self.leaves[i]);
            level.push(h);
            i = i + 1;
            assert(digest_bytes(level@) =~= level0(self.leaves@).take(i as int));
        }
        assert(level0(self.leaves@).take(i as int) =~= level0(self.leaves@));
        level
    }

    /// The root that goes on chain, or `None` for an empty batch.
    pub fn root(&self) -> (r: Option<Digest>)
        ensures
            match r {
                None => self.view().len() == 0,
                Some(d) => self.view().len() > 0 && d.0@ == root_of(level0(self.view())),
            },
    {
        let mut level = self.level0();
        if level.len() == 0 {
            return None;
        }
        let ghost top = level0(self.view());
        while level.len() > 1
            invariant
                level@.len() >= 1,
                root_of(digest_bytes(level@)) == root_of(top),
            decreases level@.len(),
        {
            level = hash_level(&level);
        }
        proof {
            assert(digest_bytes(level@)[0] == level@[0].0@);
        }
        Some(level[0])
    }

    /// Inclusion proof for the claim at `index`, or `None` when out of range.
    pub fn proof_for(&self, index: usize) -> (r: Option<Vec<ProofStep>>)
        ensures
            match r {
                None => index >= self.view().len(),
                Some(steps) => index < self.view().len()
                    && steps_view(steps@) == path_of(level0(self.view()), index as int),
            },
    {
        if index >= self.leaves.len() {
            return None;
        }
        let mut steps: Vec<ProofStep> = Vec::new();
        let mut level = self.level0();
        let mut pos = index;
        let ghost top = level0(self.view());
        while level.len() > 1
            invariant
                pos < level@.len(),
                steps_view(steps@) + path_of(digest_bytes(level@), pos as int) == path_of(top, index as int),
            decreases level@.len(),
        {
            let ghost lv = digest_bytes(level@);
            let ghost before = steps_view(steps@);
            if pos % 2 == 1 {
                steps.push(ProofStep { sibling: level[pos - 1], sibling_is_left: true });
                assert(steps_view(steps@) =~= before + seq![(lv[pos - 1], true)]);
            } else if pos + 1 < level.len() {
                steps.push(ProofStep { sibling: level[pos + 1], sibling_is_left: false });
                assert(steps_view(steps@) =~= before + seq![(lv[pos + 1], false)]);
            } else {
                assert(steps_view(steps@) =~= before + Seq::<StepView>::empty());
            }
            level = hash_level(&level);
            pos = pos / 2;
            assert(steps_view(steps@) + path_of(digest_bytes(level@), pos as int) =~= path_of(top, index as int));
        }
        assert(path_of(digest_bytes(level@), pos as int) =~= Seq::<StepView>::empty());
        assert(steps_view(steps@) =~= path_of(top, index as int));
        Some(steps)
    }
}

/// Recompute a root from a claim digest, its index and its proof, and compare.
pub fn verify_proof(digest: &Digest, index: u32, steps: &[ProofStep], root: &Digest) -> (ok: bool)
    ensures
        ok == proves(digest.0@, index, steps_view(steps@), root.0@),
{
    let mut node = hash_leaf(index, digest);
    let mut i: usize = 0;
    let ghost all = steps_view(steps@);
    assert(all.skip(0) =~= all);
    while i < steps.len()
        invariant
            i <= steps@.len(),
            all == steps_view(steps@),
            fold_path(node.0@, all.skip(i as int)) == fold_path(leaf_hash(index, digest.0@), all),
        decreases steps@.len() - i,
    {
        let step = steps[i];
        assert(all.skip(i as int)[0] == (step.sibling.0@, step.sibling_is_left));
        assert(all.skip(i as int).drop_first() =~= all.skip(i as int + 1));
        node = if step.sibling_is_left {
            hash_node(&step.sibling, &node)
        } else {
            hash_node(&node, &step.sibling)
        };
        i = i + 1;
    }
    assert(all.skip(i as int) =~= Seq::<StepView>::empty());
    node.same_as(root)
}

proof fn lemma_fold_prepend(node: Seq<u8>, step: Seq<StepView>, rest: Seq<StepView>)
    requires
        step.len() <= 1,
    ensures
        fold_path(node, step + rest) == fold_path(
            if step.len() == 1 { apply_step(node, step[0]) } else { node },
            rest,
        ),
{
    if step.len() == 1 {
        assert((step + rest).drop_first() =~= rest);
    } else {
        assert(step + rest =~= rest);
    }
}

/// Folding the path of any node of a level reaches the level's root.
pub proof fn path_reaches_root(level: Seq<Seq<u8>>, pos: int)
    requires
        0 <= pos < level.len(),
    ensures
        fold_path(level[pos], path_of(level, pos)) == root_of(level),
    decreases level.len(),
{
    if level.len() > 1 {
        let next = next_level(level);
        let step: Seq<StepView> = if pos % 2 == 1 {
            seq![(level[pos - 1], true)]
        } else if pos + 1 < level.len() {
            seq![(level[pos + 1], false)]
        } else {
            Seq::empty()
        };
        lemma_fold_prepend(level[pos], step, path_of(next, pos / 2));
        assert((if step.len() == 1 { apply_step(level[pos], step[0]) } else { level[pos] }) == next[pos / 2]);
        path_reaches_root(next, pos / 2);
    }
}

/// Every claim in a batch proves against the batch's root: the digest at position `i`,
/// with index `i` and the proof the batch hands out for `i`, recomputes the root. This
/// holds for every batch whose positions fit the 32-bit index.
pub proof fn every_claim_proves(leaves: Seq<Digest>, i: int)
    requires
        0 <= i < leaves.len(),
        leaves.len() <= 0x1_0000_0000,
    ensures
        proves(leaves[i].0@, i as u32, path_of(level0(leaves), i), root_of(level0(leaves))),
{
    path_reaches_root(level0(leaves), i);
}

/// How a level rises: adjacent nodes are hashed in pairs, left then right, and when the
/// count is odd the last node is carried up unchanged, never paired with a copy of
/// itself; so the path of that last node takes no step at this level. The root of a
/// level is the root of the level above.
pub proof fn an_odd_last_node_is_promoted(level: Seq<Seq<u8>>)
    requires
        level.len() > 1,
    ensures
        next_level(level).len() == (level.len() + 1) / 2,
        forall|j: int| 0 <= j && 2 * j + 1 < level.len() ==> #[trigger] next_level(level)[j] == node_hash(
            level[2 * j],
            level[2 * j + 1],
        ),
        level.len() % 2 == 1 ==> next_level(level)[next_level(level).len() - 1] == level[level.len() - 1],
        level.len() % 2 == 1 ==> path_of(level, level.len() - 1) == path_of(
            next_level(level),
            (level.len() - 1) / 2,
        ),
        root_of(level) == root_of(next_level(level)),
{
    if level.len() % 2 == 1 {
        let n = level.len() as int;
        assert(2 * ((n - 1) / 2) == n - 1);
        assert(Seq::<StepView>::empty() + path_of(next_level(level), (n - 1) / 2) =~= path_of(
            next_level(level),
            (n - 1) / 2,
        ));
    }
}

} // verus!

