//! The fixed-depth binary Merkle tree over board cells: building a root
//! from all leaves, producing the sibling path of one leaf, and verifying
//! a single-leaf inclusion proof against a committed root.
//!
//! A board commits 128 leaves (100 real cells padded to 128), so the tree
//! is a perfect 7-level binary tree and every inclusion proof carries
//! exactly 7 sibling digests.

use vstd::prelude::*;

use crate::hashing::combine;
use crate::hashing::combined;
use crate::hashing::hashes_equal;
use crate::hashing::BoardHash;

verus! {

/// The byte sequences held by a sequence of digests.
pub open spec fn digests_of(nodes: Seq<BoardHash>) -> Seq<Seq<u8>> {
    Seq::new(nodes.len(), |i: int| nodes[i]@)
}

/// One level up the tree: adjacent nodes pairwise combined; with an odd
/// count the last unmatched node is carried forward unchanged.
pub open spec fn level_up(nodes: Seq<Seq<u8>>) -> Seq<Seq<u8>> {
    Seq::new((nodes.len() + 1) / 2, |i: int|
        if 2 * i + 1 < nodes.len() {
            combined(nodes[2 * i], nodes[2 * i + 1])
        } else {
            nodes[2 * i]
        })
}

/// The root digest of the tree over `nodes`: pair level by level until a
/// single digest remains.
pub open spec fn root_of(nodes: Seq<Seq<u8>>) -> Seq<u8>
    decreases nodes.len(),
{
    if nodes.len() == 0 {
        Seq::empty()
    } else if nodes.len() == 1 {
        nodes[0]
    } else {
        root_of(level_up(nodes))
    }
}

/// The index of the sibling of node `idx` within its level.
pub open spec fn sibling_index(idx: int) -> int {
    if idx % 2 == 0 {
        idx + 1
    } else {
        idx - 1
    }
}

/// The sibling digests along the path from position `idx` up to the root.
pub open spec fn merkle_path(nodes: Seq<Seq<u8>>, idx: int) -> Seq<Seq<u8>>
    decreases nodes.len(),
{
    if nodes.len() <= 1 {
        Seq::empty()
    } else {
        seq![nodes[sibling_index(idx)]] + merkle_path(level_up(nodes), idx / 2)
    }
}

/// Recomputing a root from one leaf: at each level the running digest is
/// the left child when its index within the level is even (so the proof
/// node is appended on the right), and the right child otherwise.
pub open spec fn proof_chain(current: Seq<u8>, siblings: Seq<Seq<u8>>, idx: int) -> Seq<u8>
    decreases siblings.len(),
{
    if siblings.len() == 0 {
        current
    } else {
        let next = if idx % 2 == 0 {
            combined(current, siblings[0])
        } else {
            combined(siblings[0], current)
        };
        proof_chain(next, siblings.skip(1), idx / 2)
    }
}

pub open spec fn pow2(n: nat) -> nat
    decreases n,
{
    if n == 0 {
        1
    } else {
        2 * pow2((n - 1) as nat)
    }
}

/// The direction bits that the verifier derives for a leaf, via the
/// 1-indexed recurrence: seed `pos = leaf_index + 1`; at each of the 7
/// levels emit `pos % 2` (1 = the proof node is the right sibling, 0 = it
/// is the left sibling), then ceiling-halve: `pos = (pos + 1) / 2`.
pub open spec fn direction_seq_from(pos: int, n: nat) -> Seq<u8>
    decreases n,
{
    if n == 0 {
        Seq::empty()
    } else {
        seq![(pos % 2) as u8] + direction_seq_from((pos + 1) / 2, (n - 1) as nat)
    }
}

pub open spec fn direction_seq(leaf_index: int) -> Seq<u8> {
    direction_seq_from(leaf_index + 1, 7)
}

/// The 7 direction bits used to verify an inclusion proof for the given
/// leaf, exactly as `verify_merkle_proof` consumes them.
pub fn direction_bits(leaf_index: u8) -> (bits: Vec<u8>)
    requires
        leaf_index < 128,
    ensures
        bits@ == direction_seq(leaf_index as int),
{
    let ghost goal = direction_seq(leaf_index as int);
    let mut bits: Vec<u8> = Vec::new();
    let mut pos: u8 = leaf_index + 1;
    while bits.len() < 7
        invariant
            1 <= pos <= 128,
            bits@.len() <= 7,
            goal == bits@ + direction_seq_from(pos as int, (7 - bits@.len()) as nat),
        decreases 7 - bits@.len(),
    {
        bits.push(pos % 2);
        pos = (pos + 1) / 2;
        proof {
            assert(goal == bits@ + direction_seq_from(pos as int, (7 - bits@.len()) as nat)) by {
                assert(goal =~= bits@ + direction_seq_from(pos as int, (7 - bits@.len()) as nat));
            }
        }
    }
    proof {
        assert(goal =~= bits@ + direction_seq_from(pos as int, 0));
    }
    bits
}

/// Verifies that `hashed_leaf` sits at `leaf_index` in the tree whose
/// root is `root`, given the 7 sibling digests from leaf level upward.
/// Returns false (never fails) on any mismatch.
pub fn verify_merkle_proof(
    hashed_leaf: &BoardHash,
    siblings: &[BoardHash; 7],
    root: &BoardHash,
    leaf_index: u8,
) -> (valid: bool)
    requires
        leaf_index < 128,
    ensures
        valid == (proof_chain(hashed_leaf@, digests_of(siblings@), leaf_index as int) == root@),
{
    let ghost goal = proof_chain(hashed_leaf@, digests_of(siblings@), leaf_index as int);
    proof {
        assert(digests_of(siblings@).skip(0) =~= digests_of(siblings@));
    }
    let mut current: BoardHash = *hashed_leaf;
    let mut pos: u8 = leaf_index + 1;
    let ghost mut idx: int = leaf_index as int;
    let mut i: usize = 0;
    while i < 7
        invariant
            i <= 7,
            0 <= idx < 128,
            pos == idx + 1,
            goal == proof_chain(current@, digests_of(siblings@).skip(i as int), idx),
        decreases 7 - i,
    {
        proof {
            assert(digests_of(siblings@).skip(i as int)[0] == siblings@[i as int]@);
            assert(digests_of(siblings@).skip(i as int).skip(1) =~= digests_of(
                siblings@,
            ).skip(i as int + 1));
        }
        if pos % 2 == 0 {
            current = combine(&siblings[i], &current);
        } else {
            current = combine(&current, &siblings[i]);
        }
        pos = (pos + 1) / 2;
        proof {
            idx = idx / 2;
        }
        i += 1;
    }
    proof {
        assert(digests_of(siblings@).skip(7) =~= Seq::<Seq<u8>>::empty());
    }
    hashes_equal(&current, root)
}

/// Pairs adjacent nodes into the next tree level; an odd trailing node is
/// carried forward unchanged.
fn build_level(nodes: &Vec<BoardHash>) -> (next: Vec<BoardHash>)
    requires
        2 <= nodes@.len() < usize::MAX,
    ensures
        digests_of(next@) == level_up(digests_of(nodes@)),
        next@.len() == (nodes@.len() + 1) / 2,
{
    let mut next: Vec<BoardHash> = Vec::new();
    let mut i: usize = 0;
    while i < nodes.len()
        invariant
            nodes@.len() < usize::MAX,
            i % 2 == 0,
            i <= nodes@.len() + 1,
            next@.len() == i / 2,
            forall|j: int|
                0 <= j < next@.len() ==> next@[j]@ == level_up(digests_of(nodes@))[j],
        decreases nodes@.len() + 2 - i,
    {
        if i + 1 < nodes.len() {
            let c = combine(&nodes[i], &nodes[i + 1]);
            next.push(c);
        } else {
            next.push(nodes[i]);
        }
        i += 2;
    }
    proof {
        assert(digests_of(next@) =~= level_up(digests_of(nodes@)));
    }
    next
}

/// Builds the Merkle root over the given leaves (used at win-claim time
/// to re-derive a player's committed root from the full board).
pub fn build_root(leaves: &Vec<BoardHash>) -> (root: BoardHash)
    requires
        1 <= leaves@.len() < usize::MAX,
    ensures
        root@ == root_of(digests_of(leaves@)),
{
    let mut nodes: Vec<BoardHash> = Vec::new();
    let mut i: usize = 0;
    while i < leaves.len()
        invariant
            i <= leaves@.len(),
            nodes@ == leaves@.take(i as int),
        decreases leaves@.len() - i,
    {
        nodes.push(leaves[i]);
        i += 1;
    }
    proof {
        assert(nodes@ =~= leaves@);
    }
    while nodes.len() > 1
        invariant
            1 <= nodes@.len() < usize::MAX,
            root_of(digests_of(nodes@)) == root_of(digests_of(leaves@)),
        decreases nodes@.len(),
    {
        let next = build_level(&nodes);
        nodes = next;
    }
    nodes[0]
}

/// The sibling path for `leaf_index`, suitable for `verify_merkle_proof`
/// against the root built over the same 128 leaves.
fn merkle_path_rec(nodes: &Vec<BoardHash>, idx: usize, Ghost(depth): Ghost<nat>) -> (siblings: Vec<
    BoardHash,
>)
    requires
        nodes@.len() == pow2(depth),
        idx < nodes@.len(),
    ensures
        siblings@.len() == depth,
        digests_of(siblings@) == merkle_path(digests_of(nodes@), idx as int),
    decreases nodes@.len(),
{
    if nodes.len() == 1 {
        Vec::new()
    } else {
        proof {
            assert(depth > 0);
            assert(nodes@.len() == 2 * pow2((depth - 1) as nat));
        }
        let sib: usize = if idx % 2 == 0 {
            idx + 1
        } else {
            idx - 1
        };
        let sibling = nodes[sib];
        let next = build_level(nodes);
        proof {
            assert(next@.len() == pow2((depth - 1) as nat));
        }
        let mut rest = merkle_path_rec(&next, idx / 2, Ghost((depth - 1) as nat));
        rest.insert(0, sibling);
        proof {
            assert(digests_of(rest@) =~= seq![nodes@[sibling_index(idx as int)]@] + merkle_path(
                level_up(digests_of(nodes@)),
                idx as int / 2,
            ));
        }
        rest
    }
}

/// The 7 sibling digests that prove inclusion of leaf `leaf_index` in a
/// 128-leaf tree.
pub fn generate_proof(leaves: &Vec<BoardHash>, leaf_index: usize) -> (siblings: Vec<BoardHash>)
    requires
        leaves@.len() == 128,
        leaf_index < 128,
    ensures
        siblings@.len() == 7,
        digests_of(siblings@) == merkle_path(digests_of(leaves@), leaf_index as int),
{
    proof {
        lemma_pow2_7();
    }
    merkle_path_rec(leaves, leaf_index, Ghost(7nat))
}

proof fn lemma_pow2_7()
    ensures
        pow2(7) == 128,
{
    assert(pow2(0) == 1);
    assert(pow2(1) == 2);
    assert(pow2(2) == 4);
    assert(pow2(3) == 8);
    assert(pow2(4) == 16);
    assert(pow2(5) == 32);
    assert(pow2(6) == 64);
    assert(pow2(7) == 128);
}

/// Law: for any 128-leaf board, recomputing the root from any leaf and
/// its generated sibling path yields exactly the root built over all the
/// leaves, so an honestly generated inclusion proof always verifies.
pub proof fn lemma_board_round_trip(nodes: Seq<Seq<u8>>, idx: int)
    requires
        nodes.len() == 128,
        0 <= idx < 128,
    ensures
        proof_chain(nodes[idx], merkle_path(nodes, idx), idx) == root_of(nodes),
{
    lemma_pow2_7();
    lemma_merkle_round_trip(nodes, idx, 7);
}

/// Law: for a perfect tree over `nodes`, recomputing the root from any
/// leaf and its generated sibling path yields exactly the root built over
/// all the leaves, so an honestly generated proof always verifies.
pub proof fn lemma_merkle_round_trip(nodes: Seq<Seq<u8>>, idx: int, depth: nat)
    requires
        nodes.len() == pow2(depth),
        0 <= idx < nodes.len(),
    ensures
        proof_chain(nodes[idx], merkle_path(nodes, idx), idx) == root_of(nodes),
    decreases depth,
{
    if depth == 0 {
        assert(nodes.len() == 1);
        assert(merkle_path(nodes, idx) =~= Seq::<Seq<u8>>::empty());
    } else {
        assert(nodes.len() == 2 * pow2((depth - 1) as nat));
        let next = level_up(nodes);
        let path = merkle_path(nodes, idx);
        assert(path == seq![nodes[sibling_index(idx)]] + merkle_path(next, idx / 2));
        assert(path[0] == nodes[sibling_index(idx)]);
        assert(path.skip(1) =~= merkle_path(next, idx / 2));
        let step = if idx % 2 == 0 {
            combined(nodes[idx], nodes[idx + 1])
        } else {
            combined(nodes[idx - 1], nodes[idx])
        };
        assert(step == next[idx / 2]);
        lemma_merkle_round_trip(next, idx / 2, (depth - 1) as nat);
    }
}

} // verus!
