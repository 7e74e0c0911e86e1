//! Leaf encoding and the hashing primitives of the commitment scheme.
//!
//! A board cell is committed as the double hash of its two-byte encoding
//! (one byte of index, one byte of ship flag); internal tree nodes are the
//! single hash of the concatenation of their two children. The double hash
//! on leaves prevents a 64-byte leaf payload from being confused with the
//! concatenation of two child digests (second-preimage leaf/node confusion).

use vstd::prelude::*;

verus! {

/// A 32-byte digest: a Merkle node, or a player's committed board root.
pub type BoardHash = [u8; 32];

/// The digest that the hash function assigns to a byte string.
pub uninterp spec fn blake3_of(input: Seq<u8>) -> Seq<u8>;

/// Relies on solana_program::blake3::hash: computes the 32-byte BLAKE3
/// digest of the input, a pure function of the input bytes alone.
#[verifier::external_body]
pub(crate) fn blake3_digest(input: &[u8]) -> (r: BoardHash)
    ensures
        r@ == blake3_of(input@),
{
    solana_program::blake3::hash(input).to_bytes()
}

pub open spec fn bool_byte(b: bool) -> u8 {
    if b {
        1u8
    } else {
        0u8
    }
}

/// The two-byte wire encoding of a cell: its index, then its ship flag.
pub open spec fn leaf_payload(index: u8, ship_placed: bool) -> Seq<u8> {
    seq![index, bool_byte(ship_placed)]
}

/// The digest of a leaf: the hash applied twice to the cell's encoding.
pub open spec fn leaf_digest(index: u8, ship_placed: bool) -> Seq<u8> {
    blake3_of(blake3_of(leaf_payload(index, ship_placed)))
}

/// The digest of an internal node: a single hash of `left` then `right`.
pub open spec fn combined(left: Seq<u8>, right: Seq<u8>) -> Seq<u8> {
    blake3_of(left + right)
}

/// One board cell as revealed in a single-cell proof.
#[derive(Clone, Copy, PartialEq, Eq, Structural)]
pub struct GameField {
    pub index: u8,
    pub ship_placed: bool,
}

impl GameField {
    /// The two-byte encoding hashed to form this cell's leaf.
    pub fn serialize(&self) -> (buf: Vec<u8>)
        ensures
            buf@ == leaf_payload(self.index, self.ship_placed),
    {
        let mut buf: Vec<u8> = Vec::new();
        buf.push(self.index);
        buf.push(if self.ship_placed { 1u8 } else { 0u8 });
        proof {
            assert(buf@ =~= leaf_payload(self.index, self.ship_placed));
        }
        buf
    }
}

/// The Merkle leaf of one cell: the double hash of its encoding.
pub fn hash_leaf(leaf: &GameField) -> (r: BoardHash)
    ensures
        r@ == leaf_digest(leaf.index, leaf.ship_placed),
{
    let payload = leaf.serialize();
    let inner = blake3_digest(payload.as_slice());
    blake3_digest(inner.as_slice())
}

/// One internal tree step: the hash of the 64-byte concatenation
/// `left || right`, with no separator or padding.
pub fn combine(left: &BoardHash, right: &BoardHash) -> (r: BoardHash)
    ensures
        r@ == combined(left@, right@),
{
    let mut buf: Vec<u8> = Vec::new();
    let mut i: usize = 0;
    while i < 32
        invariant
            i <= 32,
            buf@ == left@.take(i as int),
        decreases 32 - i,
    {
        buf.push(left[i]);
        i += 1;
    }
    proof {
        assert(buf@ =~= left@);
    }
    let mut j: usize = 0;
    while j < 32
        invariant
            j <= 32,
            buf@ == left@ + right@.take(j as int),
        decreases 32 - j,
    {
        buf.push(right[j]);
        j += 1;
    }
    proof {
        assert(buf@ =~= left@ + right@);
    }
    blake3_digest(buf.as_slice())
}

/// Whether two digests hold the same 32 bytes.
pub fn hashes_equal(a: &BoardHash, b: &BoardHash) -> (r: bool)
    ensures
        r == (a@ == b@),
{
    let mut i: usize = 0;
    while i < 32
        invariant
            i <= 32,
            forall|j: int| 0 <= j < i ==> a@[j] == b@[j],
        decreases 32 - i,
    {
        if a[i] != b[i] {
            return false;
        }
        i += 1;
    }
    proof {
        assert(a@ =~= b@);
    }
    true
}

} // verus!
