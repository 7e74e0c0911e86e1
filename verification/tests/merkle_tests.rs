use solship::hashing::{combine, hash_leaf, hashes_equal, BoardHash, GameField};
use solship::merkle::{build_root, direction_bits, generate_proof, verify_merkle_proof};

fn build_table_flags(ship_cells: &[usize]) -> [bool; 128] {
    let mut flags = [false; 128];
    for &c in ship_cells {
        flags[c] = true;
    }
    flags
}

fn build_leaves(flags: &[bool; 128]) -> Vec<BoardHash> {
    let mut leaves = Vec::new();
    for i in 0..128usize {
        let ship = if i < 100 { flags[i] } else { false };
        leaves.push(hash_leaf(&GameField {
            index: i as u8,
            ship_placed: ship,
        }));
    }
    leaves
}

fn fleet_cells() -> Vec<usize> {
    vec![
        0, 1, // length 2
        20, 21, 22, // length 3
        40, 41, 42, // length 3
        60, 61, 62, 63, // length 4
        80, 81, 82, 83, 84, // length 5
    ]
}

fn proof_array(leaves: &Vec<BoardHash>, i: usize) -> [BoardHash; 7] {
    let p = generate_proof(leaves, i);
    [p[0], p[1], p[2], p[3], p[4], p[5], p[6]]
}

#[test]
fn merkle_round_trip() {
    let flags = build_table_flags(&fleet_cells());
    let leaves = build_leaves(&flags);
    let root = build_root(&leaves);
    for i in 0..128usize {
        let siblings = proof_array(&leaves, i);
        assert!(verify_merkle_proof(&leaves[i], &siblings, &root, i as u8));
    }
}

#[test]
fn direction_bit_determinism() {
    // derived from the recurrence: seed pos = index + 1, emit pos % 2,
    // pos = (pos + 1) / 2
    assert_eq!(direction_bits(0), vec![1, 1, 1, 1, 1, 1, 1]);
    assert_eq!(direction_bits(127), vec![0, 0, 0, 0, 0, 0, 0]);
    assert_eq!(direction_bits(5), vec![0, 1, 0, 1, 1, 1, 1]);
}

#[test]
fn tamper_rejection_proof_bits() {
    let flags = build_table_flags(&fleet_cells());
    let leaves = build_leaves(&flags);
    let root = build_root(&leaves);
    let idx = 42usize;
    let siblings = proof_array(&leaves, idx);
    assert!(verify_merkle_proof(&leaves[idx], &siblings, &root, idx as u8));
    for level in 0..7usize {
        for byte in [0usize, 31] {
            for bit in 0..8u8 {
                let mut tampered = siblings;
                tampered[level][byte] ^= 1u8 << bit;
                assert!(!verify_merkle_proof(&leaves[idx], &tampered, &root, idx as u8));
            }
        }
    }
}

#[test]
fn tamper_rejection_leaf_payload() {
    let flags = build_table_flags(&fleet_cells());
    let leaves = build_leaves(&flags);
    let root = build_root(&leaves);
    let idx = 42usize;
    let siblings = proof_array(&leaves, idx);
    // honest leaf is (42, true); lie about the ship flag
    let lying = hash_leaf(&GameField {
        index: 42,
        ship_placed: false,
    });
    assert!(!verify_merkle_proof(&lying, &siblings, &root, 42));
    // lie about the index
    let wrong_index = hash_leaf(&GameField {
        index: 43,
        ship_placed: true,
    });
    assert!(!verify_merkle_proof(&wrong_index, &siblings, &root, 42));
}

#[test]
fn leaf_is_double_blake3_of_two_byte_encoding() {
    let field = GameField {
        index: 9,
        ship_placed: true,
    };
    let got = hash_leaf(&field);
    let inner = solana_program::blake3::hash(&[9u8, 1u8]);
    let expected = solana_program::blake3::hash(&inner.to_bytes()).to_bytes();
    assert_eq!(got, expected);
    // and the single hash differs: the leaf really is hashed twice
    assert_ne!(got, inner.to_bytes());
}

#[test]
fn combine_is_blake3_of_concatenation() {
    let left = [7u8; 32];
    let right = [9u8; 32];
    let got = combine(&left, &right);
    let mut cat = Vec::new();
    cat.extend_from_slice(&left);
    cat.extend_from_slice(&right);
    let expected = solana_program::blake3::hash(&cat).to_bytes();
    assert_eq!(got, expected);
    assert!(hashes_equal(&got, &expected));
    assert!(!hashes_equal(&got, &left));
}

#[test]
fn serialize_is_index_then_flag() {
    let f = GameField {
        index: 42,
        ship_placed: true,
    };
    assert_eq!(f.serialize(), vec![42u8, 1u8]);
    let g = GameField {
        index: 0,
        ship_placed: false,
    };
    assert_eq!(g.serialize(), vec![0u8, 0u8]);
}

#[test]
fn build_root_differs_when_one_leaf_changes() {
    let flags = build_table_flags(&fleet_cells());
    let leaves = build_leaves(&flags);
    let root = build_root(&leaves);
    let mut other_flags = flags;
    other_flags[55] = true;
    let other = build_root(&build_leaves(&other_flags));
    assert_ne!(root, other);
}
