use solship::board::{validate_fleet, verify_table, ProofField};
use solship::errors::CustomError;
use solship::hashing::{hash_leaf, BoardHash, GameField};
use solship::merkle::build_root;

fn table_of(ship_cells: &[usize]) -> [ProofField; 128] {
    let mut table = [ProofField { ship_placed: false }; 128];
    for &c in ship_cells {
        table[c] = ProofField { ship_placed: true };
    }
    table
}

fn root_of_table(table: &[ProofField; 128]) -> BoardHash {
    let mut leaves = Vec::new();
    for i in 0..128usize {
        let ship = if i < 100 { table[i].ship_placed } else { false };
        leaves.push(hash_leaf(&GameField {
            index: i as u8,
            ship_placed: ship,
        }));
    }
    build_root(&leaves)
}

fn legal_cells() -> Vec<usize> {
    vec![0, 1, 20, 21, 22, 40, 41, 42, 60, 61, 62, 63, 80, 81, 82, 83, 84]
}

#[test]
fn legal_fleet_passes() {
    let table = table_of(&legal_cells());
    assert!(validate_fleet(&table));
    let root = root_of_table(&table);
    assert_eq!(verify_table(&table, &root), Ok(()));
}

#[test]
fn single_cell_fragments_rejected() {
    // two length-1 fragments in place of the length-2 ship
    let cells = vec![0, 4, 20, 21, 22, 40, 41, 42, 60, 61, 62, 63, 80, 81, 82, 83, 84];
    let table = table_of(&cells);
    assert!(!validate_fleet(&table));
    let root = root_of_table(&table);
    assert_eq!(
        verify_table(&table, &root),
        Err(CustomError::InvalidFinalBoard)
    );
}

#[test]
fn six_cell_run_rejected() {
    // the length-5 ship grown to length 6
    let cells = vec![
        0, 1, 20, 21, 22, 40, 41, 42, 60, 61, 62, 63, 80, 81, 82, 83, 84, 85,
    ];
    let table = table_of(&cells);
    assert!(!validate_fleet(&table));
}

#[test]
fn diagonal_touch_between_ships_rejected() {
    // the length-2 ship at cells 0,1 and a length-3 ship starting at cell
    // 12: cell 1 (row 0, col 1) and cell 12 (row 1, col 2) touch
    // diagonally
    let cells = vec![0, 1, 12, 13, 14, 40, 41, 42, 60, 61, 62, 63, 80, 81, 82, 83, 84];
    let table = table_of(&cells);
    assert!(!validate_fleet(&table));
}

#[test]
fn wrong_ship_multiplicities_rejected() {
    // two length-2 ships, one length-3: wrong tally even with 17 cells
    // replaced by a clearly wrong fleet of four length-4 ships
    let cells = vec![
        0, 1, 2, 3, 20, 21, 22, 23, 40, 41, 42, 43, 60, 61, 62, 63,
    ];
    let table = table_of(&cells);
    assert!(!validate_fleet(&table));
}

#[test]
fn wrong_root_rejected() {
    let table = table_of(&legal_cells());
    let mut root = root_of_table(&table);
    root[0] ^= 1;
    assert_eq!(
        verify_table(&table, &root),
        Err(CustomError::InvalidFinalBoard)
    );
}

#[test]
fn bent_ship_passes_when_seed_diagonals_are_clear() {
    // the diagonal check runs only at each ship's lowest-indexed cell: an
    // L-shaped ship whose seed has empty diagonals is accepted
    let cells = vec![
        0, 10, 20, 21, // bent length-4 ship; seed 0 has no diagonal contact
        3, 4, // length 2
        40, 41, 42, // length 3
        60, 61, 62, // length 3
        80, 81, 82, 83, 84, // length 5
    ];
    let table = table_of(&cells);
    assert!(validate_fleet(&table));
}

#[test]
fn diagonal_contact_at_seed_rejected_even_within_one_ship() {
    // cells 0,10,11: cell 11 touches the seed 0 diagonally although it
    // belongs to the same ship
    let cells = vec![0, 10, 11, 20, 21, 22, 40, 41, 42, 60, 61, 62, 63, 80, 81, 82, 83, 84];
    let table = table_of(&cells);
    assert!(!validate_fleet(&table));
}
