use solship::board::ProofField;
use solship::errors::CustomError;
use solship::game::{
    attack, claim_win, verify_proof, Address, Game, InvalidProofPolicy, NO_ATTACK, TURN_DURATION,
};
use solship::hashing::{hash_leaf, BoardHash, GameField};
use solship::merkle::{build_root, generate_proof};

fn addr(x: u8) -> Address {
    [x; 32]
}

fn legal_cells() -> Vec<usize> {
    vec![0, 1, 20, 21, 22, 40, 41, 42, 60, 61, 62, 63, 80, 81, 82, 83, 84]
}

fn table_of(ship_cells: &[usize]) -> [ProofField; 128] {
    let mut table = [ProofField { ship_placed: false }; 128];
    for &c in ship_cells {
        table[c] = ProofField { ship_placed: true };
    }
    table
}

fn leaves_of(table: &[ProofField; 128]) -> Vec<BoardHash> {
    let mut leaves = Vec::new();
    for i in 0..128usize {
        let ship = if i < 100 { table[i].ship_placed } else { false };
        leaves.push(hash_leaf(&GameField {
            index: i as u8,
            ship_placed: ship,
        }));
    }
    leaves
}

fn proof_array(leaves: &Vec<BoardHash>, i: usize) -> [BoardHash; 7] {
    let p = generate_proof(leaves, i);
    [p[0], p[1], p[2], p[3], p[4], p[5], p[6]]
}

fn fresh_game(player1: Address, root1: BoardHash, player2: Address, root2: BoardHash, now: u64) -> Game {
    Game {
        player1,
        player2,
        player1_board_hash: root1,
        player2_board_hash: root2,
        current_turn: 1,
        player1_attacked_this_turn: false,
        player2_attacked_this_turn: false,
        player1_tried_verifying_this_turn: false,
        player2_tried_verifying_this_turn: false,
        player1_verified_proof_this_turn: false,
        player2_verified_proof_this_turn: false,
        field_player1_attacked_this_turn: NO_ATTACK,
        field_player2_attacked_this_turn: NO_ATTACK,
        player1_remaining_ship_fields: 17,
        player2_remaining_ship_fields: 17,
        turn_start_slot: now,
        winner: None,
    }
}

struct Setup {
    game: Game,
    a: Address,
    b: Address,
    a_table: [ProofField; 128],
    a_leaves: Vec<BoardHash>,
    b_leaves: Vec<BoardHash>,
}

fn setup(now: u64) -> Setup {
    let a = addr(1);
    let b = addr(2);
    let a_table = table_of(&legal_cells());
    let b_table = table_of(&legal_cells());
    let a_leaves = leaves_of(&a_table);
    let b_leaves = leaves_of(&b_table);
    let ra = build_root(&a_leaves);
    let rb = build_root(&b_leaves);
    let game = fresh_game(a, ra, b, rb, now);
    Setup {
        game,
        a,
        b,
        a_table,
        a_leaves,
        b_leaves,
    }
}

#[test]
fn attack_gating() {
    let mut s = setup(1000);
    // a stranger is not a participant
    assert_eq!(
        attack(&mut s.game, addr(9), 5, 1000).unwrap_err(),
        CustomError::NotAParticipant
    );
    // past the deadline the attack is rejected
    assert_eq!(
        attack(&mut s.game, s.a, 5, 1000 + TURN_DURATION).unwrap_err(),
        CustomError::TurnExpired
    );
    // a first attack is recorded, a second one rejected
    let ev = attack(&mut s.game, s.a, 42, 1000).unwrap();
    assert_eq!(ev.player, s.a);
    assert_eq!(ev.attacked_field, 42);
    assert_eq!(s.game.field_player1_attacked_this_turn, 42);
    assert!(s.game.player1_attacked_this_turn);
    assert_eq!(
        attack(&mut s.game, s.a, 43, 1000).unwrap_err(),
        CustomError::DuplicateAttack
    );
    assert_eq!(s.game.field_player1_attacked_this_turn, 42);
}

#[test]
fn turn_gating_wrong_reveal_target() {
    let mut s = setup(1000);
    attack(&mut s.game, s.a, 42, 1000).unwrap();
    attack(&mut s.game, s.b, 7, 1000).unwrap();
    // A must reveal cell 7; a perfectly valid proof for cell 8 is still
    // rejected as the wrong target
    let siblings = proof_array(&s.a_leaves, 8);
    let leaf = GameField {
        index: 8,
        ship_placed: false,
    };
    let r = verify_proof(
        &mut s.game,
        s.a,
        &siblings,
        leaf,
        1000,
        InvalidProofPolicy::Reject,
    );
    assert_eq!(r.unwrap_err(), CustomError::WrongRevealTarget);
    // with no pending attack, a reveal of the sentinel value is rejected
    let mut t = setup(1000);
    let r2 = verify_proof(
        &mut t.game,
        t.a,
        &siblings,
        GameField {
            index: NO_ATTACK,
            ship_placed: false,
        },
        1000,
        InvalidProofPolicy::Reject,
    );
    assert_eq!(r2.unwrap_err(), CustomError::WrongRevealTarget);
}

#[test]
fn duplicate_verification_rejected() {
    let mut s = setup(1000);
    attack(&mut s.game, s.a, 42, 1000).unwrap();
    attack(&mut s.game, s.b, 7, 1000).unwrap();
    let siblings = proof_array(&s.a_leaves, 7);
    let leaf = GameField {
        index: 7,
        ship_placed: false,
    };
    verify_proof(&mut s.game, s.a, &siblings, leaf, 1000, InvalidProofPolicy::Reject).unwrap();
    let again = verify_proof(
        &mut s.game,
        s.a,
        &siblings,
        leaf,
        1000,
        InvalidProofPolicy::Reject,
    );
    assert_eq!(again.unwrap_err(), CustomError::DuplicateVerification);
}

#[test]
fn invalid_proof_rejected_without_state_change() {
    let mut s = setup(1000);
    attack(&mut s.game, s.a, 42, 1000).unwrap();
    attack(&mut s.game, s.b, 7, 1000).unwrap();
    // A lies: claims cell 7 holds a ship; the proof cannot bind the lie
    let siblings = proof_array(&s.a_leaves, 7);
    let lying = GameField {
        index: 7,
        ship_placed: true,
    };
    let r = verify_proof(
        &mut s.game,
        s.a,
        &siblings,
        lying,
        1000,
        InvalidProofPolicy::Reject,
    );
    assert_eq!(r.unwrap_err(), CustomError::InvalidProof);
    assert!(!s.game.player1_tried_verifying_this_turn);
    assert!(s.game.winner.is_none());
    // the honest reveal still goes through afterwards
    let honest = GameField {
        index: 7,
        ship_placed: false,
    };
    verify_proof(&mut s.game, s.a, &siblings, honest, 1000, InvalidProofPolicy::Reject).unwrap();
}

#[test]
fn invalid_proof_forfeits_under_forfeit_policy() {
    let mut s = setup(1000);
    attack(&mut s.game, s.a, 42, 1000).unwrap();
    attack(&mut s.game, s.b, 7, 1000).unwrap();
    let siblings = proof_array(&s.a_leaves, 7);
    let lying = GameField {
        index: 7,
        ship_placed: true,
    };
    let r = verify_proof(
        &mut s.game,
        s.a,
        &siblings,
        lying,
        1000,
        InvalidProofPolicy::Forfeit,
    );
    assert_eq!(r.unwrap_err(), CustomError::InvalidProof);
    assert_eq!(s.game.winner, Some(s.b));
}

#[test]
fn claim_against_compliant_opponent_rejected() {
    let mut s = setup(1000);
    // opponent not depleted, deadline not reached
    assert_eq!(
        claim_win(&mut s.game, s.a, &s.a_table, 1000).unwrap_err(),
        CustomError::TurnNotYetExpired
    );
    // after the deadline, a compliant opponent (attacked and revealed)
    // still blocks the claim
    attack(&mut s.game, s.a, 42, 1000).unwrap();
    attack(&mut s.game, s.b, 7, 1000).unwrap();
    let b_siblings = proof_array(&s.b_leaves, 42);
    verify_proof(
        &mut s.game,
        s.b,
        &b_siblings,
        GameField {
            index: 42,
            ship_placed: true,
        },
        1000,
        InvalidProofPolicy::Reject,
    )
    .unwrap();
    assert_eq!(
        claim_win(&mut s.game, s.a, &s.a_table, 1000 + TURN_DURATION).unwrap_err(),
        CustomError::PrematureOrInvalidClaim
    );
}

#[test]
fn claim_with_illegal_board_rejected() {
    let mut s = setup(1000);
    // opponent did nothing; deadline passed; but the disclosed board is
    // tampered (one extra cell) so the root cannot match
    let mut bad = s.a_table;
    bad[55] = ProofField { ship_placed: true };
    assert_eq!(
        claim_win(&mut s.game, s.a, &bad, 1000 + TURN_DURATION).unwrap_err(),
        CustomError::InvalidFinalBoard
    );
    assert!(s.game.winner.is_none());
    // with the honest board the stall claim succeeds
    let ev = claim_win(&mut s.game, s.a, &s.a_table, 1000 + TURN_DURATION).unwrap();
    assert_eq!(ev.winner, s.a);
    assert_eq!(s.game.winner, Some(s.a));
}

#[test]
fn strangers_cannot_reveal_or_claim() {
    let mut s = setup(1000);
    attack(&mut s.game, s.a, 42, 1000).unwrap();
    let siblings = proof_array(&s.b_leaves, 42);
    let r = verify_proof(
        &mut s.game,
        addr(9),
        &siblings,
        GameField {
            index: 42,
            ship_placed: true,
        },
        1000,
        InvalidProofPolicy::Reject,
    );
    assert_eq!(r.unwrap_err(), CustomError::NotAParticipant);
    assert_eq!(
        claim_win(&mut s.game, addr(9), &s.a_table, 2000).unwrap_err(),
        CustomError::NotAParticipant
    );
}

#[test]
fn attack_allowed_until_the_last_tick_of_the_window() {
    let mut s = setup(1000);
    // the window is [1000, 1000 + TURN_DURATION): its last tick is open
    assert!(attack(&mut s.game, s.a, 3, 1000 + TURN_DURATION - 1).is_ok());
    assert_eq!(
        attack(&mut s.game, s.b, 4, 1000 + TURN_DURATION).unwrap_err(),
        CustomError::TurnExpired
    );
}

#[test]
fn confessed_hit_at_zero_remaining_stays_at_zero() {
    let mut s = setup(1000);
    s.game.player2_remaining_ship_fields = 0;
    attack(&mut s.game, s.a, 42, 1000).unwrap();
    let siblings = proof_array(&s.b_leaves, 42);
    verify_proof(
        &mut s.game,
        s.b,
        &siblings,
        GameField {
            index: 42,
            ship_placed: true,
        },
        1000,
        InvalidProofPolicy::Reject,
    )
    .unwrap();
    assert_eq!(s.game.player2_remaining_ship_fields, 0);
}

#[test]
fn end_to_end_scenario() {
    let mut s = setup(1000);
    let b_ship_cells = legal_cells();

    // turn 1, exactly as scripted: A attacks 42, B attacks 7; A reveals 7
    // (miss), B reveals 42 (hit)
    attack(&mut s.game, s.a, 42, 1000).unwrap();
    attack(&mut s.game, s.b, 7, 1000).unwrap();
    let a_siblings = proof_array(&s.a_leaves, 7);
    let (ev_a, fin_a) = verify_proof(
        &mut s.game,
        s.a,
        &a_siblings,
        GameField {
            index: 7,
            ship_placed: false,
        },
        1000,
        InvalidProofPolicy::Reject,
    )
    .unwrap();
    assert_eq!(ev_a.player, s.a);
    assert!(!ev_a.ship_placed);
    assert!(fin_a.is_none());
    assert_eq!(s.game.player1_remaining_ship_fields, 17);

    let b_siblings = proof_array(&s.b_leaves, 42);
    let (ev_b, fin_b) = verify_proof(
        &mut s.game,
        s.b,
        &b_siblings,
        GameField {
            index: 42,
            ship_placed: true,
        },
        1000,
        InvalidProofPolicy::Reject,
    )
    .unwrap();
    assert!(ev_b.ship_placed);
    assert_eq!(fin_b.unwrap().turn, 1);
    // the confessed hit lowers the prover's own count; the turn advanced
    assert_eq!(s.game.player2_remaining_ship_fields, 16);
    assert_eq!(s.game.player1_remaining_ship_fields, 17);
    assert_eq!(s.game.current_turn, 2);
    assert_eq!(s.game.field_player1_attacked_this_turn, NO_ATTACK);
    assert_eq!(s.game.field_player2_attacked_this_turn, NO_ATTACK);
    assert!(!s.game.player1_attacked_this_turn);
    assert!(!s.game.player2_verified_proof_this_turn);

    // drive B's remaining ships to zero: A keeps hitting B's ship cells
    for (i, &cell) in b_ship_cells.iter().enumerate() {
        if cell == 42 {
            continue; // already revealed in the scripted turn
        }
        attack(&mut s.game, s.a, cell as u8, 1000).unwrap();
        attack(&mut s.game, s.b, 7, 1000).unwrap();
        verify_proof(
            &mut s.game,
            s.a,
            &a_siblings,
            GameField {
                index: 7,
                ship_placed: false,
            },
            1000,
            InvalidProofPolicy::Reject,
        )
        .unwrap();
        let siblings = proof_array(&s.b_leaves, cell);
        let (_, fin) = verify_proof(
            &mut s.game,
            s.b,
            &siblings,
            GameField {
                index: cell as u8,
                ship_placed: true,
            },
            1000,
            InvalidProofPolicy::Reject,
        )
        .unwrap();
        assert!(fin.is_some());
        let _ = i;
    }
    assert_eq!(s.game.player2_remaining_ship_fields, 0);
    assert_eq!(s.game.player1_remaining_ship_fields, 17);

    // the depleted side cannot claim, even after the deadline
    let b_table = table_of(&b_ship_cells);
    let deadline = s.game.turn_start_slot + TURN_DURATION;
    assert_eq!(
        claim_win(&mut s.game, s.b, &b_table, deadline).unwrap_err(),
        CustomError::PrematureOrInvalidClaim
    );

    // the other side claims with its own legal board, bypassing the timer
    let ev = claim_win(&mut s.game, s.a, &s.a_table, 1000).unwrap();
    assert_eq!(ev.winner, s.a);
    assert_eq!(s.game.winner, Some(s.a));

    // the winner is terminal: a further claim is rejected
    assert_eq!(
        claim_win(&mut s.game, s.a, &s.a_table, 1000).unwrap_err(),
        CustomError::PrematureOrInvalidClaim
    );
}
