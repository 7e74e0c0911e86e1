//! The per-turn game state machine: attack, reveal (proof verification),
//! turn advance, and the win claim.
//!
//! Every operation checks all its preconditions before mutating anything:
//! a rejected call leaves the record exactly as it was. The one documented
//! exception is the forfeit policy for an invalid reveal, which sets the
//! winner while still reporting the invalid proof. Time is an opaque
//! monotonic tick counter read by the caller and passed in as `now`; a
//! turn's window is `[turn_start_slot, turn_start_slot + TURN_DURATION)`.

use vstd::prelude::*;

use crate::board::legal_fleet;
use crate::board::ships_of;
use crate::board::table_root;
use crate::board::verify_table;
use crate::board::ProofField;
use crate::errors::CustomError;
use crate::hashing::hash_leaf;
use crate::hashing::hashes_equal;
use crate::hashing::leaf_digest;
use crate::hashing::BoardHash;
use crate::hashing::GameField;
use crate::merkle::digests_of;
use crate::merkle::proof_chain;
use crate::merkle::verify_merkle_proof;

verus! {

/// A player identity. The excluded authorization layer has already
/// checked authenticity; the engine only ever tests membership.
pub type Address = [u8; 32];

/// How many clock ticks a turn may last.
pub const TURN_DURATION: u64 = 75;

/// Sentinel for "no attacked cell pending".
pub const NO_ATTACK: u8 = 255;

/// What an invalid reveal does to the game: reject the call and leave the
/// record unchanged, or additionally forfeit the game to the opponent of
/// the failed prover. Both policies appear in the engine's history, so
/// the caller picks one per call site.
#[derive(Clone, Copy, PartialEq, Eq, Structural, Debug)]
pub enum InvalidProofPolicy {
    Reject,
    Forfeit,
}

/// The central mutable game record.
#[derive(Debug)]
pub struct Game {
    pub player1: Address,
    pub player2: Address,
    pub player1_board_hash: BoardHash,
    pub player2_board_hash: BoardHash,
    pub current_turn: u8,
    pub player1_attacked_this_turn: bool,
    pub player2_attacked_this_turn: bool,
    pub player1_tried_verifying_this_turn: bool,
    pub player2_tried_verifying_this_turn: bool,
    pub player1_verified_proof_this_turn: bool,
    pub player2_verified_proof_this_turn: bool,
    pub field_player1_attacked_this_turn: u8,
    pub field_player2_attacked_this_turn: u8,
    pub player1_remaining_ship_fields: u8,
    pub player2_remaining_ship_fields: u8,
    pub turn_start_slot: u64,
    pub winner: Option<Address>,
}

/// Observer notification: a game was created over two commitments.
#[derive(Clone, Copy, Debug)]
pub struct GameStarted {
    pub player1: Address,
    pub player2: Address,
}

/// Observer notification: the numbered turn completed.
#[derive(Clone, Copy, Debug)]
pub struct TurnFinished {
    pub turn: u8,
}

/// Observer notification: a player attacked a cell.
#[derive(Clone, Copy, Debug)]
pub struct FieldAttacked {
    pub player: Address,
    pub attacked_field: u8,
}

/// Observer notification: a player revealed the attacked cell.
#[derive(Clone, Copy, Debug)]
pub struct ProofVerified {
    pub player: Address,
    pub attacked_field: u8,
    pub ship_placed: bool,
}

/// Observer notification: a winner was adjudicated.
#[derive(Clone, Copy, Debug)]
pub struct GameFinished {
    pub winner: Address,
}

pub open spec fn is_player1(game: Game, caller: Address) -> bool {
    caller@ == game.player1@
}

pub open spec fn is_player2(game: Game, caller: Address) -> bool {
    caller@ == game.player2@
}

pub open spec fn is_member(game: Game, caller: Address) -> bool {
    is_player1(game, caller) || is_player2(game, caller)
}

/// Machine-level well-formedness of a game record: health within the
/// fleet size, a pending-attack field that is a board cell or the
/// sentinel, and a turn start early enough that the turn deadline fits in
/// the tick counter's type.
pub open spec fn game_wf(game: Game) -> bool {
    &&& game.player1_remaining_ship_fields <= crate::board::FLEET_TOTAL_CELLS
    &&& game.player2_remaining_ship_fields <= crate::board::FLEET_TOTAL_CELLS
    &&& game.turn_start_slot <= u64::MAX - TURN_DURATION
    &&& (game.field_player1_attacked_this_turn < 100 || game.field_player1_attacked_this_turn
        == NO_ATTACK)
    &&& (game.field_player2_attacked_this_turn < 100 || game.field_player2_attacked_this_turn
        == NO_ATTACK)
}

/// The turn's time budget has run out at tick `now`.
pub open spec fn turn_expired(game: Game, now: u64) -> bool {
    now >= game.turn_start_slot + TURN_DURATION
}

/// Both sides have attacked and both have attempted a reveal: the single
/// gate on which a turn advances.
pub open spec fn turn_complete(game: Game) -> bool {
    &&& game.player1_attacked_this_turn
    &&& game.player2_attacked_this_turn
    &&& game.player1_tried_verifying_this_turn
    &&& game.player2_tried_verifying_this_turn
}

pub open spec fn side_address(game: Game, side1: bool) -> Address {
    if side1 {
        game.player1
    } else {
        game.player2
    }
}

pub open spec fn side_root(game: Game, side1: bool) -> BoardHash {
    if side1 {
        game.player1_board_hash
    } else {
        game.player2_board_hash
    }
}

pub open spec fn side_tried(game: Game, side1: bool) -> bool {
    if side1 {
        game.player1_tried_verifying_this_turn
    } else {
        game.player2_tried_verifying_this_turn
    }
}

pub open spec fn side_remaining(game: Game, side1: bool) -> u8 {
    if side1 {
        game.player1_remaining_ship_fields
    } else {
        game.player2_remaining_ship_fields
    }
}

/// The cell a reveal by the given side must prove: the cell its opponent
/// attacked this turn.
pub open spec fn side_expected_reveal(game: Game, side1: bool) -> u8 {
    if side1 {
        game.field_player2_attacked_this_turn
    } else {
        game.field_player1_attacked_this_turn
    }
}

/// The record after the given side attacks `field`.
pub open spec fn with_attack(game: Game, side1: bool, field: u8) -> Game {
    if side1 {
        Game {
            player1_attacked_this_turn: true,
            field_player1_attacked_this_turn: field,
            ..game
        }
    } else {
        Game {
            player2_attacked_this_turn: true,
            field_player2_attacked_this_turn: field,
            ..game
        }
    }
}

/// The record after the given side completes a reveal attempt.
pub open spec fn mark_verified(game: Game, side1: bool) -> Game {
    if side1 {
        Game {
            player1_tried_verifying_this_turn: true,
            player1_verified_proof_this_turn: true,
            ..game
        }
    } else {
        Game {
            player2_tried_verifying_this_turn: true,
            player2_verified_proof_this_turn: true,
            ..game
        }
    }
}

/// A confessed hit lowers the prover's own remaining ship count by one
/// (never below zero); a caller who is no player changes nothing.
pub open spec fn apply_hit_by(game: Game, player: Address, ship_hit: bool) -> Game {
    if is_player1(game, player) && ship_hit {
        Game {
            player1_remaining_ship_fields: if game.player1_remaining_ship_fields > 0 {
                (game.player1_remaining_ship_fields - 1) as u8
            } else {
                0
            },
            ..game
        }
    } else if is_player2(game, player) && ship_hit {
        Game {
            player2_remaining_ship_fields: if game.player2_remaining_ship_fields > 0 {
                (game.player2_remaining_ship_fields - 1) as u8
            } else {
                0
            },
            ..game
        }
    } else {
        game
    }
}

/// The record at the start of the next turn: counter advanced, one-shot
/// flags cleared, pending attacks reset to the sentinel, clock restarted.
pub open spec fn advance_turn(game: Game, now: u64) -> Game {
    Game {
        current_turn: (game.current_turn + 1) as u8,
        player1_attacked_this_turn: false,
        player2_attacked_this_turn: false,
        player1_tried_verifying_this_turn: false,
        player2_tried_verifying_this_turn: false,
        player1_verified_proof_this_turn: false,
        player2_verified_proof_this_turn: false,
        field_player1_attacked_this_turn: NO_ATTACK,
        field_player2_attacked_this_turn: NO_ATTACK,
        turn_start_slot: now,
        ..game
    }
}

/// Whether the reveal's Merkle proof binds the revealed cell to the
/// committed root of the given side.
pub open spec fn proof_accepted(
    game: Game,
    side1: bool,
    leaf: GameField,
    siblings: Seq<BoardHash>,
) -> bool {
    proof_chain(leaf_digest(leaf.index, leaf.ship_placed), digests_of(siblings), leaf.index as int)
        == side_root(game, side1)@
}

/// Resolves the caller to a player of the game.
pub fn check_if_player_is_part_of_game(player: Address, game: &Game) -> (r: Result<
    Address,
    CustomError,
>)
    ensures
        is_player1(*game, player) ==> r == Ok::<Address, CustomError>(game.player1),
        !is_player1(*game, player) && is_player2(*game, player) ==> r == Ok::<
            Address,
            CustomError,
        >(game.player2),
        !is_member(*game, player) ==> r == Err::<Address, CustomError>(
            CustomError::NotAParticipant,
        ),
{
    if hashes_equal(&player, &game.player1) {
        Ok(game.player1)
    } else if hashes_equal(&player, &game.player2) {
        Ok(game.player2)
    } else {
        Err(CustomError::NotAParticipant)
    }
}

/// Resolves the caller to a player and that player's committed root.
pub fn get_player_board_hash(player: Address, game: &Game) -> (r: Result<
    (BoardHash, Address),
    CustomError,
>)
    ensures
        is_player1(*game, player) ==> r == Ok::<(BoardHash, Address), CustomError>(
            (game.player1_board_hash, game.player1),
        ),
        !is_player1(*game, player) && is_player2(*game, player) ==> r == Ok::<
            (BoardHash, Address),
            CustomError,
        >((game.player2_board_hash, game.player2)),
        !is_member(*game, player) ==> r == Err::<(BoardHash, Address), CustomError>(
            CustomError::NotAParticipant,
        ),
{
    if hashes_equal(&player, &game.player1) {
        Ok((game.player1_board_hash, game.player1))
    } else if hashes_equal(&player, &game.player2) {
        Ok((game.player2_board_hash, game.player2))
    } else {
        Err(CustomError::NotAParticipant)
    }
}

/// Rejects a call made at or after the turn's deadline.
pub fn check_time_expired(game: &Game, now: u64) -> (r: Result<(), CustomError>)
    requires
        game_wf(*game),
    ensures
        r is Ok <==> !turn_expired(*game, now),
        r is Err ==> r == Err::<(), CustomError>(CustomError::TurnExpired),
{
    if now >= game.turn_start_slot + TURN_DURATION {
        Err(CustomError::TurnExpired)
    } else {
        Ok(())
    }
}

/// Rejects a second reveal attempt in one turn.
pub fn check_tried_verifying(tried_verifying: bool) -> (r: Result<(), CustomError>)
    ensures
        r is Ok <==> !tried_verifying,
        r is Err ==> r == Err::<(), CustomError>(CustomError::DuplicateVerification),
{
    if tried_verifying {
        Err(CustomError::DuplicateVerification)
    } else {
        Ok(())
    }
}

/// Rejects a reveal of any cell other than the one the opponent attacked.
pub fn check_field_index(field_index: u8, expected_field_index: u8) -> (r: Result<
    (),
    CustomError,
>)
    ensures
        r is Ok <==> field_index == expected_field_index,
        r is Err ==> r == Err::<(), CustomError>(CustomError::WrongRevealTarget),
{
    if field_index != expected_field_index {
        Err(CustomError::WrongRevealTarget)
    } else {
        Ok(())
    }
}

/// Records an attack on `field_to_attack` by the caller, who may attack
/// once per turn while the turn's window is open. The opponent must then
/// reveal exactly that cell.
pub fn attack(game: &mut Game, caller: Address, field_to_attack: u8, now: u64) -> (r: Result<
    FieldAttacked,
    CustomError,
>)
    requires
        game_wf(*old(game)),
        field_to_attack < 100,
    ensures
        game_wf(*final(game)),
        r is Err ==> *final(game) == *old(game),
        turn_expired(*old(game), now) ==> r == Err::<FieldAttacked, CustomError>(
            CustomError::TurnExpired,
        ),
        !turn_expired(*old(game), now) && !is_member(*old(game), caller) ==> r == Err::<
            FieldAttacked,
            CustomError,
        >(CustomError::NotAParticipant),
        !turn_expired(*old(game), now) && is_player1(*old(game), caller) ==> if old(
            game,
        ).player1_attacked_this_turn {
            r == Err::<FieldAttacked, CustomError>(CustomError::DuplicateAttack) && *final(game)
                == *old(game)
        } else {
            r == Ok::<FieldAttacked, CustomError>(
                FieldAttacked { player: old(game).player1, attacked_field: field_to_attack },
            ) && *final(game) == with_attack(*old(game), true, field_to_attack)
        },
        !turn_expired(*old(game), now) && !is_player1(*old(game), caller) && is_player2(
            *old(game),
            caller,
        ) ==> if old(game).player2_attacked_this_turn {
            r == Err::<FieldAttacked, CustomError>(CustomError::DuplicateAttack) && *final(game)
                == *old(game)
        } else {
            r == Ok::<FieldAttacked, CustomError>(
                FieldAttacked { player: old(game).player2, attacked_field: field_to_attack },
            ) && *final(game) == with_attack(*old(game), false, field_to_attack)
        },
{
    match check_time_expired(game, now) {
        Err(e) => {
            return Err(e);
        },
        Ok(()) => {},
    }
    let player = match check_if_player_is_part_of_game(caller, game) {
        Err(e) => {
            return Err(e);
        },
        Ok(p) => p,
    };
    if hashes_equal(&player, &game.player1) {
        if game.player1_attacked_this_turn {
            return Err(CustomError::DuplicateAttack);
        }
        game.field_player1_attacked_this_turn = field_to_attack;
        game.player1_attacked_this_turn = true;
        Ok(FieldAttacked { player, attacked_field: field_to_attack })
    } else {
        if game.player2_attacked_this_turn {
            return Err(CustomError::DuplicateAttack);
        }
        game.field_player2_attacked_this_turn = field_to_attack;
        game.player2_attacked_this_turn = true;
        Ok(FieldAttacked { player, attacked_field: field_to_attack })
    }
}

/// Applies the outcome of a successful reveal: a confessed hit lowers the
/// prover's own remaining ship count, and once both sides have attacked
/// and attempted a reveal this turn, the turn advances.
pub fn update_game_state(game: &mut Game, ship_hit: bool, player: Address, now: u64) -> (r: Option<
    TurnFinished,
>)
    requires
        game_wf(*old(game)),
        old(game).current_turn < 255,
        now <= u64::MAX - TURN_DURATION,
    ensures
        game_wf(*final(game)),
        ({
            let g = apply_hit_by(*old(game), player, ship_hit);
            if turn_complete(g) {
                *final(game) == advance_turn(g, now) && r == Some(
                    TurnFinished { turn: old(game).current_turn },
                )
            } else {
                *final(game) == g && r == None::<TurnFinished>
            }
        }),
{
    if hashes_equal(&player, &game.player1) && ship_hit {
        if game.player1_remaining_ship_fields > 0 {
            game.player1_remaining_ship_fields = game.player1_remaining_ship_fields - 1;
        }
    } else if hashes_equal(&player, &game.player2) && ship_hit {
        if game.player2_remaining_ship_fields > 0 {
            game.player2_remaining_ship_fields = game.player2_remaining_ship_fields - 1;
        }
    }
    if game.player1_attacked_this_turn && game.player2_attacked_this_turn
        && game.player1_tried_verifying_this_turn && game.player2_tried_verifying_this_turn {
        let finished_turn = game.current_turn;
        game.current_turn = game.current_turn + 1;
        game.player1_attacked_this_turn = false;
        game.player2_attacked_this_turn = false;
        game.player1_tried_verifying_this_turn = false;
        game.player2_tried_verifying_this_turn = false;
        game.player1_verified_proof_this_turn = false;
        game.player2_verified_proof_this_turn = false;
        game.field_player1_attacked_this_turn = NO_ATTACK;
        game.field_player2_attacked_this_turn = NO_ATTACK;
        game.turn_start_slot = now;
        Some(TurnFinished { turn: finished_turn })
    } else {
        None
    }
}

/// Full specification of a reveal by the given side: the one-shot latch,
/// the binding of the revealed cell to the live accusation, the Merkle
/// check against the caller's own root, the confessed-hit decrement, and
/// the turn advance.
pub open spec fn verify_proof_spec(
    old_game: Game,
    new_game: Game,
    side1: bool,
    leaf: GameField,
    siblings: Seq<BoardHash>,
    now: u64,
    policy: InvalidProofPolicy,
    r: Result<(ProofVerified, Option<TurnFinished>), CustomError>,
) -> bool {
    if side_tried(old_game, side1) {
        r == Err::<(ProofVerified, Option<TurnFinished>), CustomError>(
            CustomError::DuplicateVerification,
        ) && new_game == old_game
    } else if leaf.index != side_expected_reveal(old_game, side1) || side_expected_reveal(
        old_game,
        side1,
    ) == NO_ATTACK {
        r == Err::<(ProofVerified, Option<TurnFinished>), CustomError>(
            CustomError::WrongRevealTarget,
        ) && new_game == old_game
    } else if !proof_accepted(old_game, side1, leaf, siblings) {
        r == Err::<(ProofVerified, Option<TurnFinished>), CustomError>(CustomError::InvalidProof)
            && (match policy {
            InvalidProofPolicy::Reject => new_game == old_game,
            InvalidProofPolicy::Forfeit => new_game == (Game {
                winner: Some(side_address(old_game, !side1)),
                ..old_game
            }),
        })
    } else {
        let g = apply_hit_by(
            mark_verified(old_game, side1),
            side_address(old_game, side1),
            leaf.ship_placed,
        );
        let event = ProofVerified {
            player: side_address(old_game, side1),
            attacked_field: leaf.index,
            ship_placed: leaf.ship_placed,
        };
        if turn_complete(g) {
            new_game == advance_turn(g, now) && r == Ok::<
                (ProofVerified, Option<TurnFinished>),
                CustomError,
            >((event, Some(TurnFinished { turn: old_game.current_turn })))
        } else {
            new_game == g && r == Ok::<(ProofVerified, Option<TurnFinished>), CustomError>(
                (event, None),
            )
        }
    }
}

/// Verifies the caller's reveal of the cell the opponent attacked, against
/// the caller's own committed root. At most one attempt per turn; the
/// revealed cell must be exactly the live accusation; an invalid proof is
/// rejected (and, under the forfeit policy, loses the game). On success a
/// confessed hit lowers the caller's own ship count, and the turn advances
/// once both sides are done.
pub fn verify_proof(
    game: &mut Game,
    caller: Address,
    siblings: &[BoardHash; 7],
    leaf: GameField,
    now: u64,
    policy: InvalidProofPolicy,
) -> (r: Result<(ProofVerified, Option<TurnFinished>), CustomError>)
    requires
        game_wf(*old(game)),
        old(game).current_turn < 255,
        now <= u64::MAX - TURN_DURATION,
    ensures
        game_wf(*final(game)),
        !is_member(*old(game), caller) ==> r == Err::<
            (ProofVerified, Option<TurnFinished>),
            CustomError,
        >(CustomError::NotAParticipant) && *final(game) == *old(game),
        is_player1(*old(game), caller) ==> verify_proof_spec(
            *old(game),
            *final(game),
            true,
            leaf,
            siblings@,
            now,
            policy,
            r,
        ),
        !is_player1(*old(game), caller) && is_player2(*old(game), caller) ==> verify_proof_spec(
            *old(game),
            *final(game),
            false,
            leaf,
            siblings@,
            now,
            policy,
            r,
        ),
{
    let (root, player) = match get_player_board_hash(caller, game) {
        Err(e) => {
            return Err(e);
        },
        Ok(p) => p,
    };
    let side1 = hashes_equal(&player, &game.player1);
    let (tried, expected) = if side1 {
        (game.player1_tried_verifying_this_turn, game.field_player2_attacked_this_turn)
    } else {
        (game.player2_tried_verifying_this_turn, game.field_player1_attacked_this_turn)
    };
    match check_tried_verifying(tried) {
        Err(e) => {
            return Err(e);
        },
        Ok(()) => {},
    }
    match check_field_index(leaf.index, expected) {
        Err(e) => {
            return Err(e);
        },
        Ok(()) => {},
    }
    if expected == NO_ATTACK {
        // the opponent has no live accusation to answer
        return Err(CustomError::WrongRevealTarget);
    }
    let hashed_leaf = hash_leaf(&leaf);
    let is_proof_valid = verify_merkle_proof(&hashed_leaf, siblings, &root, leaf.index);
    if !is_proof_valid {
        match policy {
            InvalidProofPolicy::Reject => {},
            InvalidProofPolicy::Forfeit => {
                game.winner = Some(
                    if side1 {
                        game.player2
                    } else {
                        game.player1
                    },
                );
            },
        }
        return Err(CustomError::InvalidProof);
    }
    if side1 {
        game.player1_tried_verifying_this_turn = true;
        game.player1_verified_proof_this_turn = true;
    } else {
        game.player2_tried_verifying_this_turn = true;
        game.player2_verified_proof_this_turn = true;
    }
    let event = ProofVerified {
        player,
        attacked_field: leaf.index,
        ship_placed: leaf.ship_placed,
    };
    let advanced = update_game_state(game, leaf.ship_placed, player, now);
    Ok((event, advanced))
}

/// Whether the given side's opponent completed its obligations this turn.
pub open spec fn opponent_compliant(game: Game, side1: bool) -> bool {
    if side1 {
        game.player2_attacked_this_turn && game.player2_verified_proof_this_turn
    } else {
        game.player1_attacked_this_turn && game.player1_verified_proof_this_turn
    }
}

/// A claim by the given side may proceed only against an opponent that is
/// non-compliant or already depleted, and only while the claimant itself
/// still has ships.
pub open spec fn claim_gate(game: Game, side1: bool) -> bool {
    (!opponent_compliant(game, side1) || side_remaining(game, !side1) == 0) && side_remaining(
        game,
        side1,
    ) > 0
}

/// Full specification of a win claim by the given side.
pub open spec fn claim_win_spec(
    old_game: Game,
    new_game: Game,
    side1: bool,
    ships: Seq<bool>,
    now: u64,
    r: Result<GameFinished, CustomError>,
) -> bool {
    if old_game.winner is Some {
        r == Err::<GameFinished, CustomError>(CustomError::PrematureOrInvalidClaim) && new_game
            == old_game
    } else if side_remaining(old_game, !side1) != 0 && !turn_expired(old_game, now) {
        r == Err::<GameFinished, CustomError>(CustomError::TurnNotYetExpired) && new_game
            == old_game
    } else if !claim_gate(old_game, side1) {
        r == Err::<GameFinished, CustomError>(CustomError::PrematureOrInvalidClaim) && new_game
            == old_game
    } else if !(legal_fleet(ships) && table_root(ships) == side_root(old_game, side1)@) {
        r == Err::<GameFinished, CustomError>(CustomError::InvalidFinalBoard) && new_game
            == old_game
    } else {
        r == Ok::<GameFinished, CustomError>(
            GameFinished { winner: side_address(old_game, side1) },
        ) && new_game == (Game { winner: Some(side_address(old_game, side1)), ..old_game })
    }
}

/// Adjudicates a win claim: the caller discloses their whole board, which
/// must re-derive their own commitment and encode a legal fleet. Allowed
/// only once the opponent is depleted, or after the turn's deadline
/// against an opponent that did not complete its turn; never by a
/// depleted claimant, and never on a finished game.
pub fn claim_win(game: &mut Game, caller: Address, table: &[ProofField; 128], now: u64) -> (r:
    Result<GameFinished, CustomError>)
    requires
        game_wf(*old(game)),
    ensures
        game_wf(*final(game)),
        !is_member(*old(game), caller) ==> r == Err::<GameFinished, CustomError>(
            CustomError::NotAParticipant,
        ) && *final(game) == *old(game),
        is_player1(*old(game), caller) ==> claim_win_spec(
            *old(game),
            *final(game),
            true,
            ships_of(table@),
            now,
            r,
        ),
        !is_player1(*old(game), caller) && is_player2(*old(game), caller) ==> claim_win_spec(
            *old(game),
            *final(game),
            false,
            ships_of(table@),
            now,
            r,
        ),
{
    let player = match check_if_player_is_part_of_game(caller, game) {
        Err(e) => {
            return Err(e);
        },
        Ok(p) => p,
    };
    let side1 = hashes_equal(&player, &game.player1);
    if game.winner.is_some() {
        return Err(CustomError::PrematureOrInvalidClaim);
    }
    let opponent_remaining = if side1 {
        game.player2_remaining_ship_fields
    } else {
        game.player1_remaining_ship_fields
    };
    if opponent_remaining != 0 {
        if now < game.turn_start_slot + TURN_DURATION {
            return Err(CustomError::TurnNotYetExpired);
        }
    }
    let own_remaining = if side1 {
        game.player1_remaining_ship_fields
    } else {
        game.player2_remaining_ship_fields
    };
    let opponent_done = if side1 {
        game.player2_attacked_this_turn && game.player2_verified_proof_this_turn
    } else {
        game.player1_attacked_this_turn && game.player1_verified_proof_this_turn
    };
    if !((!opponent_done || opponent_remaining == 0) && own_remaining > 0) {
        return Err(CustomError::PrematureOrInvalidClaim);
    }
    let own_root = if side1 {
        game.player1_board_hash
    } else {
        game.player2_board_hash
    };
    match verify_table(table, &own_root) {
        Err(e) => {
            return Err(e);
        },
        Ok(()) => {},
    }
    game.winner = Some(player);
    Ok(GameFinished { winner: player })
}

} // verus!
