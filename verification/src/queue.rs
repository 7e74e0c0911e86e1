//! The matchmaking registration list: players join with a committed board
//! root, and game creation consumes one waiting entry by address match.

use vstd::prelude::*;

use crate::board::FLEET_TOTAL_CELLS;
use crate::errors::CustomError;
use crate::game::game_wf;
use crate::game::Address;
use crate::game::Game;
use crate::game::GameStarted;
use crate::game::NO_ATTACK;
use crate::game::TURN_DURATION;
use crate::hashing::BoardHash;

verus! {

/// One waiting player: an address and the board commitment it joined with.
#[derive(Clone, Copy, Debug)]
pub struct GamePlayer {
    pub address: Address,
    pub board_root: BoardHash,
}

/// The registration list.
pub struct Queue {
    pub players: Vec<GamePlayer>,
}

/// Resets the queue to an empty registration list.
pub fn initialize_queue(queue: &mut Queue)
    ensures
        final(queue).players@.len() == 0,
{
    queue.players = Vec::new();
}

/// Registers a player with their committed board root.
pub fn join_queue(queue: &mut Queue, player: Address, board_root: BoardHash)
    ensures
        final(queue).players@ == old(queue).players@.push(GamePlayer { address: player, board_root }),
{
    let game_player = GamePlayer { address: player, board_root };
    queue.players.push(game_player);
}

/// A brand-new game record over the two commitments: turn 1, no flags
/// set, no pending attacks, full fleets, the clock started at `now`.
pub open spec fn fresh_game(
    player1: Address,
    root1: BoardHash,
    player2: Address,
    root2: BoardHash,
    now: u64,
) -> Game {
    Game {
        player1,
        player2,
        player1_board_hash: root1,
        player2_board_hash: root2,
        current_turn: 1,
        player1_attacked_this_turn: false,
        player2_attacked_this_turn: false,
        player1_tried_verifying_this_turn: false,
        player2_tried_verifying_this_turn: false,
        player1_verified_proof_this_turn: false,
        player2_verified_proof_this_turn: false,
        field_player1_attacked_this_turn: NO_ATTACK,
        field_player2_attacked_this_turn: NO_ATTACK,
        player1_remaining_ship_fields: FLEET_TOTAL_CELLS,
        player2_remaining_ship_fields: FLEET_TOTAL_CELLS,
        turn_start_slot: now,
        winner: None,
    }
}

/// Creates a game between the caller (with the commitment `board_root`)
/// and the named waiting opponent, whose earliest queue entry is consumed.
/// Fails with `NotAParticipant` when the opponent is not in the queue.
pub fn create_game(
    queue: &mut Queue,
    player: Address,
    board_root: BoardHash,
    enemy: Address,
    now: u64,
) -> (r: Result<(Game, GameStarted), CustomError>)
    requires
        now <= u64::MAX - TURN_DURATION,
    ensures
        r is Err ==> {
            &&& r == Err::<(Game, GameStarted), CustomError>(CustomError::NotAParticipant)
            &&& *final(queue) == *old(queue)
            &&& forall|i: int|
                0 <= i < old(queue).players@.len() ==> (#[trigger] old(
                    queue,
                ).players@[i]).address@ != enemy@
        },
        r is Ok ==> exists|pos: int|
            {
                &&& 0 <= pos < old(queue).players@.len()
                &&& (#[trigger] old(queue).players@[pos]).address@ == enemy@
                &&& forall|j: int|
                    0 <= j < pos ==> (#[trigger] old(queue).players@[j]).address@ != enemy@
                &&& final(queue).players@ == old(queue).players@.remove(pos)
                &&& r == Ok::<(Game, GameStarted), CustomError>(
                    (
                        fresh_game(
                            player,
                            board_root,
                            enemy,
                            old(queue).players@[pos].board_root,
                            now,
                        ),
                        GameStarted { player1: player, player2: enemy },
                    ),
                )
            },
        (exists|i: int|
            0 <= i < old(queue).players@.len() && (#[trigger] old(queue).players@[i]).address@
                == enemy@) ==> r is Ok,
        r is Ok ==> game_wf(r.unwrap().0),
{
    let mut i: usize = 0;
    while i < queue.players.len()
        invariant
            now <= u64::MAX - TURN_DURATION,
            i <= queue.players@.len(),
            *queue == *old(queue),
            forall|j: int|
                0 <= j < i as int ==> (#[trigger] queue.players@[j]).address@ != enemy@,
        decreases queue.players@.len() - i,
    {
        if crate::hashing::hashes_equal(&queue.players[i].address, &enemy) {
            let enemy_game_player = queue.players.remove(i);
            let game = Game {
                player1: player,
                player2: enemy,
                player1_board_hash: board_root,
                player2_board_hash: enemy_game_player.board_root,
                current_turn: 1,
                player1_attacked_this_turn: false,
                player2_attacked_this_turn: false,
                player1_tried_verifying_this_turn: false,
                player2_tried_verifying_this_turn: false,
                player1_verified_proof_this_turn: false,
                player2_verified_proof_this_turn: false,
                field_player1_attacked_this_turn: NO_ATTACK,
                field_player2_attacked_this_turn: NO_ATTACK,
                player1_remaining_ship_fields: FLEET_TOTAL_CELLS,
                player2_remaining_ship_fields: FLEET_TOTAL_CELLS,
                turn_start_slot: now,
                winner: None,
            };
            return Ok((game, GameStarted { player1: player, player2: enemy }));
        }
        i += 1;
    }
    Err(CustomError::NotAParticipant)
}

} // verus!
